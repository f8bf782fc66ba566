//! Character-level helpers shared by the parsers: views of `str` as
//! character sequences, the Unicode character classes the parsers use,
//! trimming, searching and case mapping.
use vstd::prelude::*;

verus! {

// ---------------------------------------------------------------------------
// ASCII character classes (exact, by code point)
// ---------------------------------------------------------------------------

pub open spec fn is_ascii_char(c: char) -> bool {
    (c as u32) < 128
}

pub open spec fn is_ascii_seq(s: Seq<char>) -> bool {
    forall|i: int| 0 <= i < s.len() ==> is_ascii_char(#[trigger] s[i])
}

pub open spec fn ascii_ws(c: char) -> bool {
    c == ' ' || c == '\t' || c == '\n' || c == '\r' || c == '\x0B' || c == '\x0C'
}

pub open spec fn ascii_lower(c: char) -> bool {
    'a' <= c && c <= 'z'
}

pub open spec fn ascii_upper(c: char) -> bool {
    'A' <= c && c <= 'Z'
}

pub open spec fn ascii_alpha(c: char) -> bool {
    ascii_lower(c) || ascii_upper(c)
}

pub open spec fn ascii_digit(c: char) -> bool {
    '0' <= c && c <= '9'
}

pub open spec fn to_ascii_upper(c: char) -> char {
    if ascii_lower(c) {
        ((c as u32) - 32) as char
    } else {
        c
    }
}

pub open spec fn to_ascii_lower(c: char) -> char {
    if ascii_upper(c) {
        ((c as u32) + 32) as char
    } else {
        c
    }
}

// ---------------------------------------------------------------------------
// Unicode character classes and case mapping of std
// ---------------------------------------------------------------------------

/// What `char::is_whitespace` answers: the Unicode `White_Space` property,
/// which holds of exactly these code points.
pub open spec fn char_is_whitespace(c: char) -> bool {
    let u = c as u32;
    (0x09 <= u && u <= 0x0D) || u == 0x20 || u == 0x85 || u == 0xA0 || u == 0x1680 || (0x2000
        <= u && u <= 0x200A) || u == 0x2028 || u == 0x2029 || u == 0x202F || u == 0x205F || u
        == 0x3000
}

/// What `char::is_alphabetic` answers (the Unicode `Alphabetic` property).
pub uninterp spec fn char_is_alphabetic(c: char) -> bool;

/// What `char::is_alphanumeric` answers (`Alphabetic` or `Numeric`).
pub uninterp spec fn char_is_alphanumeric(c: char) -> bool;

/// What `str::to_uppercase` returns for a string with these characters.
pub uninterp spec fn str_upper(s: Seq<char>) -> Seq<char>;

/// What `str::to_lowercase` returns for a string with these characters.
pub uninterp spec fn str_lower(s: Seq<char>) -> Seq<char>;

/// Calls `char::is_whitespace`. Claimed: the answer is the `White_Space`
/// property, as `char_is_whitespace` lists its code points.
#[verifier::external_body]
pub(crate) fn is_whitespace(c: char) -> (r: bool)
    ensures
        r == char_is_whitespace(c),
{
    c.is_whitespace()
}

/// Calls `char::is_alphabetic`. Claimed: the answer is the named
/// property, and on ASCII it holds exactly for the letters.
#[verifier::external_body]
pub(crate) fn is_alphabetic(c: char) -> (r: bool)
    ensures
        r == char_is_alphabetic(c),
        is_ascii_char(c) ==> (r <==> ascii_alpha(c)),
{
    c.is_alphabetic()
}

/// Calls `char::is_alphanumeric`. Claimed: the answer is the named
/// property, and on ASCII it holds exactly for letters and digits.
#[verifier::external_body]
pub(crate) fn is_alphanumeric(c: char) -> (r: bool)
    ensures
        r == char_is_alphanumeric(c),
        is_ascii_char(c) ==> (r <==> (ascii_alpha(c) || ascii_digit(c))),
{
    c.is_alphanumeric()
}

/// Calls `str::to_uppercase` on the string made of these characters.
/// Claimed: the result is the named mapping, and on an ASCII string it
/// maps each lower-case letter to its upper-case letter, one for one.
#[verifier::external_body]
pub(crate) fn upper_chars(s: &Vec<char>) -> (r: Vec<char>)
    ensures
        r@ == str_upper(s@),
        is_ascii_seq(s@) ==> r@ == s@.map_values(|c: char| to_ascii_upper(c)),
{
    s.iter().collect::<String>().to_uppercase().chars().collect()
}

/// Calls `str::to_lowercase` on the string made of these characters.
/// Claimed: the result is the named mapping, and on an ASCII string it
/// maps each upper-case letter to its lower-case letter, one for one.
#[verifier::external_body]
pub(crate) fn lower_chars(s: &Vec<char>) -> (r: Vec<char>)
    ensures
        r@ == str_lower(s@),
        is_ascii_seq(s@) ==> r@ == s@.map_values(|c: char| to_ascii_lower(c)),
{
    s.iter().collect::<String>().to_lowercase().chars().collect()
}

/// Calls `String::from_iter` over the characters. Claimed: the string
/// holds exactly these characters, in order.
#[verifier::external_body]
pub(crate) fn string_from(s: &Vec<char>) -> (r: String)
    ensures
        r@ == s@,
{
    s.iter().collect::<String>()
}

// ---------------------------------------------------------------------------
// Conversions
// ---------------------------------------------------------------------------

/// Builds the character vector of a string slice.
pub fn chars_of(s: &str) -> (v: Vec<char>)
    ensures
        v@ == s@,
{
    let mut v: Vec<char> = Vec::new();
    for c in it: s.chars()
        invariant
            v@ == it.seq().take(it.index() as int),
    {
        v.push(c);
    }
    v
}

/// Copies `s[lo..hi]`.
pub fn slice_of(s: &Vec<char>, lo: usize, hi: usize) -> (r: Vec<char>)
    requires
        lo <= hi <= s.len(),
    ensures
        r@ == s@.subrange(lo as int, hi as int),
{
    let mut r: Vec<char> = Vec::new();
    let mut i = lo;
    while i < hi
        invariant
            lo <= i <= hi <= s.len(),
            r@ == s@.subrange(lo as int, i as int),
        decreases hi - i,
    {
        r.push(s[i]);
        i += 1;
    }
    r
}

/// A copy of `s`.
pub fn copy_chars(s: &Vec<char>) -> (r: Vec<char>)
    ensures
        r@ == s@,
{
    let r = slice_of(s, 0, s.len());
    assert(s@.subrange(0, s.len() as int) =~= s@);
    r
}

/// Appends all of `b` to `a`.
pub fn append_chars(a: &mut Vec<char>, b: &Vec<char>)
    ensures
        final(a)@ == old(a)@ + b@,
{
    let mut i: usize = 0;
    while i < b.len()
        invariant
            0 <= i <= b.len(),
            a@ == old(a)@ + b@.take(i as int),
        decreases b.len() - i,
    {
        a.push(b[i]);
        i += 1;
        assert(b@.take(i as int) == b@.take((i - 1) as int).push(b@[i - 1]));
    }
    assert(b@.take(b.len() as int) == b@);
}

/// Appends the characters of `b` to `a`.
pub fn append_str(a: &mut Vec<char>, b: &str)
    ensures
        final(a)@ == old(a)@ + b@,
{
    let bv = chars_of(b);
    append_chars(a, &bv);
}

pub fn eq_chars(a: &Vec<char>, b: &Vec<char>) -> (r: bool)
    ensures
        r == (a@ == b@),
{
    if a.len() != b.len() {
        return false;
    }
    let mut i: usize = 0;
    while i < a.len()
        invariant
            a.len() == b.len(),
            0 <= i <= a.len(),
            forall|k: int| 0 <= k < i ==> a@[k] == b@[k],
        decreases a.len() - i,
    {
        if a[i] != b[i] {
            return false;
        }
        i += 1;
    }
    assert(a@ =~= b@);
    true
}


// ---------------------------------------------------------------------------
// Lines
// ---------------------------------------------------------------------------

pub open spec fn lines_view(ls: Seq<Vec<char>>) -> Seq<Seq<char>> {
    ls.map_values(|l: Vec<char>| l@)
}

/// The lines joined with line feeds.
pub open spec fn join_lines(ls: Seq<Seq<char>>) -> Seq<char>
    decreases ls.len(),
{
    if ls.len() == 0 {
        seq![]
    } else if ls.len() == 1 {
        ls[0]
    } else {
        join_lines(ls.drop_last()) + seq!['\n'] + ls.last()
    }
}


/// A line as `str::lines` yields it: the line feed goes, and a carriage
/// return just before it too.
pub open spec fn strip_line_end(piece: Seq<char>) -> Seq<char> {
    if piece.len() > 0 && piece.last() == '\n' {
        let p = piece.drop_last();
        if p.len() > 0 && p.last() == '\r' {
            p.drop_last()
        } else {
            p
        }
    } else {
        piece
    }
}

/// The index just past the next line feed at or after `j`, or the end.
pub open spec fn next_line_start(s: Seq<char>, j: int) -> int
    decreases s.len() - j,
{
    if j < 0 || j >= s.len() {
        j
    } else if s[j] == '\n' {
        j + 1
    } else {
        next_line_start(s, j + 1)
    }
}

pub proof fn lemma_next_line_start(s: Seq<char>, j: int)
    requires
        0 <= j < s.len(),
    ensures
        j < next_line_start(s, j) <= s.len(),
    decreases s.len() - j,
{
    if s[j] != '\n' {
        if j + 1 < s.len() {
            lemma_next_line_start(s, j + 1);
        } else {
            assert(next_line_start(s, j + 1) == j + 1);
        }
    }
}

/// The lines of `s` from index `i` on (`str::lines`).
pub open spec fn lines_from(s: Seq<char>, i: int) -> Seq<Seq<char>>
    decreases s.len() - i,
{
    if i < 0 || i >= s.len() {
        seq![]
    } else {
        let j = next_line_start(s, i);
        proof {
            lemma_next_line_start(s, i);
        }
        seq![strip_line_end(s.subrange(i, j))] + lines_from(s, j)
    }
}

pub open spec fn lines_of(s: Seq<char>) -> Seq<Seq<char>> {
    lines_from(s, 0)
}


/// The total number of characters in the lines.
pub open spec fn total_len(ls: Seq<Seq<char>>) -> int
    decreases ls.len(),
{
    if ls.len() == 0 {
        0
    } else {
        total_len(ls.drop_last()) + ls.last().len()
    }
}

pub proof fn lemma_total_len_prefix(ls: Seq<Seq<char>>, k: int)
    requires
        0 <= k <= ls.len(),
    ensures
        0 <= total_len(ls.take(k)) <= total_len(ls),
        k < ls.len() ==> total_len(ls.take(k + 1)) == total_len(ls.take(k)) + ls[k].len(),
    decreases ls.len(),
{
    if ls.len() == 0 {
        assert(ls.take(k) =~= ls);
    } else if k == ls.len() {
        assert(ls.take(k) =~= ls);
        lemma_total_len_prefix(ls.drop_last(), k - 1);
        assert(ls.drop_last().take(k - 1) =~= ls.drop_last());
    } else {
        lemma_total_len_prefix(ls.drop_last(), k);
        assert(ls.drop_last().take(k) =~= ls.take(k));
        if k + 1 < ls.len() {
            assert(ls.drop_last().take(k + 1) =~= ls.take(k + 1));
        } else {
            assert(ls.take(k + 1) =~= ls);
            assert(ls.drop_last() =~= ls.take(k));
        }
    }
    if k < ls.len() {
        assert(ls.take(k + 1).drop_last() =~= ls.take(k));
    }
}

pub proof fn lemma_total_len_concat(a: Seq<Seq<char>>, b: Seq<Seq<char>>)
    ensures
        total_len(a + b) == total_len(a) + total_len(b),
    decreases b.len(),
{
    if b.len() == 0 {
        assert(a + b =~= a);
    } else {
        lemma_total_len_concat(a, b.drop_last());
        assert((a + b).drop_last() =~= a + b.drop_last());
    }
}

pub proof fn lemma_lines_from_total(s: Seq<char>, i: int)
    requires
        0 <= i <= s.len(),
    ensures
        total_len(lines_from(s, i)) <= s.len() - i,
        lines_from(s, i).len() <= s.len() - i,
    decreases s.len() - i,
{
    if i < s.len() {
        let j = next_line_start(s, i);
        lemma_next_line_start(s, i);
        lemma_lines_from_total(s, j);
        let x = strip_line_end(s.subrange(i, j));
        lemma_total_len_concat(seq![x], lines_from(s, j));
        assert(seq![x].drop_last() =~= Seq::<Seq<char>>::empty());
        assert(total_len(Seq::<Seq<char>>::empty()) == 0);
        assert(total_len(seq![x]) == x.len());
        assert(x.len() <= j - i);
        assert(lines_from(s, i) == seq![x] + lines_from(s, j));
    }
}

pub fn lines_exec(s: &Vec<char>) -> (r: Vec<Vec<char>>)
    ensures
        lines_view(r@) == lines_of(s@),
{
    let mut out: Vec<Vec<char>> = Vec::new();
    let mut i: usize = 0;
    while i < s.len()
        invariant
            0 <= i <= s.len(),
            lines_view(out@) + lines_from(s@, i as int) == lines_of(s@),
        decreases s.len() - i,
    {
        let mut j = i;
        while j < s.len() && s[j] != '\n'
            invariant
                i <= j <= s.len(),
                next_line_start(s@, j as int) == next_line_start(s@, i as int),
                forall|k: int| i <= k < j ==> s@[k] != '\n',
            decreases s.len() - j,
        {
            j += 1;
        }
        let e = if j < s.len() { j + 1 } else { j };
        proof {
            lemma_next_line_start(s@, i as int);
        }
        assert(e == next_line_start(s@, i as int));
        let mut lo_end = j;
        if j < s.len() && j > i && s[j - 1] == '\r' {
            lo_end = j - 1;
        }
        let piece = slice_of(s, i, lo_end);
        proof {
            let full = s@.subrange(i as int, e as int);
            if j < s.len() {
                assert(full.last() == '\n');
                assert(full.len() > 0);
                assert(full.drop_last() =~= s@.subrange(i as int, j as int));
                if j > i && s@[j - 1] == '\r' {
                    assert(full.drop_last().drop_last() =~= s@.subrange(i as int, j - 1));
                }
                assert(piece@ == strip_line_end(full));
            } else {
                assert(full =~= s@.subrange(i as int, j as int));
                assert(full.len() == 0 || full.last() != '\n');
                assert(piece@ == strip_line_end(full));
            }
        }
        let ghost before = lines_view(out@);
        out.push(piece);
        assert(lines_view(out@) =~= before.push(piece@));
        assert(lines_view(out@) + lines_from(s@, e as int) =~= before + lines_from(s@, i as int));
        i = e;
    }
    assert(lines_view(out@) + lines_from(s@, i as int) =~= lines_view(out@));
    out
}


// ---------------------------------------------------------------------------
// Decimal integers (`str::parse` for the integer types)
// ---------------------------------------------------------------------------

pub open spec fn all_digits(s: Seq<char>) -> bool {
    forall|i: int| 0 <= i < s.len() ==> ascii_digit(#[trigger] s[i])
}

pub open spec fn digit_value(c: char) -> int {
    (c as int) - ('0' as int)
}

pub open spec fn digits_value(s: Seq<char>) -> int
    decreases s.len(),
{
    if s.len() == 0 {
        0
    } else {
        digits_value(s.drop_last()) * 10 + digit_value(s.last())
    }
}

/// `str::parse` for an unsigned type whose largest value is `max`: an
/// optional `+`, then at least one ASCII digit, and a value of at most `max`.
pub open spec fn parse_unsigned(s: Seq<char>, max: int) -> Option<int> {
    let body = if s.len() > 0 && s[0] == '+' {
        s.drop_first()
    } else {
        s
    };
    if body.len() > 0 && all_digits(body) && digits_value(body) <= max {
        Some(digits_value(body))
    } else {
        None
    }
}

/// `str::parse` for a signed type ranging over `[-max - 1, max]`: an
/// optional sign, then at least one ASCII digit.
pub open spec fn parse_signed(s: Seq<char>, max: int) -> Option<int> {
    if s.len() > 0 && s[0] == '-' {
        let body = s.drop_first();
        if body.len() > 0 && all_digits(body) && digits_value(body) <= max + 1 {
            Some(-digits_value(body))
        } else {
            None
        }
    } else {
        parse_unsigned(s, max)
    }
}

pub proof fn lemma_digits_value_mono(s: Seq<char>, k: int)
    requires
        all_digits(s),
        0 <= k <= s.len(),
    ensures
        0 <= digits_value(s.take(k)) <= digits_value(s),
    decreases s.len(),
{
    if s.len() == 0 {
        assert(s.take(k) =~= s);
    } else if k == s.len() {
        assert(s.take(k) =~= s);
        lemma_digits_value_mono(s.drop_last(), s.len() - 1);
        assert(s.drop_last().take(s.len() - 1) =~= s.drop_last());
    } else {
        lemma_digits_value_mono(s.drop_last(), k);
        assert(s.drop_last().take(k) =~= s.take(k));
        lemma_digits_value_mono(s.drop_last(), s.len() - 1);
        assert(s.drop_last().take(s.len() - 1) =~= s.drop_last());
    }
}

/// The value of the ASCII digits `s[lo..]`, if all are digits and the value is at most `max`.
fn digits_exec(s: &Vec<char>, lo: usize, max: u64) -> (r: Option<u64>)
    requires
        lo <= s.len(),
    ensures
        ({
            let b = s@.skip(lo as int);
            match r {
                Some(v) => all_digits(b) && digits_value(b) == v && v <= max,
                None => !all_digits(b) || digits_value(b) > max,
            }
        }),
{
    let ghost b = s@.skip(lo as int);
    let mut v: u64 = 0;
    let mut i = lo;
    while i < s.len()
        invariant
            lo <= i <= s.len(),
            b == s@.skip(lo as int),
            all_digits(b.take(i - lo)),
            v == digits_value(b.take(i - lo)),
            v <= max,
        decreases s.len() - i,
    {
        let c = s[i];
        if !('0' <= c && c <= '9') {
            assert(b[i - lo] == c);
            return None;
        }
        let d = (c as u32 - '0' as u32) as u64;
        assert(b.take(i - lo + 1).drop_last() =~= b.take(i - lo));
        assert(b.take(i - lo + 1).last() == c);
        if d > max || v > (max - d) / 10 {
            proof {
                assert(v * 10 + d > max) by (nonlinear_arith)
                    requires
                        v > (max - d) / 10 || d > max,
                        d <= 9,
                        v >= 0,
                ;
                assert(all_digits(b.take(i - lo + 1)));
                if all_digits(b) {
                    lemma_digits_value_mono(b, i - lo + 1);
                }
            }
            return None;
        }
        proof {
            assert(v * 10 + d <= max) by (nonlinear_arith)
                requires
                    v <= (max - d) / 10,
                    d <= max,
            ;
        }
        v = v * 10 + d;
        i += 1;
        assert(all_digits(b.take(i - lo)));
    }
    assert(b.take(i - lo) =~= b);
    Some(v)
}

/// `str::parse::<u64>`-like parsing bounded by `max`.
pub fn parse_unsigned_exec(s: &Vec<char>, max: u64) -> (r: Option<u64>)
    ensures
        r matches Some(m) ==> parse_unsigned(s@, max as int) == Some(m as int),
        r is None ==> parse_unsigned(s@, max as int) is None,
{
    let lo: usize = if s.len() > 0 && s[0] == '+' { 1 } else { 0 };
    assert(s@.skip(1) =~= s@.drop_first());
    assert(s@.skip(0) =~= s@);
    if lo >= s.len() {
        return None;
    }
    digits_exec(s, lo, max)
}

/// Signed parsing over `[-max - 1, max]`: the sign and the magnitude.
pub fn parse_signed_exec(s: &Vec<char>, max: u64) -> (r: Option<(bool, u64)>)
    requires
        max < u64::MAX,
    ensures
        match parse_signed(s@, max as int) {
            Some(v) => r matches Some((neg, m)) && (if neg { v == -(m as int) && m <= max + 1 } else { v == m as int && m <= max }),
            None => r is None,
        },
{
    if s.len() > 0 && s[0] == '-' {
        assert(s@.skip(1) =~= s@.drop_first());
        if s.len() == 1 {
            return None;
        }
        let r = digits_exec(s, 1, max + 1);
        match r {
            Some(m) => {
                assert(parse_signed(s@, max as int) == Some(-(m as int)));
                Some((true, m))
            },
            None => {
                assert(parse_signed(s@, max as int) is None);
                None
            },
        }
    } else {
        match parse_unsigned_exec(s, max) {
            Some(m) => Some((false, m)),
            None => None,
        }
    }
}

// ---------------------------------------------------------------------------
// Trimming (the `White_Space` property, as `str::trim` does)
// ---------------------------------------------------------------------------

pub open spec fn trim_end(s: Seq<char>) -> Seq<char>
    decreases s.len(),
{
    if s.len() > 0 && char_is_whitespace(s.last()) {
        trim_end(s.drop_last())
    } else {
        s
    }
}

pub open spec fn trim_start(s: Seq<char>) -> Seq<char>
    decreases s.len(),
{
    if s.len() > 0 && char_is_whitespace(s[0]) {
        trim_start(s.drop_first())
    } else {
        s
    }
}

pub open spec fn trim(s: Seq<char>) -> Seq<char> {
    trim_start(trim_end(s))
}

/// `trim_end(s.take(n))` is the prefix `s.take(k)` for the `k` this returns.
pub proof fn lemma_trim_end_prefix(s: Seq<char>)
    ensures
        exists|k: int| 0 <= k <= s.len() && trim_end(s) == s.take(k),
        trim_end(s).len() <= s.len(),
        trim_end(s).len() > 0 ==> !char_is_whitespace(trim_end(s).last()),
    decreases s.len(),
{
    if s.len() > 0 && char_is_whitespace(s.last()) {
        lemma_trim_end_prefix(s.drop_last());
        let k = choose|k: int| 0 <= k <= s.drop_last().len() && trim_end(s.drop_last()) == s.drop_last().take(k);
        assert(s.drop_last().take(k) == s.take(k));
    } else {
        assert(s.take(s.len() as int) == s);
    }
}

pub proof fn lemma_trim_start_suffix(s: Seq<char>)
    ensures
        exists|k: int| 0 <= k <= s.len() && trim_start(s) == s.skip(k),
        trim_start(s).len() <= s.len(),
        trim_start(s).len() > 0 ==> !char_is_whitespace(trim_start(s)[0]),
    decreases s.len(),
{
    if s.len() > 0 && char_is_whitespace(s[0]) {
        lemma_trim_start_suffix(s.drop_first());
        let k = choose|k: int| 0 <= k <= s.drop_first().len() && trim_start(s.drop_first()) == s.drop_first().skip(k);
        assert(s.drop_first().skip(k) == s.skip(k + 1));
    } else {
        assert(s.skip(0) == s);
    }
}

/// Index `k <= hi` with `s[..k] == trim_end(s[..hi])`.
pub fn trim_end_index(s: &Vec<char>, lo: usize, hi: usize) -> (k: usize)
    requires
        lo <= hi <= s.len(),
    ensures
        lo <= k <= hi,
        s@.subrange(lo as int, k as int) == trim_end(s@.subrange(lo as int, hi as int)),
{
    let mut k = hi;
    while k > lo && is_whitespace(s[k - 1])
        invariant
            lo <= k <= hi <= s.len(),
            trim_end(s@.subrange(lo as int, k as int)) == trim_end(s@.subrange(lo as int, hi as int)),
        decreases k,
    {
        assert(s@.subrange(lo as int, k as int).drop_last() == s@.subrange(lo as int, k - 1));
        k -= 1;
    }
    k
}

/// Index `k >= lo` with `s[k..hi] == trim_start(s[lo..hi])`.
pub fn trim_start_index(s: &Vec<char>, lo: usize, hi: usize) -> (k: usize)
    requires
        lo <= hi <= s.len(),
    ensures
        lo <= k <= hi,
        s@.subrange(k as int, hi as int) == trim_start(s@.subrange(lo as int, hi as int)),
{
    let mut k = lo;
    while k < hi && is_whitespace(s[k])
        invariant
            lo <= k <= hi <= s.len(),
            trim_start(s@.subrange(k as int, hi as int)) == trim_start(s@.subrange(lo as int, hi as int)),
        decreases hi - k,
    {
        assert(s@.subrange(k as int, hi as int).drop_first() == s@.subrange(k + 1, hi as int));
        k += 1;
    }
    k
}

/// `trim(s[lo..hi])` as a new vector.
pub fn trim_range(s: &Vec<char>, lo: usize, hi: usize) -> (r: Vec<char>)
    requires
        lo <= hi <= s.len(),
    ensures
        r@ == trim(s@.subrange(lo as int, hi as int)),
{
    let e = trim_end_index(s, lo, hi);
    let b = trim_start_index(s, lo, e);
    slice_of(s, b, e)
}

pub fn trim_vec(s: &Vec<char>) -> (r: Vec<char>)
    ensures
        r@ == trim(s@),
{
    let r = trim_range(s, 0, s.len());
    assert(s@.subrange(0, s.len() as int) == s@);
    r
}

pub fn trim_end_vec(s: &Vec<char>) -> (r: Vec<char>)
    ensures
        r@ == trim_end(s@),
{
    let e = trim_end_index(s, 0, s.len());
    assert(s@.subrange(0, s.len() as int) == s@);
    slice_of(s, 0, e)
}

// ---------------------------------------------------------------------------
// Searching
// ---------------------------------------------------------------------------

pub open spec fn matches_at(s: Seq<char>, p: Seq<char>, i: int) -> bool {
    0 <= i && i + p.len() <= s.len() && s.subrange(i, i + p.len()) == p
}

/// The first index `>= i` at which `p` occurs in `s`.
pub open spec fn find_from(s: Seq<char>, p: Seq<char>, i: int) -> Option<int>
    decreases s.len() + 1 - i,
{
    if i < 0 || i + p.len() > s.len() {
        None
    } else if s.subrange(i, i + p.len()) == p {
        Some(i)
    } else {
        find_from(s, p, i + 1)
    }
}

/// The first index at which `p` occurs in `s` (`str::find`, counted in characters).
pub open spec fn find(s: Seq<char>, p: Seq<char>) -> Option<int> {
    find_from(s, p, 0)
}

/// `str::contains`.
pub open spec fn contains(s: Seq<char>, p: Seq<char>) -> bool {
    find(s, p) is Some
}

pub open spec fn starts_with(s: Seq<char>, p: Seq<char>) -> bool {
    p.len() <= s.len() && s.take(p.len() as int) == p
}

pub open spec fn ends_with(s: Seq<char>, p: Seq<char>) -> bool {
    p.len() <= s.len() && s.skip(s.len() - p.len()) == p
}

/// The first index at which character `c` occurs in `s`.
pub open spec fn find_char(s: Seq<char>, c: char) -> Option<int> {
    find(s, seq![c])
}

pub proof fn lemma_find_from_props(s: Seq<char>, p: Seq<char>, i: int)
    requires
        0 <= i,
    ensures
        find_from(s, p, i) matches Some(k) ==> i <= k && matches_at(s, p, k) && forall|j: int|
            i <= j < k ==> !matches_at(s, p, j),
        find_from(s, p, i) is None ==> forall|j: int| i <= j ==> !matches_at(s, p, j),
    decreases s.len() + 1 - i,
{
    if i + p.len() > s.len() {
    } else if s.subrange(i, i + p.len()) == p {
    } else {
        lemma_find_from_props(s, p, i + 1);
    }
}

pub fn matches_at_exec(s: &Vec<char>, p: &Vec<char>, i: usize) -> (r: bool)
    ensures
        r == matches_at(s@, p@, i as int),
{
    if i > s.len() || p.len() > s.len() - i {
        return false;
    }
    let mut k: usize = 0;
    while k < p.len()
        invariant
            i + p.len() <= s.len(),
            0 <= k <= p.len(),
            forall|j: int| 0 <= j < k ==> s@[i + j] == p@[j],
        decreases p.len() - k,
    {
        if s[i + k] != p[k] {
            assert(s@.subrange(i as int, i + p.len())[k as int] != p@[k as int]);
            return false;
        }
        k += 1;
    }
    assert(s@.subrange(i as int, i + p.len()) =~= p@);
    true
}

/// `find_from(s, p, i)`.
pub fn find_from_exec(s: &Vec<char>, p: &Vec<char>, i: usize) -> (r: Option<usize>)
    ensures
        r matches Some(k) ==> find_from(s@, p@, i as int) == Some(k as int),
        r is None ==> find_from(s@, p@, i as int) is None,
{
    let mut j = i;
    while j <= s.len() && p.len() <= s.len() - j
        invariant
            i <= j,
            find_from(s@, p@, j as int) == find_from(s@, p@, i as int),
        decreases s.len() + 1 - j,
    {
        if matches_at_exec(s, p, j) {
            return Some(j);
        }
        if j >= s.len() {
            assert(find_from(s@, p@, j + 1) is None);
            return None;
        }
        j += 1;
    }
    None
}

pub fn find_exec(s: &Vec<char>, p: &Vec<char>) -> (r: Option<usize>)
    ensures
        r matches Some(k) ==> find(s@, p@) == Some(k as int),
        r is None ==> find(s@, p@) is None,
{
    find_from_exec(s, p, 0)
}

pub fn contains_exec(s: &Vec<char>, p: &Vec<char>) -> (r: bool)
    ensures
        r == contains(s@, p@),
{
    find_exec(s, p).is_some()
}

pub fn contains_str(s: &Vec<char>, p: &str) -> (r: bool)
    ensures
        r == contains(s@, p@),
{
    let pv = chars_of(p);
    contains_exec(s, &pv)
}

pub fn find_str(s: &Vec<char>, p: &str) -> (r: Option<usize>)
    ensures
        r matches Some(k) ==> find(s@, p@) == Some(k as int),
        r is None ==> find(s@, p@) is None,
{
    let pv = chars_of(p);
    find_exec(s, &pv)
}

pub fn find_char_exec(s: &Vec<char>, c: char) -> (r: Option<usize>)
    ensures
        r matches Some(k) ==> find_char(s@, c) == Some(k as int),
        r is None ==> find_char(s@, c) is None,
{
    let pv = vec![c];
    assert(pv@ == seq![c]);
    find_exec(s, &pv)
}

pub fn starts_with_exec(s: &Vec<char>, p: &Vec<char>) -> (r: bool)
    ensures
        r == starts_with(s@, p@),
{
    let r = matches_at_exec(s, p, 0);
    assert(s@.take(p@.len() as int) == s@.subrange(0, p@.len() as int));
    r
}

pub fn starts_with_str(s: &Vec<char>, p: &str) -> (r: bool)
    ensures
        r == starts_with(s@, p@),
{
    let pv = chars_of(p);
    starts_with_exec(s, &pv)
}

pub fn ends_with_exec(s: &Vec<char>, p: &Vec<char>) -> (r: bool)
    ensures
        r == ends_with(s@, p@),
{
    if p.len() > s.len() {
        return false;
    }
    let r = matches_at_exec(s, p, s.len() - p.len());
    assert(s@.skip(s@.len() - p@.len()) == s@.subrange(s@.len() - p@.len(), s@.len() as int));
    r
}

pub fn str_eq(s: &Vec<char>, p: &str) -> (r: bool)
    ensures
        r == (s@ == p@),
{
    let pv = chars_of(p);
    eq_chars(s, &pv)
}

pub fn join_lines_exec(lines: &Vec<Vec<char>>) -> (r: Vec<char>)
    ensures
        r@ == join_lines(lines_view(lines@)),
{
    let mut out: Vec<char> = Vec::new();
    let mut i: usize = 0;
    while i < lines.len()
        invariant
            0 <= i <= lines.len(),
            out@ == join_lines(lines_view(lines@).take(i as int)),
        decreases lines.len() - i,
    {
        let ghost prev = lines_view(lines@).take(i as int);
        if i > 0 {
            out.push('\n');
        }
        append_chars(&mut out, &lines[i]);
        i += 1;
        assert(lines_view(lines@).take(i as int).drop_last() =~= prev);
        assert(lines_view(lines@).take(i as int).last() == lines@[i - 1]@);
        if i == 1 {
            assert(out@ =~= join_lines(lines_view(lines@).take(i as int)));
        }
    }
    assert(lines_view(lines@).take(lines.len() as int) =~= lines_view(lines@));
    out
}



// ---------------------------------------------------------------------------
// Replacing, splitting, stripping
// ---------------------------------------------------------------------------

/// `str::replace(p, w)` for a non-empty pattern `p`: every occurrence,
/// scanning left to right without overlap, replaced by `w`.
pub open spec fn replace_lit(s: Seq<char>, p: Seq<char>, w: Seq<char>) -> Seq<char>
    decreases s.len(),
{
    if p.len() == 0 {
        s
    } else {
        match find(s, p) {
            Some(k) => if 0 <= k && k + p.len() <= s.len() {
                s.take(k) + w + replace_lit(s.skip(k + p.len()), p, w)
            } else {
                s
            },
            None => s,
        }
    }
}

/// `str::split(c)`: the pieces between the occurrences of `c`.
pub open spec fn split_char(s: Seq<char>, c: char) -> Seq<Seq<char>>
    decreases s.len(),
{
    match find_char(s, c) {
        Some(k) => if 0 <= k < s.len() {
            seq![s.take(k)] + split_char(s.skip(k + 1), c)
        } else {
            seq![s]
        },
        None => seq![s],
    }
}

/// `str::trim_start_matches(c)`.
pub open spec fn strip_leading(s: Seq<char>, c: char) -> Seq<char>
    decreases s.len(),
{
    if s.len() > 0 && s[0] == c {
        strip_leading(s.drop_first(), c)
    } else {
        s
    }
}

/// `str::trim_end_matches(c)`.
pub open spec fn strip_trailing(s: Seq<char>, c: char) -> Seq<char>
    decreases s.len(),
{
    if s.len() > 0 && s.last() == c {
        strip_trailing(s.drop_last(), c)
    } else {
        s
    }
}

/// The end of the run of non-whitespace characters from `k`.
pub open spec fn word_run_end(s: Seq<char>, k: int) -> int
    decreases s.len() - k,
{
    if 0 <= k < s.len() && !char_is_whitespace(s[k]) {
        word_run_end(s, k + 1)
    } else {
        k
    }
}

/// `str::split_whitespace().next()`.
pub open spec fn first_word(s: Seq<char>) -> Option<Seq<char>> {
    let t = trim_start(s);
    if t.len() == 0 {
        None
    } else {
        Some(t.take(word_run_end(t, 0)))
    }
}

pub proof fn lemma_find_bounds(s: Seq<char>, p: Seq<char>)
    ensures
        find(s, p) matches Some(k) ==> 0 <= k && k + p.len() <= s.len() && s.subrange(k, k + p.len()) == p,
{
    lemma_find_from_props(s, p, 0);
}

pub fn replace_exec(s: &Vec<char>, p: &Vec<char>, w: &Vec<char>) -> (r: Vec<char>)
    ensures
        r@ == replace_lit(s@, p@, w@),
{
    if p.len() == 0 {
        return copy_chars(s);
    }
    let mut out: Vec<char> = Vec::new();
    let mut pos: usize = 0;
    assert(s@.skip(0) =~= s@);
    assert(out@ + replace_lit(s@, p@, w@) =~= replace_lit(s@, p@, w@));
    while pos <= s.len()
        invariant
            p.len() > 0,
            0 <= pos <= s.len(),
            out@ + replace_lit(s@.skip(pos as int), p@, w@) == replace_lit(s@, p@, w@),
        decreases s.len() - pos,
    {
        let rest = slice_of(s, pos, s.len());
        assert(rest@ =~= s@.skip(pos as int));
        match find_exec(&rest, p) {
            Some(k) => {
                proof {
                    lemma_find_bounds(rest@, p@);
                }
                let pre = slice_of(&rest, 0, k);
                assert(pre@ =~= rest@.take(k as int));
                let ghost o = out@;
                append_chars(&mut out, &pre);
                append_chars(&mut out, w);
                assert(rest@.skip(k + p.len()) =~= s@.skip(pos + k + p.len()));
                assert(out@ + replace_lit(s@.skip(pos + k + p.len()), p@, w@) =~= o + replace_lit(rest@, p@, w@));
                pos = pos + k + p.len();
            },
            None => {
                let ghost o = out@;
                append_chars(&mut out, &rest);
                assert(out@ =~= o + replace_lit(rest@, p@, w@));
                return out;
            },
        }
    }
    out
}

pub fn replace_str(s: &Vec<char>, p: &str, w: &str) -> (r: Vec<char>)
    ensures
        r@ == replace_lit(s@, p@, w@),
{
    let pv = chars_of(p);
    let wv = chars_of(w);
    replace_exec(s, &pv, &wv)
}

pub fn split_char_exec(s: &Vec<char>, c: char) -> (r: Vec<Vec<char>>)
    ensures
        lines_view(r@) == split_char(s@, c),
{
    let mut out: Vec<Vec<char>> = Vec::new();
    let mut pos: usize = 0;
    assert(s@.skip(0) =~= s@);
    assert(lines_view(out@) + split_char(s@, c) =~= split_char(s@, c));
    loop
        invariant
            0 <= pos <= s.len(),
            lines_view(out@) + split_char(s@.skip(pos as int), c) == split_char(s@, c),
        decreases s.len() - pos,
    {
        let rest = slice_of(s, pos, s.len());
        assert(rest@ =~= s@.skip(pos as int));
        match find_char_exec(&rest, c) {
            Some(k) => {
                proof {
                    lemma_find_bounds(rest@, seq![c]);
                }
                let pre = slice_of(&rest, 0, k);
                assert(pre@ =~= rest@.take(k as int));
                let ghost o = lines_view(out@);
                out.push(pre);
                assert(lines_view(out@) =~= o.push(rest@.take(k as int)));
                assert(rest@.skip(k + 1) =~= s@.skip(pos + k + 1));
                assert(lines_view(out@) + split_char(s@.skip(pos + k + 1), c) =~= o + split_char(rest@, c));
                pos = pos + k + 1;
            },
            None => {
                let ghost o = lines_view(out@);
                out.push(rest);
                assert(lines_view(out@) =~= o + split_char(s@.skip(pos as int), c));
                return out;
            },
        }
    }
}

pub fn strip_leading_exec(s: &Vec<char>, c: char) -> (r: Vec<char>)
    ensures
        r@ == strip_leading(s@, c),
{
    let mut k: usize = 0;
    assert(s@.skip(0) =~= s@);
    while k < s.len() && s[k] == c
        invariant
            0 <= k <= s.len(),
            strip_leading(s@.skip(k as int), c) == strip_leading(s@, c),
        decreases s.len() - k,
    {
        assert(s@.skip(k as int).drop_first() =~= s@.skip(k + 1));
        k += 1;
    }
    let r = slice_of(s, k, s.len());
    assert(r@ =~= s@.skip(k as int));
    r
}

pub fn strip_trailing_exec(s: &Vec<char>, c: char) -> (r: Vec<char>)
    ensures
        r@ == strip_trailing(s@, c),
{
    let mut k: usize = s.len();
    assert(s@.take(s.len() as int) =~= s@);
    while k > 0 && s[k - 1] == c
        invariant
            0 <= k <= s.len(),
            strip_trailing(s@.take(k as int), c) == strip_trailing(s@, c),
        decreases k,
    {
        assert(s@.take(k as int).drop_last() =~= s@.take(k - 1));
        k -= 1;
    }
    assert(s@.take(s.len() as int) =~= s@);
    let r = slice_of(s, 0, k);
    assert(r@ =~= s@.take(k as int));
    r
}

pub fn first_word_exec(s: &Vec<char>) -> (r: Option<Vec<char>>)
    ensures
        match first_word(s@) {
            Some(w) => r matches Some(v) && v@ == w,
            None => r is None,
        },
{
    let b = trim_start_index(s, 0, s.len());
    assert(s@.subrange(0, s.len() as int) =~= s@);
    let t = slice_of(s, b, s.len());
    if t.len() == 0 {
        return None;
    }
    let mut k: usize = 0;
    while k < t.len() && !is_whitespace(t[k])
        invariant
            0 <= k <= t.len(),
            word_run_end(t@, k as int) == word_run_end(t@, 0),
        decreases t.len() - k,
    {
        k += 1;
    }
    let w = slice_of(&t, 0, k);
    assert(w@ =~= t@.take(k as int));
    Some(w)
}

// ---------------------------------------------------------------------------
// Words and joining
// ---------------------------------------------------------------------------

/// The pieces joined with `sep` between each two (`[T]::join`).
pub open spec fn join_with(ls: Seq<Seq<char>>, sep: Seq<char>) -> Seq<char>
    decreases ls.len(),
{
    if ls.len() == 0 {
        seq![]
    } else if ls.len() == 1 {
        ls[0]
    } else {
        join_with(ls.drop_last(), sep) + sep + ls.last()
    }
}

pub fn join_with_exec(ls: &Vec<Vec<char>>, sep: &str) -> (r: Vec<char>)
    ensures
        r@ == join_with(lines_view(ls@), sep@),
{
    let mut out: Vec<char> = Vec::new();
    let mut i: usize = 0;
    while i < ls.len()
        invariant
            0 <= i <= ls.len(),
            out@ == join_with(lines_view(ls@).take(i as int), sep@),
        decreases ls.len() - i,
    {
        let ghost prev = lines_view(ls@).take(i as int);
        if i > 0 {
            append_str(&mut out, sep);
        }
        append_chars(&mut out, &ls[i]);
        i += 1;
        assert(lines_view(ls@).take(i as int).drop_last() =~= prev);
        assert(lines_view(ls@).take(i as int).last() == ls@[i - 1]@);
        if i == 1 {
            assert(out@ =~= join_with(lines_view(ls@).take(i as int), sep@));
        }
    }
    assert(lines_view(ls@).take(ls.len() as int) =~= lines_view(ls@));
    out
}

/// The maximal runs of non-whitespace characters from index `i` on, after
/// the words `acc` and the unfinished word `cur` (`str::split_whitespace`).
pub open spec fn words_from(s: Seq<char>, i: int, acc: Seq<Seq<char>>, cur: Seq<char>) -> Seq<Seq<char>>
    decreases s.len() - i,
{
    if i < 0 || i >= s.len() {
        if cur.len() > 0 {
            acc.push(cur)
        } else {
            acc
        }
    } else if char_is_whitespace(s[i]) {
        words_from(s, i + 1, if cur.len() > 0 { acc.push(cur) } else { acc }, seq![])
    } else {
        words_from(s, i + 1, acc, cur.push(s[i]))
    }
}

pub open spec fn words(s: Seq<char>) -> Seq<Seq<char>> {
    words_from(s, 0, seq![], seq![])
}

pub fn words_exec(s: &Vec<char>) -> (r: Vec<Vec<char>>)
    ensures
        lines_view(r@) == words(s@),
{
    let mut acc: Vec<Vec<char>> = Vec::new();
    let mut cur: Vec<char> = Vec::new();
    let mut i: usize = 0;
    assert(lines_view(acc@) =~= Seq::<Seq<char>>::empty());
    while i < s.len()
        invariant
            0 <= i <= s.len(),
            words_from(s@, i as int, lines_view(acc@), cur@) == words(s@),
        decreases s.len() - i,
    {
        let ghost a0 = lines_view(acc@);
        let ghost c0 = cur@;
        if is_whitespace(s[i]) {
            if cur.len() > 0 {
                acc.push(cur);
                assert(lines_view(acc@) =~= a0.push(c0));
                cur = Vec::new();
            }
            assert(cur@ =~= Seq::<char>::empty());
        } else {
            cur.push(s[i]);
        }
        i += 1;
    }
    if cur.len() > 0 {
        let ghost before = lines_view(acc@);
        let ghost cv = cur@;
        acc.push(cur);
        assert(lines_view(acc@) =~= before.push(cv));
    }
    acc
}

} // verus!
