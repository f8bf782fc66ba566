//! `tnsnames.ora` parsing: connection aliases with their host, port and
//! service name.
use vstd::prelude::*;
use crate::text::{
    chars_of, contains, contains_exec, ends_with, ends_with_exec, find_char, find_char_exec,
    is_whitespace, join_lines, join_lines_exec, lines_exec, lines_of, lines_view,
    parse_unsigned, parse_unsigned_exec, slice_of, starts_with, starts_with_exec, str_upper,
    string_from, trim, trim_range, trim_vec, upper_chars, char_is_whitespace, copy_chars,
    total_len, lemma_total_len_prefix, lemma_lines_from_total, matches_at, trim_end, trim_start,
};

verus! {

/// One alias of `tnsnames.ora`.
pub struct TnsEntry {
    pub alias: String,
    pub host: String,
    pub port: u16,
    pub service_name: String,
    pub raw_block: String,
}

pub struct TnsEntryView {
    pub alias: Seq<char>,
    pub host: Seq<char>,
    pub port: u16,
    pub service_name: Seq<char>,
    pub raw_block: Seq<char>,
}

impl View for TnsEntry {
    type V = TnsEntryView;

    open spec fn view(&self) -> TnsEntryView {
        TnsEntryView {
            alias: self.alias@,
            host: self.host@,
            port: self.port,
            service_name: self.service_name@,
            raw_block: self.raw_block@,
        }
    }
}

impl TnsEntry {
    /// A copy of this entry.
    pub fn copy(&self) -> (r: TnsEntry)
        ensures
            r@ == self@,
    {
        TnsEntry {
            alias: string_from(&chars_of(self.alias.as_str())),
            host: string_from(&chars_of(self.host.as_str())),
            port: self.port,
            service_name: string_from(&chars_of(self.service_name.as_str())),
            raw_block: string_from(&chars_of(self.raw_block.as_str())),
        }
    }
}

pub open spec fn entries_view(v: Seq<TnsEntry>) -> Seq<TnsEntryView> {
    v.map_values(|e: TnsEntry| e@)
}

// ---------------------------------------------------------------------------
// Specification
// ---------------------------------------------------------------------------

/// Opening minus closing parentheses in `s`.
pub open spec fn paren_balance(s: Seq<char>) -> int
    decreases s.len(),
{
    if s.len() == 0 {
        0
    } else {
        paren_balance(s.drop_last()) + (if s.last() == '(' {
            1int
        } else if s.last() == ')' {
            -1int
        } else {
            0int
        })
    }
}

/// The value after the first `=` of `sub`: leading whitespace skipped, up
/// to the next whitespace or parenthesis.
pub open spec fn value_token(after: Seq<char>, k: int) -> int
    decreases after.len() - k,
{
    if 0 <= k < after.len() && !char_is_whitespace(after[k]) && after[k] != '(' && after[k] != ')' {
        value_token(after, k + 1)
    } else {
        k
    }
}

pub open spec fn extract_value(sub: Seq<char>) -> Seq<char> {
    match find_char(sub, '=') {
        Some(eq) => {
            let after = trim_start_of(sub.skip(eq + 1));
            after.take(value_token(after, 0))
        },
        None => seq![],
    }
}

pub open spec fn trim_start_of(s: Seq<char>) -> Seq<char> {
    crate::text::trim_start(s)
}

/// Whether `key` stands at `k` of `u` as a parameter name: the last visible
/// character before it is `(` and the first visible one after it is `=`
/// (so a key inside an alias or a value is not taken).
pub open spec fn param_at(u: Seq<char>, key: Seq<char>, k: int) -> bool {
    &&& matches_at(u, key, k)
    &&& trim_end(u.take(k)).len() > 0
    &&& trim_end(u.take(k)).last() == '('
    &&& trim_start(u.skip(k + key.len())).len() > 0
    &&& trim_start(u.skip(k + key.len()))[0] == '='
}

/// The first index `>= i` at which `key` stands as a parameter name.
pub open spec fn find_param(u: Seq<char>, key: Seq<char>, i: int) -> Option<int>
    decreases u.len() + 1 - i,
{
    if i < 0 || i > u.len() {
        None
    } else if param_at(u, key, i) {
        Some(i)
    } else {
        find_param(u, key, i + 1)
    }
}

/// The value of the first parameter named `key` (matched case-insensitively
/// in `str_upper(block)`), or `default` when there is none.
pub open spec fn param_value(block: Seq<char>, key: Seq<char>, default: Seq<char>) -> Seq<char> {
    match find_param(str_upper(block), key, 0) {
        Some(idx) => if idx <= block.len() {
            extract_value(block.skip(idx))
        } else {
            seq![]
        },
        None => default,
    }
}

pub open spec fn default_host() -> Seq<char> {
    seq!['1', '2', '7', '.', '0', '.', '0', '.', '1']
}

pub open spec fn default_port_text() -> Seq<char> {
    seq!['1', '5', '2', '1']
}

pub open spec fn key_host() -> Seq<char> {
    seq!['H', 'O', 'S', 'T']
}

pub open spec fn key_port() -> Seq<char> {
    seq!['P', 'O', 'R', 'T']
}

pub open spec fn key_service_name() -> Seq<char> {
    seq!['S', 'E', 'R', 'V', 'I', 'C', 'E', '_', 'N', 'A', 'M', 'E']
}

pub open spec fn key_sid() -> Seq<char> {
    seq!['S', 'I', 'D']
}

/// Host, port and service name of an alias block.
pub open spec fn extract_params(block: Seq<char>, default_svc: Seq<char>) -> (Seq<char>, u16, Seq<char>) {
    let host = param_value(block, key_host(), default_host());
    let port_text = param_value(block, key_port(), default_port_text());
    let port: u16 = match parse_unsigned(port_text, 65535) {
        Some(p) => p as u16,
        None => 1521,
    };
    let svc = if find_param(str_upper(block), key_service_name(), 0) is Some {
        param_value(block, key_service_name(), default_svc)
    } else {
        param_value(block, key_sid(), default_svc)
    };
    (host, port, svc)
}

/// The lines of an alias block from line `i` on: `(index after the block,
/// the block's lines)`.
pub open spec fn block_scan(lines: Seq<Seq<char>>, i: int, depth: int, acc: Seq<Seq<char>>) -> (
    int,
    Seq<Seq<char>>,
)
    decreases lines.len() - i,
{
    if i < 0 || i >= lines.len() {
        (i, acc)
    } else {
        let nl = lines[i];
        let nt = trim(nl);
        if nt.len() == 0 || starts_with(nt, seq!['#']) {
            block_scan(lines, i + 1, depth, acc.push(nl))
        } else if !starts_with(nl, seq![' ']) && !starts_with(nl, seq!['\t']) && contains(
            nt,
            seq!['='],
        ) && depth <= 0 {
            (i, acc)
        } else {
            let d2 = depth + paren_balance(nt);
            if d2 == 0 && ends_with(nt, seq![')']) {
                (i + 1, acc.push(nl))
            } else {
                block_scan(lines, i + 1, d2, acc.push(nl))
            }
        }
    }
}

pub proof fn lemma_block_scan(lines: Seq<Seq<char>>, i: int, depth: int, acc: Seq<Seq<char>>)
    requires
        0 <= i <= lines.len(),
    ensures
        i <= block_scan(lines, i, depth, acc).0 <= lines.len(),
    decreases lines.len() - i,
{
    if i < lines.len() {
        let nl = lines[i];
        let nt = trim(nl);
        if nt.len() == 0 || starts_with(nt, seq!['#']) {
            lemma_block_scan(lines, i + 1, depth, acc.push(nl));
        } else if !starts_with(nl, seq![' ']) && !starts_with(nl, seq!['\t']) && contains(
            nt,
            seq!['='],
        ) && depth <= 0 {
        } else {
            let d2 = depth + paren_balance(nt);
            if !(d2 == 0 && ends_with(nt, seq![')'])) {
                lemma_block_scan(lines, i + 1, d2, acc.push(nl));
            }
        }
    }
}

/// The alias named on a header line: the text before its first `=`, trimmed.
pub open spec fn alias_of(line: Seq<char>) -> Seq<char> {
    match find_char(line, '=') {
        Some(eq) => trim(line.take(eq)),
        None => seq![],
    }
}

pub open spec fn is_header(line: Seq<char>) -> bool {
    contains(line, seq!['=']) && !starts_with(line, seq!['(']) && alias_of(line).len() > 0
        && !starts_with(alias_of(line), seq!['('])
}

/// The entries declared from line `i` on.
pub open spec fn tns_from(lines: Seq<Seq<char>>, i: int) -> Seq<TnsEntryView>
    decreases lines.len() - i,
{
    if i < 0 || i >= lines.len() {
        seq![]
    } else {
        let line = trim(lines[i]);
        if starts_with(line, seq!['#']) || line.len() == 0 {
            tns_from(lines, i + 1)
        } else if is_header(line) {
            let alias = alias_of(line);
            let (j, blk) = block_scan(lines, i + 1, paren_balance(line), seq![lines[i]]);
            proof {
                lemma_block_scan(lines, i + 1, paren_balance(line), seq![lines[i]]);
            }
            let raw = join_lines(blk);
            let (h, p, sv) = extract_params(raw, alias);
            seq![TnsEntryView { alias: alias, host: h, port: p, service_name: sv, raw_block: raw }]
                + tns_from(lines, j)
        } else {
            tns_from(lines, i + 1)
        }
    }
}

/// What `TnsManager::parse_tns` returns for the text `text`.
pub open spec fn parse_tns_spec(text: Seq<char>) -> Seq<TnsEntryView> {
    tns_from(lines_of(text), 0)
}

/// Opening minus closing parentheses on lines `0..=m` (each trimmed): the
/// depth of nesting after line `m` of an entry whose header is line 0.
pub open spec fn depth_through(lines: Seq<Seq<char>>, m: int) -> int
    decreases m,
{
    if m <= 0 {
        paren_balance(trim(lines[0]))
    } else {
        depth_through(lines, m - 1) + paren_balance(trim(lines[m]))
    }
}

/// A line that belongs to the block above it: blank, or indented and not a comment.
pub open spec fn indented_body_line(l: Seq<char>) -> bool {
    trim(l).len() == 0 || ((starts_with(l, seq![' ']) || starts_with(l, seq!['\t'])) && !starts_with(
        trim(l),
        seq!['#'],
    ))
}

proof fn lemma_block_runs_on(lines: Seq<Seq<char>>, i: int, acc: Seq<Seq<char>>)
    requires
        1 <= i <= lines.len(),
        forall|m: int| 1 <= m < lines.len() ==> indented_body_line(#[trigger] lines[m]),
        forall|m: int|
            1 <= m < lines.len() - 1 ==> !(#[trigger] depth_through(lines, m) == 0 && ends_with(
                trim(lines[m]),
                seq![')'],
            )),
    ensures
        block_scan(lines, i, depth_through(lines, i - 1), acc) == (lines.len() as int, acc + lines.subrange(i, lines.len() as int)),
    decreases lines.len() - i,
{
    if i == lines.len() {
        assert(acc + lines.subrange(i, lines.len() as int) =~= acc);
    } else {
        let nl = lines[i];
        let nt = trim(nl);
        assert(indented_body_line(lines[i]));
        assert(acc.push(nl) + lines.subrange(i + 1, lines.len() as int) =~= acc + lines.subrange(i, lines.len() as int));
        assert(depth_through(lines, i) == depth_through(lines, i - 1) + paren_balance(nt));
        if nt.len() == 0 {
            assert(paren_balance(nt) == 0);
            lemma_block_runs_on(lines, i + 1, acc.push(nl));
        } else if depth_through(lines, i) == 0 && ends_with(nt, seq![')']) {
            assert(i == lines.len() - 1);
            assert(lines.subrange(i + 1, lines.len() as int) =~= Seq::<Seq<char>>::empty());
        } else {
            lemma_block_runs_on(lines, i + 1, acc.push(nl));
        }
    }
}

/// An entry's block runs on until the parentheses opened since its header
/// line, the header's own included, are all closed on a line that ends in
/// `)`. So text that is one header line and indented lines, whose
/// parentheses balance only on the last of them, is read as one entry
/// whose block is the whole text, and its host, port and service name are
/// those that the whole block gives, wherever in it they stand.
pub proof fn law_tns_block(text: Seq<char>)
    requires
        lines_of(text).len() >= 1,
        is_header(trim(lines_of(text)[0])),
        !starts_with(trim(lines_of(text)[0]), seq!['#']),
        forall|m: int| 1 <= m < lines_of(text).len() ==> indented_body_line(#[trigger] lines_of(text)[m]),
        forall|m: int|
            1 <= m < lines_of(text).len() - 1 ==> !(#[trigger] depth_through(lines_of(text), m) == 0
                && ends_with(trim(lines_of(text)[m]), seq![')'])),
    ensures
        ({
            let ls = lines_of(text);
            let alias = alias_of(trim(ls[0]));
            let raw = join_lines(ls);
            let (h, p, sv) = extract_params(raw, alias);
            parse_tns_spec(text) == seq![TnsEntryView { alias: alias, host: h, port: p, service_name: sv, raw_block: raw }]
        }),
{
    let ls = lines_of(text);
    let line = trim(ls[0]);
    assert(depth_through(ls, 0) == paren_balance(line));
    lemma_block_runs_on(ls, 1, seq![ls[0]]);
    assert(seq![ls[0]] + ls.subrange(1, ls.len() as int) =~= ls);
    assert(line.len() > 0);
    let alias = alias_of(line);
    let raw = join_lines(ls);
    let (h, p, sv) = extract_params(raw, alias);
    assert(tns_from(ls, ls.len() as int) == Seq::<TnsEntryView>::empty());
    assert(tns_from(ls, 0) == seq![TnsEntryView { alias: alias, host: h, port: p, service_name: sv, raw_block: raw }]
        + tns_from(ls, ls.len() as int));
    assert(parse_tns_spec(text) =~= seq![TnsEntryView { alias: alias, host: h, port: p, service_name: sv, raw_block: raw }]);
}

// ---------------------------------------------------------------------------
// Implementation
// ---------------------------------------------------------------------------

fn paren_balance_exec(s: &Vec<char>) -> (r: i128)
    ensures
        r as int == paren_balance(s@),
        -(s.len() as int) <= r <= s.len(),
{
    let mut d: i128 = 0;
    let mut i: usize = 0;
    while i < s.len()
        invariant
            0 <= i <= s.len(),
            d as int == paren_balance(s@.take(i as int)),
            -(i as int) <= d <= i,
        decreases s.len() - i,
    {
        assert(s@.take(i + 1).drop_last() =~= s@.take(i as int));
        if s[i] == '(' {
            d += 1;
        } else if s[i] == ')' {
            d -= 1;
        }
        i += 1;
    }
    assert(s@.take(s.len() as int) =~= s@);
    d
}

fn value_token_exec(after: &Vec<char>) -> (r: usize)
    ensures
        r as int == value_token(after@, 0),
        r <= after.len(),
{
    let mut k: usize = 0;
    while k < after.len() && !is_whitespace(after[k]) && after[k] != '(' && after[k] != ')'
        invariant
            0 <= k <= after.len(),
            value_token(after@, k as int) == value_token(after@, 0),
        decreases after.len() - k,
    {
        k += 1;
    }
    k
}

fn extract_value_exec(sub: &Vec<char>) -> (r: Vec<char>)
    ensures
        r@ == extract_value(sub@),
{
    match find_char_exec(sub, '=') {
        Some(eq) => {
            proof {
                crate::text::lemma_find_from_props(sub@, seq!['='], 0);
                assert(crate::text::matches_at(sub@, seq!['='], eq as int));
                assert(eq < sub.len());
            }
            let rest = slice_of(sub, eq + 1, sub.len());
            assert(rest@ =~= sub@.skip(eq + 1));
            let s2 = crate::text::trim_start_index(&rest, 0, rest.len());
            let after = slice_of(&rest, s2, rest.len());
            assert(rest@.subrange(0, rest.len() as int) =~= rest@);
            let k = value_token_exec(&after);
            let r = slice_of(&after, 0, k);
            assert(r@ =~= after@.take(k as int));
            r
        },
        None => Vec::new(),
    }
}

fn param_at_exec(u: &Vec<char>, key: &Vec<char>, k: usize) -> (r: bool)
    ensures
        r == param_at(u@, key@, k as int),
{
    if !crate::text::matches_at_exec(u, key, k) {
        return false;
    }
    let e = crate::text::trim_end_index(u, 0, k);
    assert(u@.subrange(0, k as int) =~= u@.take(k as int));
    assert(u@.subrange(0, e as int) =~= trim_end(u@.take(k as int)));
    if e == 0 || u[e - 1] != '(' {
        return false;
    }
    let j = k + key.len();
    let t = crate::text::trim_start_index(u, j, u.len());
    assert(u@.subrange(j as int, u.len() as int) =~= u@.skip(j as int));
    assert(u@.subrange(t as int, u.len() as int) =~= trim_start(u@.skip(j as int)));
    t < u.len() && u[t] == '='
}

fn find_param_exec(u: &Vec<char>, key: &Vec<char>) -> (r: Option<usize>)
    ensures
        r matches Some(x) ==> find_param(u@, key@, 0) == Some(x as int),
        r is None ==> find_param(u@, key@, 0) is None,
{
    let mut k: usize = 0;
    while k < u.len()
        invariant
            0 <= k <= u.len(),
            find_param(u@, key@, k as int) == find_param(u@, key@, 0),
        decreases u.len() - k,
    {
        if param_at_exec(u, key, k) {
            return Some(k);
        }
        k += 1;
    }
    if param_at_exec(u, key, k) {
        return Some(k);
    }
    assert(find_param(u@, key@, k + 1) is None);
    None
}

fn param_value_exec(block: &Vec<char>, upper: &Vec<char>, key: &str, default: &Vec<char>) -> (r: Vec<char>)
    requires
        upper@ == str_upper(block@),
    ensures
        r@ == param_value(block@, key@, default@),
{
    let kv = chars_of(key);
    match find_param_exec(upper, &kv) {
        Some(idx) => {
            if idx <= block.len() {
                let sub = slice_of(block, idx, block.len());
                assert(sub@ =~= block@.skip(idx as int));
                extract_value_exec(&sub)
            } else {
                Vec::new()
            }
        },
        None => copy_chars(default),
    }
}

fn extract_params_exec(block: &Vec<char>, default_svc: &Vec<char>) -> (r: (Vec<char>, u16, Vec<char>))
    ensures
        (r.0@, r.1, r.2@) == extract_params(block@, default_svc@),
{
    let upper = upper_chars(block);
    proof {
        reveal_strlit("HOST");
        reveal_strlit("PORT");
        reveal_strlit("SERVICE_NAME");
        reveal_strlit("SID");
        reveal_strlit("127.0.0.1");
        reveal_strlit("1521");
        assert("HOST"@ =~= key_host());
        assert("PORT"@ =~= key_port());
        assert("SERVICE_NAME"@ =~= key_service_name());
        assert("SID"@ =~= key_sid());
        assert("127.0.0.1"@ =~= default_host());
        assert("1521"@ =~= default_port_text());
    }
    let dh = chars_of("127.0.0.1");
    let host = param_value_exec(block, &upper, "HOST", &dh);
    let dp = chars_of("1521");
    let port_text = param_value_exec(block, &upper, "PORT", &dp);
    let port: u16 = match parse_unsigned_exec(&port_text, 65535) {
        Some(p) => p as u16,
        None => 1521,
    };
    let sn = chars_of("SERVICE_NAME");
    let svc = match find_param_exec(&upper, &sn) {
        Some(_) => param_value_exec(block, &upper, "SERVICE_NAME", default_svc),
        None => param_value_exec(block, &upper, "SID", default_svc),
    };
    (host, port, svc)
}

fn alias_of_exec(line: &Vec<char>) -> (r: Vec<char>)
    ensures
        r@ == alias_of(line@),
{
    match find_char_exec(line, '=') {
        Some(eq) => {
            proof {
                crate::text::lemma_find_from_props(line@, seq!['='], 0);
            }
            let r = trim_range(line, 0, eq);
            assert(line@.subrange(0, eq as int) =~= line@.take(eq as int));
            r
        },
        None => Vec::new(),
    }
}

fn one_char(c: char) -> (r: Vec<char>)
    ensures
        r@ == seq![c],
{
    let v = vec![c];
    assert(v@ =~= seq![c]);
    v
}

/// Collects the lines of the block that starts after line `i`.
fn block_scan_exec(lines: &Vec<Vec<char>>, i0: usize, depth0: i128, acc0: Vec<Vec<char>>) -> (r: (
    usize,
    Vec<Vec<char>>,
))
    requires
        i0 <= lines.len(),
        total_len(lines_view(lines@)) <= usize::MAX,
        -total_len(lines_view(lines@).take(i0 as int)) <= depth0 <= total_len(lines_view(lines@).take(i0 as int)),
    ensures
        r.0 as int == block_scan(lines_view(lines@), i0 as int, depth0 as int, lines_view(acc0@)).0,
        lines_view(r.1@) == block_scan(lines_view(lines@), i0 as int, depth0 as int, lines_view(acc0@)).1,
{
    let ghost lv = lines_view(lines@);
    let ghost target = block_scan(lines_view(lines@), i0 as int, depth0 as int, lines_view(acc0@));
    let mut i = i0;
    let mut depth = depth0;
    let mut acc = acc0;
    let hash = one_char('#');
    let space = one_char(' ');
    let tab = one_char('\t');
    let eqc = one_char('=');
    let close = one_char(')');
    while i < lines.len()
        invariant
            lv == lines_view(lines@),
            0 <= i <= lines.len(),
            total_len(lv) <= usize::MAX,
            -total_len(lv.take(i as int)) <= depth <= total_len(lv.take(i as int)),
            hash@ == seq!['#'],
            space@ == seq![' '],
            tab@ == seq!['\t'],
            eqc@ == seq!['='],
            close@ == seq![')'],
            block_scan(lv, i as int, depth as int, lines_view(acc@)) == target,
            target == block_scan(lines_view(lines@), i0 as int, depth0 as int, lines_view(acc0@)),
        decreases lines.len() - i,
    {
        let nl = &lines[i];
        assert(lv[i as int] == nl@);
        proof {
            lemma_total_len_prefix(lv, i as int);
            lemma_total_len_prefix(lv, i as int + 1);
        }
        let nt = trim_vec(nl);
        let ghost before = lines_view(acc@);
        if nt.len() == 0 || starts_with_exec(&nt, &hash) {
            acc.push(copy_chars(nl));
            assert(lines_view(acc@) =~= before.push(nl@));
            i += 1;
        } else if !starts_with_exec(nl, &space) && !starts_with_exec(nl, &tab) && contains_exec(&nt, &eqc)
            && depth <= 0 {
            assert(block_scan(lv, i as int, depth as int, lines_view(acc@)) == (i as int, lines_view(acc@)));
            assert(target == (i as int, lines_view(acc@)));
            return (i, acc);
        } else {
            proof {
                crate::text::lemma_trim_end_prefix(nl@);
                crate::text::lemma_trim_start_suffix(crate::text::trim_end(nl@));
            }
            let b = paren_balance_exec(&nt);
            let d2 = depth + b;
            acc.push(copy_chars(nl));
            assert(lines_view(acc@) =~= before.push(nl@));
            if d2 == 0 && ends_with_exec(&nt, &close) {
                assert(block_scan(lv, i as int, depth as int, before) == (i + 1, lines_view(acc@)));
                return (i + 1, acc);
            }
            depth = d2;
            i += 1;
        }
    }
    (i, acc)
}

/// The entries declared in the text `text`.
fn parse_tns_chars(text: &Vec<char>) -> (r: Vec<TnsEntry>)
    ensures
        entries_view(r@) == parse_tns_spec(text@),
{
    let lines = lines_exec(text);
    let ghost lv = lines_view(lines@);
    proof {
        lemma_lines_from_total(text@, 0);
        assert(total_len(lv) <= text.len());
    }
    let mut entries: Vec<TnsEntry> = Vec::new();
    let mut i: usize = 0;
    let hash = one_char('#');
    let open = one_char('(');
    let eqc = one_char('=');
    while i < lines.len()
        invariant
            lv == lines_view(lines@),
            lv == lines_of(text@),
            0 <= i <= lines.len(),
            total_len(lv) <= usize::MAX,
            hash@ == seq!['#'],
            open@ == seq!['('],
            eqc@ == seq!['='],
            entries_view(entries@) + tns_from(lv, i as int) == parse_tns_spec(text@),
        decreases lines.len() - i,
    {
        assert(lv[i as int] == lines@[i as int]@);
        let line = trim_vec(&lines[i]);
        if starts_with_exec(&line, &hash) || line.len() == 0 {
            i += 1;
        } else {
            let alias = alias_of_exec(&line);
            if contains_exec(&line, &eqc) && !starts_with_exec(&line, &open) && alias.len() > 0
                && !starts_with_exec(&alias, &open) {
                proof {
                    crate::text::lemma_trim_end_prefix(lines@[i as int]@);
                    crate::text::lemma_trim_start_suffix(crate::text::trim_end(lines@[i as int]@));
                }
                let depth = paren_balance_exec(&line);
                proof {
                    lemma_total_len_prefix(lv, i as int);
                    lemma_total_len_prefix(lv, i as int + 1);
                }
                let mut first: Vec<Vec<char>> = Vec::new();
                first.push(copy_chars(&lines[i]));
                assert(lines_view(first@) =~= seq![lv[i as int]]);
                let (j, blk) = block_scan_exec(&lines, i + 1, depth, first);
                proof {
                    lemma_block_scan(lv, i + 1, depth as int, seq![lv[i as int]]);
                }
                let raw = join_lines_exec(&blk);
                let (h, p, sv) = extract_params_exec(&raw, &alias);
                let ghost before = entries_view(entries@);
                let e = TnsEntry {
                    alias: string_from(&alias),
                    host: string_from(&h),
                    port: p,
                    service_name: string_from(&sv),
                    raw_block: string_from(&raw),
                };
                entries.push(e);
                assert(entries_view(entries@) =~= before.push(e@));
                i = j;
            } else {
                i += 1;
            }
        }
    }
    entries
}

/// The tnsnames.ora file that the server list reads.
pub struct TnsManager {
    pub file_path: String,
    pub entries: Vec<TnsEntry>,
    pub raw_content: String,
}

/// Where the server list looks for `tnsnames.ora`.
pub fn default_tns_path() -> (r: String)
    ensures
        r@ == "C:\\project\\flipsy\\tnsnames.ora"@,
{
    String::from_str("C:\\project\\flipsy\\tnsnames.ora")
}

/// The text a file read gave, or nothing when the read failed.
pub open spec fn loaded_text(loaded: Option<String>) -> Seq<char> {
    match loaded {
        Some(c) => c@,
        None => seq![],
    }
}

/// The message `save` gives when writing the file failed with `e`.
pub open spec fn save_error_message(e: Seq<char>) -> Seq<char> {
    "tnsnames.ora 저장 실패: "@ + e
}

impl TnsManager {
    /// A manager for the default path, holding what reading the file gave
    /// (`loaded`): its text and its entries, or nothing when it could not be
    /// read.
    pub fn new(loaded: Option<String>) -> (r: Self)
        ensures
            r.file_path@ == "C:\\project\\flipsy\\tnsnames.ora"@,
            r.raw_content@ == loaded_text(loaded),
            entries_view(r.entries@) == parse_tns_spec(loaded_text(loaded)),
    {
        let mut m = TnsManager {
            file_path: default_tns_path(),
            entries: Vec::new(),
            raw_content: String::new(),
        };
        m.reload(loaded);
        m
    }

    /// Takes in what reading the file again gave: its text and entries, or
    /// nothing when the read failed.
    pub fn reload(&mut self, loaded: Option<String>)
        ensures
            final(self).file_path@ == old(self).file_path@,
            final(self).raw_content@ == loaded_text(loaded),
            entries_view(final(self).entries@) == parse_tns_spec(loaded_text(loaded)),
    {
        match loaded {
            Some(content) => {
                let entries = Self::parse_tns(content.as_str());
                self.raw_content = content;
                self.entries = entries;
            },
            None => {
                self.raw_content = String::new();
                self.entries = Vec::new();
                proof {
                    reveal_with_fuel(tns_from, 1);
                    assert(lines_of(Seq::<char>::empty()) =~= Seq::<Seq<char>>::empty());
                    assert(entries_view(self.entries@) =~= Seq::<TnsEntryView>::empty());
                }
            },
        }
    }

    /// Takes in the outcome of writing `new_content` to the file: on success
    /// the manager holds the new text and its entries; on failure it is
    /// unchanged and the error names the cause.
    pub fn save(&mut self, new_content: &str, written: Result<(), String>) -> (r: Result<(), String>)
        ensures
            final(self).file_path@ == old(self).file_path@,
            match written {
                Ok(()) => {
                    &&& r is Ok
                    &&& final(self).raw_content@ == new_content@
                    &&& entries_view(final(self).entries@) == parse_tns_spec(new_content@)
                },
                Err(e) => {
                    &&& r matches Err(m) && m@ == save_error_message(e@)
                    &&& final(self).raw_content@ == old(self).raw_content@
                    &&& entries_view(final(self).entries@) == entries_view(old(self).entries@)
                },
            },
    {
        match written {
            Ok(()) => {
                self.raw_content = String::from_str(new_content);
                self.entries = Self::parse_tns(new_content);
                Ok(())
            },
            Err(e) => {
                let mut m = chars_of("tnsnames.ora 저장 실패: ");
                let ev = chars_of(e.as_str());
                crate::text::append_chars(&mut m, &ev);
                Err(string_from(&m))
            },
        }
    }

    /// The entries declared in `tnsnames.ora` text, in order of appearance.
    ///
    /// A header line `ALIAS = ...` (not a comment, not starting with `(`)
    /// opens an entry; the entry's block runs over the following indented or
    /// comment lines until its parentheses balance on a line ending in `)`,
    /// or until the next unindented header. Host, port and service name come
    /// from the block's `HOST`, `PORT` and `SERVICE_NAME` (or `SID`)
    /// parameters, defaulting to `127.0.0.1`, `1521` and the alias.
    pub fn parse_tns(text: &str) -> (r: Vec<TnsEntry>)
        ensures
            entries_view(r@) == parse_tns_spec(text@),
    {
        let t = chars_of(text);
        parse_tns_chars(&t)
    }
}

} // verus!
