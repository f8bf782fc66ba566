//! Decimal text of counts, sizes and durations.
use vstd::prelude::*;

verus! {

pub open spec fn digit_char(d: int) -> char {
    if d == 0 {
        '0'
    } else if d == 1 {
        '1'
    } else if d == 2 {
        '2'
    } else if d == 3 {
        '3'
    } else if d == 4 {
        '4'
    } else if d == 5 {
        '5'
    } else if d == 6 {
        '6'
    } else if d == 7 {
        '7'
    } else if d == 8 {
        '8'
    } else {
        '9'
    }
}

/// The decimal digits of `n`, without leading zeros (`"0"` for zero).
pub open spec fn dec_text(n: nat) -> Seq<char>
    decreases n,
{
    if n < 10 {
        seq![digit_char(n as int)]
    } else {
        dec_text(n / 10) + seq![digit_char((n % 10) as int)]
    }
}

/// `n` with a comma between each group of three digits, counted from the
/// right (`1,234,567`).
pub open spec fn grouped_text(n: nat) -> Seq<char>
    decreases n,
{
    if n < 1000 {
        dec_text(n)
    } else {
        grouped_text(n / 1000) + seq![
            ',',
            digit_char(((n % 1000) / 100) as int),
            digit_char(((n % 100) / 10) as int),
            digit_char((n % 10) as int),
        ]
    }
}

/// `n / d` rounded to the nearest integer, a tie going to the even one.
pub open spec fn div_round_even(n: nat, d: nat) -> nat
    recommends
        d > 0,
{
    let q = n / d;
    let r = n % d;
    if 2 * r > d || (2 * r == d && q % 2 == 1) {
        q + 1
    } else {
        q
    }
}

/// `n` hundredths written with two decimals (`12.05`).
pub open spec fn hundredths_text(n: nat) -> Seq<char> {
    dec_text(n / 100) + seq!['.', digit_char(((n % 100) / 10) as int), digit_char((n % 10) as int)]
}

/// `n` tenths written with one decimal (`3.5`).
pub open spec fn tenths_text(n: nat) -> Seq<char> {
    dec_text(n / 10) + seq!['.', digit_char((n % 10) as int)]
}

/// A duration given in microseconds, in milliseconds with two decimals.
pub open spec fn millis_text(us: nat) -> Seq<char> {
    hundredths_text(div_round_even(us, 10))
}

/// A byte count in megabytes with two decimals from one megabyte on, in
/// kilobytes with one decimal below.
pub open spec fn size_text(bytes: nat) -> Seq<char> {
    if bytes >= 1_048_576 {
        hundredths_text(div_round_even(bytes * 100, 1_048_576)) + " MB"@
    } else {
        tenths_text(div_round_even(bytes * 10, 1024)) + " KB"@
    }
}

fn digit(d: u128) -> (c: char)
    requires
        d < 10,
    ensures
        c == digit_char(d as int),
{
    if d == 0 {
        '0'
    } else if d == 1 {
        '1'
    } else if d == 2 {
        '2'
    } else if d == 3 {
        '3'
    } else if d == 4 {
        '4'
    } else if d == 5 {
        '5'
    } else if d == 6 {
        '6'
    } else if d == 7 {
        '7'
    } else if d == 8 {
        '8'
    } else {
        '9'
    }
}

pub fn dec_chars(n: u128) -> (r: Vec<char>)
    ensures
        r@ == dec_text(n as nat),
    decreases n,
{
    if n < 10 {
        let mut r: Vec<char> = Vec::new();
        r.push(digit(n));
        r
    } else {
        let mut r = dec_chars(n / 10);
        r.push(digit(n % 10));
        r
    }
}

fn grouped_chars(n: u128) -> (r: Vec<char>)
    ensures
        r@ == grouped_text(n as nat),
    decreases n,
{
    if n < 1000 {
        dec_chars(n)
    } else {
        let mut r = grouped_chars(n / 1000);
        r.push(',');
        r.push(digit((n % 1000) / 100));
        r.push(digit((n % 100) / 10));
        r.push(digit(n % 10));
        r
    }
}

fn round_even(n: u128, d: u128) -> (q: u128)
    requires
        d > 0,
        n <= u64::MAX * 128,
        d <= 1_048_576,
    ensures
        q == div_round_even(n as nat, d as nat),
{
    let q = n / d;
    let r = n % d;
    assert(q * d <= n) by (nonlinear_arith)
        requires
            q == n / d,
            d > 0,
            n >= 0,
    ;
    if 2 * r > d || (2 * r == d && q % 2 == 1) {
        assert(q < n + 1) by (nonlinear_arith)
            requires
                q * d <= n,
                d > 0,
                q >= 0,
        ;
        q + 1
    } else {
        q
    }
}

fn hundredths_chars(n: u128) -> (r: Vec<char>)
    ensures
        r@ == hundredths_text(n as nat),
{
    let mut r = dec_chars(n / 100);
    r.push('.');
    r.push(digit((n % 100) / 10));
    r.push(digit(n % 10));
    r
}

fn tenths_chars(n: u128) -> (r: Vec<char>)
    ensures
        r@ == tenths_text(n as nat),
{
    let mut r = dec_chars(n / 10);
    r.push('.');
    r.push(digit(n % 10));
    r
}

/// The number with thousands separators (`15,000,000`).
pub fn format_num(n: u64) -> (r: Vec<char>)
    ensures
        r@ == grouped_text(n as nat),
{
    grouped_chars(n as u128)
}

/// The decimal digits of `n`.
pub fn u64_text(n: u64) -> (r: Vec<char>)
    ensures
        r@ == dec_text(n as nat),
{
    dec_chars(n as u128)
}

/// A duration in microseconds as milliseconds with two decimals.
pub fn millis_chars(us: u64) -> (r: Vec<char>)
    ensures
        r@ == millis_text(us as nat),
{
    let h = round_even(us as u128, 10);
    hundredths_chars(h)
}

/// A byte count as megabytes or kilobytes; see `size_text`.
pub fn size_chars(bytes: u64) -> (r: Vec<char>)
    ensures
        r@ == size_text(bytes as nat),
{
    let b = bytes as u128;
    if bytes >= 1_048_576 {
        let h = round_even(b * 100, 1_048_576);
        let mut r = hundredths_chars(h);
        r.push(' ');
        r.push('M');
        r.push('B');
        proof {
            reveal_strlit(" MB");
        }
        assert(r@ =~= hundredths_text(div_round_even(bytes as nat * 100, 1_048_576)) + " MB"@);
        r
    } else {
        let t = round_even(b * 10, 1024);
        let mut r = tenths_chars(t);
        r.push(' ');
        r.push('K');
        r.push('B');
        proof {
            reveal_strlit(" KB");
        }
        assert(r@ =~= tenths_text(div_round_even(bytes as nat * 10, 1024)) + " KB"@);
        r
    }
}


/// A value given in hundredths, rounded to a whole number.
pub fn whole_of_hundredths(x100: u64) -> (r: Vec<char>)
    ensures
        r@ == dec_text(div_round_even(x100 as nat, 100)),
{
    dec_chars(round_even(x100 as u128, 100))
}

/// A value given in hundredths, with one decimal.
pub fn tenths_of_hundredths(x100: u64) -> (r: Vec<char>)
    ensures
        r@ == tenths_text(div_round_even(x100 as nat, 10)),
{
    tenths_chars(round_even(x100 as u128, 10))
}


/// The text without its commas.
pub open spec fn without_commas(s: Seq<char>) -> Seq<char>
    decreases s.len(),
{
    if s.len() == 0 {
        seq![]
    } else {
        without_commas(s.drop_last()) + if s.last() == ',' {
            seq![]
        } else {
            seq![s.last()]
        }
    }
}

/// Digits in groups of three from the right, split by commas: a first
/// group of one to three digits, then `,ddd` groups.
pub open spec fn well_grouped(s: Seq<char>) -> bool
    decreases s.len(),
{
    if 1 <= s.len() <= 3 {
        forall|k: int| 0 <= k < s.len() ==> #[trigger] s[k] != ','
    } else if s.len() >= 5 {
        &&& s[s.len() - 4] == ','
        &&& s[s.len() - 3] != ','
        &&& s[s.len() - 2] != ','
        &&& s[s.len() - 1] != ','
        &&& well_grouped(s.take(s.len() - 4))
    } else {
        false
    }
}

proof fn lemma_without_commas_concat(a: Seq<char>, b: Seq<char>)
    ensures
        without_commas(a + b) == without_commas(a) + without_commas(b),
    decreases b.len(),
{
    if b.len() > 0 {
        assert((a + b).drop_last() =~= a + b.drop_last());
        lemma_without_commas_concat(a, b.drop_last());
        assert(without_commas(a) + without_commas(b.drop_last()) + (if b.last() == ',' {
            seq![]
        } else {
            seq![b.last()]
        }) =~= without_commas(a) + without_commas(b));
    } else {
        assert(a + b =~= a);
        assert(without_commas(b) =~= Seq::<char>::empty());
        assert(without_commas(a) + without_commas(b) =~= without_commas(a));
    }
}

proof fn lemma_one_char(c: char)
    requires
        c != ',',
    ensures
        without_commas(seq![c]) == seq![c],
{
    assert(seq![c].drop_last() =~= Seq::<char>::empty());
    assert(without_commas(Seq::<char>::empty()) == Seq::<char>::empty());
    assert(seq![c].last() == c);
    assert(Seq::<char>::empty() + seq![c] =~= seq![c]);
}

proof fn lemma_digit_char(d: int)
    ensures
        digit_char(d) != ',',
{
}

proof fn lemma_digits_no_comma(n: nat)
    ensures
        without_commas(dec_text(n)) == dec_text(n),
        1 <= dec_text(n).len(),
        n < 10 ==> dec_text(n).len() == 1,
        n < 100 ==> dec_text(n).len() <= 2,
        n < 1000 ==> dec_text(n).len() <= 3,
        forall|k: int| 0 <= k < dec_text(n).len() ==> #[trigger] dec_text(n)[k] != ',',
    decreases n,
{
    if n >= 10 {
        lemma_digits_no_comma(n / 10);
        let d = seq![digit_char((n % 10) as int)];
        lemma_without_commas_concat(dec_text(n / 10), d);
        lemma_digit_char((n % 10) as int);
        lemma_one_char(digit_char((n % 10) as int));
        assert forall|k: int| 0 <= k < dec_text(n).len() implies #[trigger] dec_text(n)[k] != ',' by {
            if k < dec_text(n / 10).len() {
                assert(dec_text(n)[k] == dec_text(n / 10)[k]);
            }
        }
        assert(dec_text(n).len() == dec_text(n / 10).len() + 1);
    } else {
        lemma_digit_char(n as int);
        lemma_one_char(digit_char(n as int));
    }
}

proof fn lemma_dec_split(n: nat)
    requires
        n >= 1000,
    ensures
        dec_text(n) == dec_text(n / 1000) + seq![
            digit_char(((n % 1000) / 100) as int),
            digit_char(((n % 100) / 10) as int),
            digit_char((n % 10) as int),
        ],
{
    let a = n / 10;
    let b = n / 100;
    assert(a / 10 == b) by (nonlinear_arith)
        requires a == n / 10, b == n / 100;
    assert(b / 10 == n / 1000) by (nonlinear_arith)
        requires b == n / 100;
    assert(a % 10 == (n % 100) / 10) by (nonlinear_arith)
        requires a == n / 10;
    assert(b % 10 == (n % 1000) / 100) by (nonlinear_arith)
        requires b == n / 100;
    assert(dec_text(n) == dec_text(a) + seq![digit_char((n % 10) as int)]);
    assert(dec_text(a) == dec_text(b) + seq![digit_char((a % 10) as int)]);
    assert(dec_text(b) == dec_text(b / 10) + seq![digit_char((b % 10) as int)]);
    assert(dec_text(n) =~= dec_text(n / 1000) + seq![
        digit_char(((n % 1000) / 100) as int),
        digit_char(((n % 100) / 10) as int),
        digit_char((n % 10) as int),
    ]);
}

/// The figure with thousands separators is the plain decimal figure once
/// its commas go, and its digits come in groups of three from the right.
pub proof fn law_grouped_text(n: nat)
    ensures
        without_commas(grouped_text(n)) == dec_text(n),
        well_grouped(grouped_text(n)),
    decreases n,
{
    lemma_digits_no_comma(n);
    if n >= 1000 {
        law_grouped_text(n / 1000);
        lemma_dec_split(n);
        let tail = seq![
            ',',
            digit_char(((n % 1000) / 100) as int),
            digit_char(((n % 100) / 10) as int),
            digit_char((n % 10) as int),
        ];
        let g = grouped_text(n / 1000);
        assert(grouped_text(n) == g + tail);
        lemma_without_commas_concat(g, tail);
        assert(without_commas(tail) =~= tail.drop_first()) by {
            let d2 = digit_char(((n % 1000) / 100) as int);
            let d1 = digit_char(((n % 100) / 10) as int);
            let d0 = digit_char((n % 10) as int);
            lemma_digit_char(((n % 1000) / 100) as int);
            lemma_digit_char(((n % 100) / 10) as int);
            lemma_digit_char((n % 10) as int);
            assert(seq![','].drop_last() =~= Seq::<char>::empty());
            assert(without_commas(Seq::<char>::empty()) == Seq::<char>::empty());
            assert(without_commas(seq![',']) =~= Seq::<char>::empty());
            assert(seq![',', d2].drop_last() =~= seq![',']);
            assert(without_commas(seq![',', d2]) =~= seq![d2]);
            assert(seq![',', d2, d1].drop_last() =~= seq![',', d2]);
            assert(without_commas(seq![',', d2, d1]) =~= seq![d2, d1]);
            assert(tail.drop_last() =~= seq![',', d2, d1]);
            assert(without_commas(tail) =~= seq![d2, d1, d0]);
        }
        assert(dec_text(n) =~= dec_text(n / 1000) + tail.drop_first());
        let s = g + tail;
        assert(s.take(s.len() - 4) =~= g);
        assert(s[s.len() - 4] == ',');
    }
}

} // verus!
