//! Bind variables (`:name`) of SQL text.
use vstd::prelude::*;
use crate::regex_api::{compile_regex, escape, escape_spec, regex_compiles, regex_replace_all, replace_all};
use crate::text::{
    all_digits, ascii_digit, ascii_lower, ascii_upper, char_is_alphabetic, char_is_alphanumeric, chars_of, contains, contains_str, eq_chars, find_char, find_char_exec, is_alphabetic,
    lemma_find_bounds,
    is_alphanumeric, lower_chars, slice_of, starts_with, str_lower, str_upper, string_from, trim,
    trim_vec, upper_chars,
};

verus! {

/// The end of the run of letters, digits and `_` from `j` (a bind's name).
pub open spec fn name_end(s: Seq<char>, j: int) -> int
    decreases s.len() - j,
{
    if 0 <= j < s.len() && (char_is_alphanumeric(s[j]) || s[j] == '_') {
        name_end(s, j + 1)
    } else {
        j
    }
}

pub proof fn lemma_name_end(s: Seq<char>, j: int)
    requires
        0 <= j <= s.len(),
    ensures
        j <= name_end(s, j) <= s.len(),
    decreases s.len() - j,
{
    if 0 <= j < s.len() && (char_is_alphanumeric(s[j]) || s[j] == '_') {
        lemma_name_end(s, j + 1);
    }
}


pub open spec fn name_mi() -> Seq<char> {
    seq!['M', 'I']
}

pub open spec fn name_ss() -> Seq<char> {
    seq!['S', 'S']
}

pub open spec fn name_hh24() -> Seq<char> {
    seq!['H', 'H', '2', '4']
}

pub open spec fn name_hh() -> Seq<char> {
    seq!['H', 'H']
}

/// Upper-case names that stand for date format elements, not binds.
pub open spec fn is_format_element(up: Seq<char>) -> bool {
    up == name_mi() || up == name_ss() || up == name_hh24() || up == name_hh()
}

pub struct BindScan {
    pub in_str: bool,
    pub in_line_comment: bool,
    pub in_block_comment: bool,
    pub seen: Seq<Seq<char>>,
    pub binds: Seq<Seq<char>>,
}

/// Scans `s` from index `i` in state `st`: the binds found, in order of
/// first appearance.
pub open spec fn binds_from(s: Seq<char>, i: int, st: BindScan) -> Seq<Seq<char>>
    decreases s.len() - i,
{
    if i < 0 || i >= s.len() {
        st.binds
    } else {
        let c = s[i];
        if st.in_line_comment {
            if c == '\n' {
                binds_from(s, i + 1, BindScan { in_line_comment: false, ..st })
            } else {
                binds_from(s, i + 1, st)
            }
        } else if st.in_block_comment {
            if c == '*' && i + 1 < s.len() && s[i + 1] == '/' {
                binds_from(s, i + 2, BindScan { in_block_comment: false, ..st })
            } else {
                binds_from(s, i + 1, st)
            }
        } else if c == '\'' {
            binds_from(s, i + 1, BindScan { in_str: !st.in_str, ..st })
        } else if st.in_str {
            binds_from(s, i + 1, st)
        } else if c == '-' && i + 1 < s.len() && s[i + 1] == '-' {
            binds_from(s, i + 2, BindScan { in_line_comment: true, ..st })
        } else if c == '/' && i + 1 < s.len() && s[i + 1] == '*' {
            binds_from(s, i + 2, BindScan { in_block_comment: true, ..st })
        } else if c == ':' && (i == 0 || s[i - 1] != ':') && i + 1 < s.len() && (char_is_alphabetic(
            s[i + 1],
        ) || s[i + 1] == '_') {
            let j = name_end(s, i + 1);
            proof {
                lemma_name_end(s, i + 1);
            }
            let name = s.subrange(i + 1, j);
            let up = str_upper(name);
            if !st.seen.contains(up) && !is_format_element(up) {
                binds_from(s, j, BindScan { seen: st.seen.push(up), binds: st.binds.push(name), ..st })
            } else {
                binds_from(s, j, st)
            }
        } else {
            binds_from(s, i + 1, st)
        }
    }
}

/// What `extract_bind_variables` returns for `s`.
pub open spec fn extract_bind_variables_spec(s: Seq<char>) -> Seq<Seq<char>> {
    binds_from(
        s,
        0,
        BindScan {
            in_str: false,
            in_line_comment: false,
            in_block_comment: false,
            seen: seq![],
            binds: seq![],
        },
    )
}

pub open spec fn names_view(v: Seq<String>) -> Seq<Seq<char>> {
    v.map_values(|s: String| s@)
}

fn seen_contains(seen: &Vec<Vec<char>>, up: &Vec<char>) -> (r: bool)
    ensures
        r == crate::text::lines_view(seen@).contains(up@),
{
    let mut k: usize = 0;
    while k < seen.len()
        invariant
            0 <= k <= seen.len(),
            forall|m: int| 0 <= m < k ==> seen@[m]@ != up@,
        decreases seen.len() - k,
    {
        if eq_chars(&seen[k], up) {
            assert(crate::text::lines_view(seen@)[k as int] == up@);
            return true;
        }
        k += 1;
    }
    proof {
        if crate::text::lines_view(seen@).contains(up@) {
            let m = choose|m: int| 0 <= m < seen.len() && crate::text::lines_view(seen@)[m] == up@;
            assert(seen@[m]@ == up@);
        }
    }
    false
}

fn format_element_exec(up: &Vec<char>) -> (r: bool)
    ensures
        r == is_format_element(up@),
{
    let mi = vec!['M', 'I'];
    let ss = vec!['S', 'S'];
    let hh24 = vec!['H', 'H', '2', '4'];
    let hh = vec!['H', 'H'];
    eq_chars(up, &mi) || eq_chars(up, &ss) || eq_chars(up, &hh24) || eq_chars(up, &hh)
}

/// The bind variables (`:name`) of SQL text, each once, in order of first
/// appearance. Names are compared without regard to case; names inside
/// string literals and comments, after `::`, and the date format elements
/// `MI`, `SS`, `HH24` and `HH` are not binds.
pub fn extract_bind_variables(sql: &str) -> (r: Vec<String>)
    ensures
        names_view(r@) == extract_bind_variables_spec(sql@),
{
    let s = chars_of(sql);
    let mut in_str = false;
    let mut in_line = false;
    let mut in_block = false;
    let mut seen: Vec<Vec<char>> = Vec::new();
    let mut binds: Vec<String> = Vec::new();
    let ghost init = BindScan {
        in_str: false,
        in_line_comment: false,
        in_block_comment: false,
        seen: seq![],
        binds: seq![],
    };
    assert(crate::text::lines_view(seen@) =~= Seq::<Seq<char>>::empty());
    assert(names_view(binds@) =~= Seq::<Seq<char>>::empty());
    let mut i: usize = 0;
    while i < s.len()
        invariant
            0 <= i <= s.len(),
            binds_from(
                s@,
                i as int,
                BindScan {
                    in_str,
                    in_line_comment: in_line,
                    in_block_comment: in_block,
                    seen: crate::text::lines_view(seen@),
                    binds: names_view(binds@),
                },
            ) == extract_bind_variables_spec(s@),
        decreases s.len() - i,
    {
        let c = s[i];
        if in_line {
            if c == '\n' {
                in_line = false;
            }
            i += 1;
        } else if in_block {
            if c == '*' && i + 1 < s.len() && s[i + 1] == '/' {
                in_block = false;
                i += 2;
            } else {
                i += 1;
            }
        } else if c == '\'' {
            in_str = !in_str;
            i += 1;
        } else if in_str {
            i += 1;
        } else if c == '-' && i + 1 < s.len() && s[i + 1] == '-' {
            in_line = true;
            i += 2;
        } else if c == '/' && i + 1 < s.len() && s[i + 1] == '*' {
            in_block = true;
            i += 2;
        } else if c == ':' && (i == 0 || s[i - 1] != ':') && i + 1 < s.len() && (is_alphabetic(
            s[i + 1],
        ) || s[i + 1] == '_') {
            let mut j = i + 1;
            while j < s.len() && (is_alphanumeric(s[j]) || s[j] == '_')
                invariant
                    i + 1 <= j <= s.len(),
                    name_end(s@, j as int) == name_end(s@, i + 1),
                decreases s.len() - j,
            {
                j += 1;
            }
            let name = slice_of(&s, i + 1, j);
            let up = upper_chars(&name);
            if !seen_contains(&seen, &up) && !format_element_exec(&up) {
                let ghost sv = crate::text::lines_view(seen@);
                let ghost bv = names_view(binds@);
                seen.push(up);
                let ns = string_from(&name);
                binds.push(ns);
                assert(crate::text::lines_view(seen@) =~= sv.push(str_upper(name@)));
                assert(names_view(binds@) =~= bv.push(name@));
            }
            i = j;
        } else {
            i += 1;
        }
    }
    binds
}


/// No two names are the same up to case, and none is a date format element.
pub open spec fn distinct_binds(r: Seq<Seq<char>>) -> bool {
    &&& forall|a: int, b: int|
        0 <= a < b < r.len() ==> str_upper(#[trigger] r[a]) != str_upper(#[trigger] r[b])
    &&& forall|k: int| 0 <= k < r.len() ==> !is_format_element(str_upper(#[trigger] r[k]))
}

pub open spec fn scan_ok(st: BindScan) -> bool {
    &&& st.seen.len() == st.binds.len()
    &&& forall|k: int| 0 <= k < st.seen.len() ==> #[trigger] st.seen[k] == str_upper(st.binds[k])
    &&& distinct_binds(st.binds)
}

proof fn lemma_binds_from_distinct(s: Seq<char>, i: int, st: BindScan)
    requires
        scan_ok(st),
    ensures
        distinct_binds(binds_from(s, i, st)),
    decreases s.len() - i,
{
    if i < 0 || i >= s.len() {
    } else {
        let c = s[i];
        if st.in_line_comment {
            if c == '\n' {
                lemma_binds_from_distinct(s, i + 1, BindScan { in_line_comment: false, ..st });
            } else {
                lemma_binds_from_distinct(s, i + 1, st);
            }
        } else if st.in_block_comment {
            if c == '*' && i + 1 < s.len() && s[i + 1] == '/' {
                lemma_binds_from_distinct(s, i + 2, BindScan { in_block_comment: false, ..st });
            } else {
                lemma_binds_from_distinct(s, i + 1, st);
            }
        } else if c == '\'' {
            lemma_binds_from_distinct(s, i + 1, BindScan { in_str: !st.in_str, ..st });
        } else if st.in_str {
            lemma_binds_from_distinct(s, i + 1, st);
        } else if c == '-' && i + 1 < s.len() && s[i + 1] == '-' {
            lemma_binds_from_distinct(s, i + 2, BindScan { in_line_comment: true, ..st });
        } else if c == '/' && i + 1 < s.len() && s[i + 1] == '*' {
            lemma_binds_from_distinct(s, i + 2, BindScan { in_block_comment: true, ..st });
        } else if c == ':' && (i == 0 || s[i - 1] != ':') && i + 1 < s.len() && (char_is_alphabetic(
            s[i + 1],
        ) || s[i + 1] == '_') {
            let j = name_end(s, i + 1);
            lemma_name_end(s, i + 1);
            let name = s.subrange(i + 1, j);
            let up = str_upper(name);
            if !st.seen.contains(up) && !is_format_element(up) {
                let st2 = BindScan { seen: st.seen.push(up), binds: st.binds.push(name), ..st };
                assert forall|a: int, b: int|
                    0 <= a < b < st2.binds.len() implies str_upper(#[trigger] st2.binds[a])
                    != str_upper(#[trigger] st2.binds[b]) by {
                    if b == st.binds.len() {
                        assert(st.seen[a] == str_upper(st.binds[a]));
                        assert(st.seen.contains(st.seen[a]));
                    }
                }
                assert(scan_ok(st2));
                lemma_binds_from_distinct(s, j, st2);
            } else {
                lemma_binds_from_distinct(s, j, st);
            }
        } else {
            lemma_binds_from_distinct(s, i + 1, st);
        }
    }
}

/// The bind variables that `extract_bind_variables` reports are distinct
/// without regard to case, and none of them is a date format element
/// (`MI`, `SS`, `HH24`, `HH`).
pub proof fn law_binds_distinct(sql: Seq<char>)
    ensures
        distinct_binds(extract_bind_variables_spec(sql)),
{
    let st = BindScan {
        in_str: false,
        in_line_comment: false,
        in_block_comment: false,
        seen: seq![],
        binds: seq![],
    };
    lemma_binds_from_distinct(sql, 0, st);
}

/// A character of a bind's name: a letter, a digit or `_`.
pub open spec fn is_name_char(c: char) -> bool {
    char_is_alphanumeric(c) || c == '_'
}

/// `b` stands in `s` as a bind at `i`: a `:` at `i`, then `b`, all name
/// characters, and no name character right after it.
pub open spec fn bind_at(s: Seq<char>, i: int, b: Seq<char>) -> bool {
    &&& 0 <= i
    &&& i + 1 + b.len() <= s.len()
    &&& s[i] == ':'
    &&& s.subrange(i + 1, i + 1 + b.len()) == b
    &&& forall|k: int| 0 <= k < b.len() ==> is_name_char(#[trigger] b[k])
    &&& (i + 1 + b.len() == s.len() || !is_name_char(s[i + 1 + b.len()]))
}

proof fn lemma_name_run(s: Seq<char>, j: int)
    requires
        0 <= j <= s.len(),
    ensures
        j <= name_end(s, j) <= s.len(),
        name_end(s, j) == s.len() || !is_name_char(s[name_end(s, j)]),
        forall|k: int| j <= k < name_end(s, j) ==> is_name_char(#[trigger] s[k]),
    decreases s.len() - j,
{
    lemma_name_end(s, j);
    if j < s.len() && is_name_char(s[j]) {
        lemma_name_run(s, j + 1);
    }
}

/// `b` stands somewhere in `s` as a bind.
pub open spec fn occurs_as_bind(s: Seq<char>, b: Seq<char>) -> bool {
    exists|x: int| bind_at(s, x, b)
}

/// Each of the names stands in `s` as a bind.
pub open spec fn all_occur(s: Seq<char>, bs: Seq<Seq<char>>) -> bool {
    forall|k: int| 0 <= k < bs.len() ==> occurs_as_bind(s, #[trigger] bs[k])
}

proof fn lemma_binds_from_occur(s: Seq<char>, i: int, st: BindScan)
    requires
        all_occur(s, st.binds),
    ensures
        all_occur(s, binds_from(s, i, st)),
    decreases s.len() - i,
{
    if i < 0 || i >= s.len() {
    } else {
        let c = s[i];
        if st.in_line_comment {
            if c == '\n' {
                lemma_binds_from_occur(s, i + 1, BindScan { in_line_comment: false, ..st });
            } else {
                lemma_binds_from_occur(s, i + 1, st);
            }
        } else if st.in_block_comment {
            if c == '*' && i + 1 < s.len() && s[i + 1] == '/' {
                lemma_binds_from_occur(s, i + 2, BindScan { in_block_comment: false, ..st });
            } else {
                lemma_binds_from_occur(s, i + 1, st);
            }
        } else if c == '\'' {
            lemma_binds_from_occur(s, i + 1, BindScan { in_str: !st.in_str, ..st });
        } else if st.in_str {
            lemma_binds_from_occur(s, i + 1, st);
        } else if c == '-' && i + 1 < s.len() && s[i + 1] == '-' {
            lemma_binds_from_occur(s, i + 2, BindScan { in_line_comment: true, ..st });
        } else if c == '/' && i + 1 < s.len() && s[i + 1] == '*' {
            lemma_binds_from_occur(s, i + 2, BindScan { in_block_comment: true, ..st });
        } else if c == ':' && (i == 0 || s[i - 1] != ':') && i + 1 < s.len() && (char_is_alphabetic(
            s[i + 1],
        ) || s[i + 1] == '_') {
            let j = name_end(s, i + 1);
            lemma_name_run(s, i + 1);
            let name = s.subrange(i + 1, j);
            let up = str_upper(name);
            if !st.seen.contains(up) && !is_format_element(up) {
                let st2 = BindScan { seen: st.seen.push(up), binds: st.binds.push(name), ..st };
                assert(bind_at(s, i, name)) by {
                    assert forall|k: int| 0 <= k < name.len() implies is_name_char(#[trigger] name[k]) by {
                        assert(name[k] == s[i + 1 + k]);
                    }
                }
                assert forall|k: int| 0 <= k < st2.binds.len() implies occurs_as_bind(s, #[trigger] st2.binds[k]) by {
                    if k == st.binds.len() {
                        assert(st2.binds[k] == name);
                        assert(bind_at(s, i, st2.binds[k]));
                    } else {
                        assert(st2.binds[k] == st.binds[k]);
                        assert(occurs_as_bind(s, st.binds[k]));
                        let x = choose|x: int| bind_at(s, x, st.binds[k]);
                        assert(bind_at(s, x, st2.binds[k]));
                    }
                }
                assert(all_occur(s, st2.binds));
                lemma_binds_from_occur(s, j, st2);
            } else {
                lemma_binds_from_occur(s, j, st);
            }
        } else {
            lemma_binds_from_occur(s, i + 1, st);
        }
    }
}

/// Every bind that `extract_bind_variables` reports stands in the text:
/// right after a `:`, as a whole run of letters, digits and `_`.
pub proof fn law_binds_occur(sql: Seq<char>)
    ensures
        all_occur(sql, extract_bind_variables_spec(sql)),
{
    let st = BindScan {
        in_str: false,
        in_line_comment: false,
        in_block_comment: false,
        seen: seq![],
        binds: seq![],
    };
    lemma_binds_from_occur(sql, 0, st);
}

proof fn lemma_name_end_shift(a: Seq<char>, q: Seq<char>, j: int)
    requires
        0 <= j,
    ensures
        name_end(a + q, a.len() + j) == a.len() + name_end(q, j),
    decreases q.len() - j,
{
    if j < q.len() {
        assert((a + q)[a.len() + j] == q[j]);
        lemma_name_end_shift(a, q, j + 1);
    }
}

/// Scanning the end `q` of `a + q` gives what scanning `q` alone gives, when
/// `a` does not end in `:` (the one character before its position that the
/// scan looks at).
proof fn lemma_binds_shift(a: Seq<char>, q: Seq<char>, j: int, st: BindScan)
    requires
        0 <= j,
        a.len() == 0 || a.last() != ':',
    ensures
        binds_from(a + q, a.len() + j, st) == binds_from(q, j, st),
    decreases q.len() - j,
{
    let s = a + q;
    let i = a.len() + j;
    if j < q.len() {
        assert(s[i] == q[j]);
        if j + 1 < q.len() {
            assert(s[i + 1] == q[j + 1]);
        }
        if j > 0 {
            assert(s[i - 1] == q[j - 1]);
        } else if a.len() > 0 {
            assert(s[i - 1] == a.last());
        }
        let c = q[j];
        if st.in_line_comment {
            if c == '\n' {
                lemma_binds_shift(a, q, j + 1, BindScan { in_line_comment: false, ..st });
            } else {
                lemma_binds_shift(a, q, j + 1, st);
            }
        } else if st.in_block_comment {
            if c == '*' && j + 1 < q.len() && q[j + 1] == '/' {
                lemma_binds_shift(a, q, j + 2, BindScan { in_block_comment: false, ..st });
            } else {
                lemma_binds_shift(a, q, j + 1, st);
            }
        } else if c == '\'' {
            lemma_binds_shift(a, q, j + 1, BindScan { in_str: !st.in_str, ..st });
        } else if st.in_str {
            lemma_binds_shift(a, q, j + 1, st);
        } else if c == '-' && j + 1 < q.len() && q[j + 1] == '-' {
            lemma_binds_shift(a, q, j + 2, BindScan { in_line_comment: true, ..st });
        } else if c == '/' && j + 1 < q.len() && q[j + 1] == '*' {
            lemma_binds_shift(a, q, j + 2, BindScan { in_block_comment: true, ..st });
        } else if c == ':' && (j == 0 || q[j - 1] != ':') && j + 1 < q.len() && (char_is_alphabetic(
            q[j + 1],
        ) || q[j + 1] == '_') {
            let e = name_end(q, j + 1);
            lemma_name_end(q, j + 1);
            lemma_name_end_shift(a, q, j + 1);
            assert(s.subrange(i + 1, a.len() + e) =~= q.subrange(j + 1, e));
            let name = q.subrange(j + 1, e);
            let up = str_upper(name);
            if !st.seen.contains(up) && !is_format_element(up) {
                lemma_binds_shift(a, q, e, BindScan { seen: st.seen.push(up), binds: st.binds.push(name), ..st });
            } else {
                lemma_binds_shift(a, q, e, st);
            }
        } else {
            lemma_binds_shift(a, q, j + 1, st);
        }
    }
}

/// Inside a block comment, the scan runs on to the first `*/`.
proof fn lemma_block_skip(s: Seq<char>, k: int, e: int, st: BindScan)
    requires
        st.in_block_comment,
        !st.in_line_comment,
        0 <= k <= e,
        e + 1 < s.len(),
        s[e] == '*',
        s[e + 1] == '/',
        forall|m: int| k <= m < e ==> !(#[trigger] s[m] == '*' && s[m + 1] == '/'),
    ensures
        binds_from(s, k, st) == binds_from(s, e + 2, BindScan { in_block_comment: false, ..st }),
    decreases e - k,
{
    if k < e {
        assert(!(s[k] == '*' && s[k + 1] == '/'));
        lemma_block_skip(s, k + 1, e, st);
    }
}

/// No `*/` stands in `c`.
pub open spec fn no_comment_end(c: Seq<char>) -> bool {
    forall|m: int| 0 <= m < c.len() - 1 ==> !(#[trigger] c[m] == '*' && c[m + 1] == '/')
}

/// A closed block comment counts as a blank: where the scan of `p + "/*" +
/// c + "*/" + q` reaches the comment outside any string literal or comment
/// (in state `st`), it finds the binds that it finds in `p + " " + q`; so a
/// bind after a hint or comment is still reported. In particular, the binds
/// of `"/*" + c + "*/" + q` are those of `q`.
pub proof fn law_block_comment_blank(p: Seq<char>, c: Seq<char>, q: Seq<char>, st: BindScan)
    requires
        !st.in_str,
        !st.in_line_comment,
        !st.in_block_comment,
        no_comment_end(c),
    ensures
        binds_from(p + seq!['/', '*'] + c + seq!['*', '/'] + q, p.len() as int, st) == binds_from(
            p + seq![' '] + q,
            p.len() as int,
            st,
        ),
        extract_bind_variables_spec(seq!['/', '*'] + c + seq!['*', '/'] + q)
            == extract_bind_variables_spec(q),
{
    lemma_block_comment_blank(p, c, q, st);
    let init = BindScan {
        in_str: false,
        in_line_comment: false,
        in_block_comment: false,
        seen: seq![],
        binds: seq![],
    };
    let e: Seq<char> = seq![];
    lemma_block_comment_blank(e, c, q, init);
    assert(e + seq!['/', '*'] + c + seq!['*', '/'] + q =~= seq!['/', '*'] + c + seq!['*', '/'] + q);
    assert(e + seq![' '] + q =~= seq![' '] + q);
    lemma_binds_shift(seq![' '], q, 0, init);
    lemma_binds_shift(e, q, 0, init);
    assert(e + q =~= q);
}

proof fn lemma_block_comment_blank(p: Seq<char>, c: Seq<char>, q: Seq<char>, st: BindScan)
    requires
        !st.in_str,
        !st.in_line_comment,
        !st.in_block_comment,
        no_comment_end(c),
    ensures
        binds_from(p + seq!['/', '*'] + c + seq!['*', '/'] + q, p.len() as int, st) == binds_from(
            p + seq![' '] + q,
            p.len() as int,
            st,
        ),
{
    let a1 = p + seq!['/', '*'] + c + seq!['*', '/'];
    let s1 = a1 + q;
    let a2 = p + seq![' '];
    let s2 = a2 + q;
    let n = p.len() as int;
    let e = n + 2 + c.len();
    assert(p + seq!['/', '*'] + c + seq!['*', '/'] + q == s1);
    assert(p + seq![' '] + q == s2);
    assert(s1[n] == '/');
    assert(s1[n + 1] == '*');
    assert(s1[e] == '*');
    assert(s1[e + 1] == '/');
    let stb = BindScan { in_block_comment: true, ..st };
    assert(binds_from(s1, n, st) == binds_from(s1, n + 2, stb));
    assert forall|m: int| n + 2 <= m < e implies !(#[trigger] s1[m] == '*' && s1[m + 1] == '/') by {
        assert(s1[m] == c[m - n - 2]);
        if m + 1 < e {
            assert(s1[m + 1] == c[m + 1 - n - 2]);
        } else {
            assert(s1[m + 1] == '*');
        }
    }
    lemma_block_skip(s1, n + 2, e, stb);
    assert(BindScan { in_block_comment: false, ..stb } == st);
    assert(s2[n] == ' ');
    assert(binds_from(s2, n, st) == binds_from(s2, n + 1, st));
    lemma_binds_shift(a1, q, 0, st);
    lemma_binds_shift(a2, q, 0, st);
    assert(a1.len() == e + 2);
    assert(a2.len() == n + 1);
}

/// What `default_bind_value` returns for a bind named `name`.
pub open spec fn default_bind_value_spec(name: Seq<char>) -> Seq<char> {
    let lower = str_lower(name);
    if contains(lower, "date"@) || contains(lower, "_dt"@) {
        if contains(lower, "end"@) {
            "'2025-07-01'"@
        } else {
            "'2025-04-01'"@
        }
    } else if contains(lower, "promo"@) || contains(lower, "type"@) {
        "'FLASH_SALE'"@
    } else if contains(lower, "grade"@) {
        "'VIP'"@
    } else if contains(lower, "status"@) {
        "'DELIVERED'"@
    } else if contains(lower, "id"@) || contains(lower, "cd"@) {
        "1"@
    } else {
        "'1'"@
    }
}

/// A sample value for a bind, chosen by its name (case-insensitively):
/// dates (`date`, `_dt`; `end` picks the later one), promotion types,
/// grades, statuses, ids and codes; `'1'` otherwise.
pub fn default_bind_value(name: &str) -> (r: String)
    ensures
        r@ == default_bind_value_spec(name@),
{
    let n = chars_of(name);
    let lower = lower_chars(&n);
    if contains_str(&lower, "date") || contains_str(&lower, "_dt") {
        if contains_str(&lower, "end") {
            String::from_str("'2025-07-01'")
        } else {
            String::from_str("'2025-04-01'")
        }
    } else if contains_str(&lower, "promo") || contains_str(&lower, "type") {
        String::from_str("'FLASH_SALE'")
    } else if contains_str(&lower, "grade") {
        String::from_str("'VIP'")
    } else if contains_str(&lower, "status") {
        String::from_str("'DELIVERED'")
    } else if contains_str(&lower, "id") || contains_str(&lower, "cd") {
        String::from_str("1")
    } else {
        String::from_str("'1'")
    }
}

// ---------------------------------------------------------------------------
// Substituting values for binds
// ---------------------------------------------------------------------------

/// ASCII case-insensitive equality (`str::eq_ignore_ascii_case`).
pub open spec fn eq_ignore_ascii_case(a: Seq<char>, t: Seq<char>) -> bool {
    a.len() == t.len() && forall|i: int|
        0 <= i < a.len() ==> (#[trigger] a[i] == t[i] || (ascii_upper(t[i]) && a[i] as u32 == t[i]
            as u32 + 32) || (ascii_lower(t[i]) && a[i] as u32 + 32 == t[i] as u32))
}

/// The digits of a decimal mantissa with at most one point: `12`, `12.`,
/// `.5`, `12.5`.
pub open spec fn mantissa_ok(m: Seq<char>) -> bool {
    match find_char(m, '.') {
        Some(k) => m.len() > 1 && all_digits(m.take(k)) && all_digits(m.skip(k + 1)),
        None => m.len() > 0 && all_digits(m),
    }
}

/// An exponent: an optional sign and at least one digit.
pub open spec fn exponent_ok(x: Seq<char>) -> bool {
    let d = if x.len() > 0 && (x[0] == '+' || x[0] == '-') {
        x.drop_first()
    } else {
        x
    };
    d.len() > 0 && all_digits(d)
}

pub open spec fn first_e(s: Seq<char>) -> Option<int>
    decreases s.len(),
{
    if s.len() == 0 {
        None
    } else if s.last() == 'e' || s.last() == 'E' {
        match first_e(s.drop_last()) {
            Some(k) => Some(k),
            None => Some(s.len() - 1),
        }
    } else {
        first_e(s.drop_last())
    }
}

/// Whether `str::parse::<f64>` accepts the text: an optional sign, then
/// `inf`, `infinity` or `nan` in any case, or a decimal number with an
/// optional exponent.
pub open spec fn is_float_text(s: Seq<char>) -> bool {
    let b = if s.len() > 0 && (s[0] == '+' || s[0] == '-') {
        s.drop_first()
    } else {
        s
    };
    eq_ignore_ascii_case(b, "INF"@) || eq_ignore_ascii_case(b, "INFINITY"@) || eq_ignore_ascii_case(
        b,
        "NAN"@,
    ) || match first_e(b) {
        Some(k) => mantissa_ok(b.take(k)) && exponent_ok(b.skip(k + 1)),
        None => mantissa_ok(b),
    }
}

/// The value given for a name: the first pair with that name.
pub open spec fn lookup(vals: Seq<(Seq<char>, Seq<char>)>, k: Seq<char>) -> Option<Seq<char>>
    decreases vals.len(),
{
    if vals.len() == 0 {
        None
    } else if vals[0].0 == k {
        Some(vals[0].1)
    } else {
        lookup(vals.drop_first(), k)
    }
}

/// The text put in for a bind: its given value, trimmed, or the default
/// value when none or only whitespace is given.
pub open spec fn bind_text(b: Seq<char>, vals: Seq<(Seq<char>, Seq<char>)>) -> Seq<char> {
    match lookup(vals, b) {
        Some(v) => if trim(v).len() > 0 {
            trim(v)
        } else {
            default_bind_value_spec(b)
        },
        None => default_bind_value_spec(b),
    }
}

/// A value as SQL text: kept as it is when quoted already, a number or
/// `NULL`; put in single quotes otherwise.
pub open spec fn sql_literal(v: Seq<char>) -> Seq<char> {
    if starts_with(v, "'"@) || is_float_text(v) || eq_ignore_ascii_case(v, "NULL"@) {
        v
    } else {
        "'"@ + v + "'"@
    }
}

/// The pattern of the bind `:b` as a whole word.
pub open spec fn bind_pattern(b: Seq<char>) -> Seq<char> {
    ":"@ + escape_spec(b) + r"\b"@
}

pub open spec fn substitute_from(s: Seq<char>, binds: Seq<Seq<char>>, vals: Seq<(Seq<char>, Seq<char>)>) -> Seq<char>
    decreases binds.len(),
{
    if binds.len() == 0 {
        s
    } else {
        let b = binds[0];
        let p = bind_pattern(b);
        let s2 = if regex_compiles(p) {
            regex_replace_all(p, s, sql_literal(bind_text(b, vals)))
        } else {
            s
        };
        substitute_from(s2, binds.drop_first(), vals)
    }
}

/// The text with each bind, in order of first appearance, replaced
/// everywhere by its value as SQL text.
pub open spec fn substitute_spec(sql: Seq<char>, vals: Seq<(Seq<char>, Seq<char>)>) -> Seq<char> {
    substitute_from(sql, extract_bind_variables_spec(sql), vals)
}

pub open spec fn pairs_view(v: Seq<(String, String)>) -> Seq<(Seq<char>, Seq<char>)> {
    v.map_values(|p: (String, String)| (p.0@, p.1@))
}

fn ci_eq(a: &Vec<char>, t: &str) -> (r: bool)
    ensures
        r == eq_ignore_ascii_case(a@, t@),
{
    let tv = chars_of(t);
    if a.len() != tv.len() {
        return false;
    }
    let mut i: usize = 0;
    while i < a.len()
        invariant
            0 <= i <= a.len(),
            a.len() == tv.len(),
            tv@ == t@,
            forall|k: int|
                0 <= k < i ==> (#[trigger] a@[k] == tv@[k] || (ascii_upper(tv@[k]) && a@[k] as u32
                    == tv@[k] as u32 + 32) || (ascii_lower(tv@[k]) && a@[k] as u32 + 32 == tv@[k] as u32)),
        decreases a.len() - i,
    {
        let x = a[i];
        let y = tv[i];
        let xu = x as u32;
        let yu = y as u32;
        let ok = x == y || ('A' <= y && y <= 'Z' && xu == yu + 32) || ('a' <= y && y <= 'z' && yu >= 32
            && xu == yu - 32);
        if !ok {
            assert(!(a@[i as int] == tv@[i as int] || (ascii_upper(tv@[i as int]) && a@[i as int] as u32
                == tv@[i as int] as u32 + 32) || (ascii_lower(tv@[i as int]) && a@[i as int] as u32 + 32
                == tv@[i as int] as u32)));
            return false;
        }
        i += 1;
    }
    true
}

fn all_digits_range(s: &Vec<char>, lo: usize, hi: usize) -> (r: bool)
    requires
        lo <= hi <= s.len(),
    ensures
        r == all_digits(s@.subrange(lo as int, hi as int)),
{
    let mut i = lo;
    while i < hi
        invariant
            lo <= i <= hi <= s.len(),
            all_digits(s@.subrange(lo as int, i as int)),
        decreases hi - i,
    {
        if !('0' <= s[i] && s[i] <= '9') {
            assert(s@.subrange(lo as int, hi as int)[i - lo] == s@[i as int]);
            return false;
        }
        i += 1;
        assert forall|k: int| 0 <= k < s@.subrange(lo as int, i as int).len() implies ascii_digit(
            #[trigger] s@.subrange(lo as int, i as int)[k],
        ) by {
            if k < i - 1 - lo {
                assert(s@.subrange(lo as int, i as int)[k] == s@.subrange(lo as int, i - 1)[k]);
            }
        }
    }
    true
}

fn mantissa_exec(m: &Vec<char>) -> (r: bool)
    ensures
        r == mantissa_ok(m@),
{
    let r = find_char_exec(m, '.');
    proof {
        lemma_find_bounds(m@, seq!['.']);
    }
    match r {
        Some(k) => {
            assert(m@.take(k as int) =~= m@.subrange(0, k as int));
            assert(m@.skip(k + 1) =~= m@.subrange(k + 1, m.len() as int));
            m.len() > 1 && all_digits_range(m, 0, k) && all_digits_range(m, k + 1, m.len())
        },
        None => {
            assert(m@ =~= m@.subrange(0, m.len() as int));
            m.len() > 0 && all_digits_range(m, 0, m.len())
        },
    }
}

fn exponent_exec(x: &Vec<char>) -> (r: bool)
    ensures
        r == exponent_ok(x@),
{
    let lo: usize = if x.len() > 0 && (x[0] == '+' || x[0] == '-') { 1 } else { 0 };
    assert(x@.drop_first() =~= x@.subrange(1, x.len() as int)) by {
        if x.len() > 0 {
        }
    }
    assert(x@ =~= x@.subrange(0, x.len() as int));
    x.len() > lo && all_digits_range(x, lo, x.len())
}

fn first_e_exec(s: &Vec<char>) -> (r: Option<usize>)
    ensures
        match first_e(s@) {
            Some(k) => r == Some(k as usize) && 0 <= k < s.len(),
            None => r is None,
        },
{
    let mut i: usize = 0;
    while i < s.len()
        invariant
            0 <= i <= s.len(),
            first_e(s@.take(i as int)) is None,
        decreases s.len() - i,
    {
        assert(s@.take(i + 1).drop_last() =~= s@.take(i as int));
        if s[i] == 'e' || s[i] == 'E' {
            proof {
                lemma_first_e_prefix(s@, (i + 1) as int);
            }
            return Some(i);
        }
        i += 1;
    }
    assert(s@.take(s.len() as int) =~= s@);
    None
}

proof fn lemma_first_e_prefix(s: Seq<char>, n: int)
    requires
        0 < n <= s.len(),
        first_e(s.take(n - 1)) is None,
        s[n - 1] == 'e' || s[n - 1] == 'E',
    ensures
        first_e(s) == Some(n - 1),
    decreases s.len() - n,
{
    assert(s.take(n).drop_last() =~= s.take(n - 1));
    assert(first_e(s.take(n)) == Some(n - 1));
    if n < s.len() {
        lemma_first_e_extend(s, n);
    } else {
        assert(s.take(n) =~= s);
    }
}

proof fn lemma_first_e_extend(s: Seq<char>, n: int)
    requires
        0 < n <= s.len(),
        first_e(s.take(n)) is Some,
    ensures
        first_e(s) == first_e(s.take(n)),
    decreases s.len() - n,
{
    if n == s.len() {
        assert(s.take(n) =~= s);
    } else {
        assert(s.take(n + 1).drop_last() =~= s.take(n));
        lemma_first_e_extend(s, n + 1);
    }
}

/// Whether `str::parse::<f64>` accepts the text; see `is_float_text`.
pub fn is_float_literal(s: &Vec<char>) -> (r: bool)
    ensures
        r == is_float_text(s@),
{
    let b = if s.len() > 0 && (s[0] == '+' || s[0] == '-') {
        slice_of(s, 1, s.len())
    } else {
        slice_of(s, 0, s.len())
    };
    assert(s.len() > 0 ==> s@.drop_first() =~= s@.subrange(1, s.len() as int));
    assert(s@ =~= s@.subrange(0, s.len() as int));
    if ci_eq(&b, "INF") || ci_eq(&b, "INFINITY") || ci_eq(&b, "NAN") {
        return true;
    }
    match first_e_exec(&b) {
        Some(k) => {
            let m = slice_of(&b, 0, k);
            let x = slice_of(&b, k + 1, b.len());
            assert(m@ =~= b@.take(k as int));
            assert(x@ =~= b@.skip(k + 1));
            mantissa_exec(&m) && exponent_exec(&x)
        },
        None => mantissa_exec(&b),
    }
}

fn lookup_exec(vals: &Vec<(String, String)>, k: &String) -> (r: Option<Vec<char>>)
    ensures
        match lookup(pairs_view(vals@), k@) {
            Some(v) => r matches Some(x) && x@ == v,
            None => r is None,
        },
{
    let ghost pv = pairs_view(vals@);
    let kv = chars_of(k.as_str());
    let mut i: usize = 0;
    assert(pv.skip(0) =~= pv);
    while i < vals.len()
        invariant
            0 <= i <= vals.len(),
            pv == pairs_view(vals@),
            kv@ == k@,
            lookup(pv.skip(i as int), k@) == lookup(pv, k@),
        decreases vals.len() - i,
    {
        assert(pv.skip(i as int)[0] == (vals@[i as int].0@, vals@[i as int].1@));
        let name = chars_of(vals[i].0.as_str());
        if eq_chars(&name, &kv) {
            return Some(chars_of(vals[i].1.as_str()));
        }
        assert(pv.skip(i as int).drop_first() =~= pv.skip(i + 1));
        i += 1;
    }
    assert(pv.skip(vals.len() as int) =~= Seq::<(Seq<char>, Seq<char>)>::empty());
    None
}

/// The SQL text put in for bind `b`: its value from `vals` (see
/// `bind_text`) as an SQL literal (see `sql_literal`).
pub fn bind_literal(b: &String, vals: &Vec<(String, String)>) -> (r: String)
    ensures
        r@ == sql_literal(bind_text(b@, pairs_view(vals@))),
{
    let val: Vec<char> = match lookup_exec(vals, b) {
        Some(v) => {
            let t = trim_vec(&v);
            if t.len() > 0 {
                t
            } else {
                chars_of(default_bind_value(b.as_str()).as_str())
            }
        },
        None => chars_of(default_bind_value(b.as_str()).as_str()),
    };
    proof {
        reveal_strlit("'");
    }
    if crate::text::starts_with_str(&val, "'") || is_float_literal(&val) || ci_eq(&val, "NULL") {
        string_from(&val)
    } else {
        let mut q: Vec<char> = Vec::new();
        q.push('\'');
        let mut i: usize = 0;
        while i < val.len()
            invariant
                0 <= i <= val.len(),
                q@ == seq!['\''] + val@.take(i as int),
            decreases val.len() - i,
        {
            q.push(val[i]);
            i += 1;
            assert(val@.take(i as int) =~= val@.take(i - 1).push(val@[i - 1]));
        }
        q.push('\'');
        assert(val@.take(val.len() as int) =~= val@);
        assert(q@ =~= "'"@ + val@ + "'"@);
        string_from(&q)
    }
}

/// The text with each bind replaced by its value: the first given value
/// for its name, trimmed, or else its default value; quoted unless it is
/// quoted already, a number or `NULL`. Binds are found as
/// `extract_bind_variables` finds them, and each is replaced wherever it
/// stands as a whole word.
pub fn substitute_bind_variables(sql: &str, bind_values: &Vec<(String, String)>) -> (r: String)
    ensures
        r@ == substitute_spec(sql@, pairs_view(bind_values@)),
{
    let binds = extract_bind_variables(sql);
    let ghost bv = names_view(binds@);
    let ghost vals = pairs_view(bind_values@);
    let mut out = string_from(&chars_of(sql));
    let mut i: usize = 0;
    assert(bv.skip(0) =~= bv);
    while i < binds.len()
        invariant
            0 <= i <= binds.len(),
            bv == names_view(binds@),
            bv == extract_bind_variables_spec(sql@),
            vals == pairs_view(bind_values@),
            substitute_from(out@, bv.skip(i as int), vals) == substitute_spec(sql@, vals),
        decreases binds.len() - i,
    {
        let b = &binds[i];
        assert(bv.skip(i as int)[0] == b@);
        assert(bv.skip(i as int).drop_first() =~= bv.skip(i + 1));
        let repl = bind_literal(b, bind_values);
        let esc = escape(b.as_str());
        let mut pat = chars_of(":");
        crate::text::append_str(&mut pat, esc.as_str());
        crate::text::append_str(&mut pat, r"\b");
        let ps = string_from(&pat);
        match compile_regex(ps.as_str()) {
            Some(re) => {
                out = replace_all(&re, out.as_str(), repl.as_str());
            },
            None => {},
        }
        i += 1;
    }
    assert(bv.skip(binds.len() as int) =~= Seq::<Seq<char>>::empty());
    out
}

} // verus!
