//! Why formatting formatted SQL changes nothing.
//!
//! The tokens of `format_sql`'s output are the tokens of its input, with
//! the clause keywords it lays out written in capitals; and laying those
//! tokens out again gives the same lines.
use vstd::prelude::*;
use crate::sqlfmt::{
    single_clause_word,
    block_end, candidate_at, clause_prefix, compound_at, compound_of, flush, format_sql_spec, glue,
    indent, init_state, is_bind_char, is_clause_keyword, is_op_char, is_op_start, is_word_char,
    is_word_start, kw_and, kw_by, kw_from, kw_group, kw_having, kw_inner, kw_join, kw_left,
    kw_on, kw_or, kw_order, kw_right, kw_select, kw_where, kw_with, lemma_lit_end,
    lemma_scan_token_advances, lex, lex_from, line_end, lit_end, bind_end, op_end,
    opens_subquery, render_from, render_lines, scan_token, spaces, step, two_words, word_end, RenderState, SToken, TokenKind,
};
use crate::text::{join_lines, str_upper};
use crate::text::{
    ascii_alpha, ascii_digit, ascii_ws, char_is_alphabetic, char_is_alphanumeric,
    char_is_whitespace, trim, trim_end, trim_start,
};

verus! {

// ---------------------------------------------------------------------------
// What the character classes of std say of ASCII
// ---------------------------------------------------------------------------

/// The characters whose classes the layout relies on: those it writes or
/// looks for, and the capitals of the clause keywords.
pub open spec fn layout_char(c: char) -> bool {
    c == ' ' || c == '\n' || c == '+' || c == '_' || c == '$' || c == '#' || c == '*' || c == '-'
        || c == '/' || c == '\'' || c == '"' || c == ':' || c == '(' || c == ')' || c == ','
        || c == ';' || c == '.' || c == '>' || c == '<' || c == '!' || c == '=' || c == '|'
        || keyword_letter(c)
}

/// The capitals that the clause keywords are spelt with.
pub open spec fn keyword_letter(c: char) -> bool {
    c == 'A' || c == 'B' || c == 'C' || c == 'D' || c == 'E' || c == 'F' || c == 'G' || c == 'H'
        || c == 'I' || c == 'J' || c == 'L' || c == 'M' || c == 'N' || c == 'O' || c == 'P'
        || c == 'R' || c == 'S' || c == 'T' || c == 'U' || c == 'V' || c == 'W' || c == 'Y'
}

/// `char::is_whitespace`, `char::is_alphabetic` and `char::is_alphanumeric`
/// agree with their ASCII definitions on the layout's characters.
pub open spec fn ascii_classes_known() -> bool {
    forall|c: char|
        #[trigger] layout_char(c) ==> ((char_is_whitespace(c) <==> ascii_ws(c)) && (
        char_is_alphabetic(c) <==> ascii_alpha(c)) && (char_is_alphanumeric(c) <==> (ascii_alpha(c)
            || ascii_digit(c))))
}

// ---------------------------------------------------------------------------
// Runs of characters
// ---------------------------------------------------------------------------

pub proof fn lemma_word_end_char(s: Seq<char>, k: int)
    requires
        0 <= k <= s.len(),
    ensures
        k <= word_end(s, k) <= s.len(),
        forall|m: int| k <= m < word_end(s, k) ==> is_word_char(#[trigger] s[m]),
        word_end(s, k) < s.len() ==> !is_word_char(s[word_end(s, k)]),
    decreases s.len() - k,
{
    if k < s.len() && is_word_char(s[k]) {
        lemma_word_end_char(s, k + 1);
    }
}

pub proof fn lemma_word_end_at(s: Seq<char>, k: int, e: int)
    requires
        0 <= k <= e <= s.len(),
        forall|m: int| k <= m < e ==> is_word_char(#[trigger] s[m]),
        e == s.len() || !is_word_char(s[e]),
    ensures
        word_end(s, k) == e,
    decreases e - k,
{
    if k < e {
        lemma_word_end_at(s, k + 1, e);
    }
}

pub proof fn lemma_bind_end_char(s: Seq<char>, k: int)
    requires
        0 <= k <= s.len(),
    ensures
        k <= bind_end(s, k) <= s.len(),
        forall|m: int| k <= m < bind_end(s, k) ==> is_bind_char(#[trigger] s[m]),
        bind_end(s, k) < s.len() ==> !is_bind_char(s[bind_end(s, k)]),
    decreases s.len() - k,
{
    if k < s.len() && is_bind_char(s[k]) {
        lemma_bind_end_char(s, k + 1);
    }
}

pub proof fn lemma_bind_end_at(s: Seq<char>, k: int, e: int)
    requires
        0 <= k <= e <= s.len(),
        forall|m: int| k <= m < e ==> is_bind_char(#[trigger] s[m]),
        e == s.len() || !is_bind_char(s[e]),
    ensures
        bind_end(s, k) == e,
    decreases e - k,
{
    if k < e {
        lemma_bind_end_at(s, k + 1, e);
    }
}

pub proof fn lemma_op_end_char(s: Seq<char>, k: int)
    requires
        0 <= k <= s.len(),
    ensures
        k <= op_end(s, k) <= s.len(),
        forall|m: int| k <= m < op_end(s, k) ==> is_op_char(#[trigger] s[m]),
        op_end(s, k) < s.len() ==> !is_op_char(s[op_end(s, k)]),
    decreases s.len() - k,
{
    if k < s.len() && is_op_char(s[k]) {
        lemma_op_end_char(s, k + 1);
    }
}

pub proof fn lemma_op_end_at(s: Seq<char>, k: int, e: int)
    requires
        0 <= k <= e <= s.len(),
        forall|m: int| k <= m < e ==> is_op_char(#[trigger] s[m]),
        e == s.len() || !is_op_char(s[e]),
    ensures
        op_end(s, k) == e,
    decreases e - k,
{
    if k < e {
        lemma_op_end_at(s, k + 1, e);
    }
}

pub proof fn lemma_line_end_char(s: Seq<char>, k: int)
    requires
        0 <= k <= s.len(),
    ensures
        k <= line_end(s, k) <= s.len(),
        forall|m: int| k <= m < line_end(s, k) ==> #[trigger] s[m] != '\n',
        line_end(s, k) < s.len() ==> s[line_end(s, k)] == '\n',
    decreases s.len() - k,
{
    if k < s.len() && s[k] != '\n' {
        lemma_line_end_char(s, k + 1);
    }
}

pub proof fn lemma_line_end_at(s: Seq<char>, k: int, e: int)
    requires
        0 <= k <= e <= s.len(),
        forall|m: int| k <= m < e ==> #[trigger] s[m] != '\n',
        e == s.len() || s[e] == '\n',
    ensures
        line_end(s, k) == e,
    decreases e - k,
{
    if k < e {
        lemma_line_end_at(s, k + 1, e);
    }
}

pub open spec fn closes_at(s: Seq<char>, m: int) -> bool {
    0 <= m && m + 1 < s.len() && s[m] == '*' && s[m + 1] == '/'
}

/// No `*/` starts at `m` (and a character follows `m`).
pub open spec fn not_close_at(s: Seq<char>, m: int) -> bool {
    m + 1 < s.len() && !(s[m] == '*' && s[m + 1] == '/')
}

pub open spec fn no_close_between(s: Seq<char>, k: int, e: int) -> bool {
    forall|m: int| k <= m < e ==> #[trigger] not_close_at(s, m)
}

pub proof fn lemma_block_end_char(s: Seq<char>, k: int)
    requires
        0 <= k,
    ensures
        k <= block_end(s, k),
        no_close_between(s, k, block_end(s, k)),
        block_end(s, k) + 1 < s.len() ==> closes_at(s, block_end(s, k)),
    decreases s.len() - k,
{
    if k + 1 < s.len() && !(s[k] == '*' && s[k + 1] == '/') {
        lemma_block_end_char(s, k + 1);
        assert(not_close_at(s, k));
    }
}

pub proof fn lemma_block_end_at(s: Seq<char>, k: int, e: int)
    requires
        0 <= k <= e,
        no_close_between(s, k, e),
        e + 1 >= s.len() || closes_at(s, e),
    ensures
        block_end(s, k) == e,
    decreases e - k,
{
    if k < e {
        assert(not_close_at(s, k));
        lemma_block_end_at(s, k + 1, e);
    }
}

// ---------------------------------------------------------------------------
// String literals
// ---------------------------------------------------------------------------

pub proof fn lemma_lit_end_after(s: Seq<char>, j: int, q: char)
    requires
        0 <= j < s.len(),
    ensures
        lit_end(s, j, q) > j,
    decreases s.len() - j,
{
    if s[j] != q {
        if j + 1 < s.len() {
            lemma_lit_end_after(s, j + 1, q);
        } else {
            assert(lit_end(s, j + 1, q) == j + 1);
        }
    } else if j + 1 < s.len() && s[j + 1] == q {
        if j + 2 < s.len() {
            lemma_lit_end_after(s, j + 2, q);
        } else {
            assert(lit_end(s, j + 2, q) == j + 2);
        }
    }
}

/// The scan of a literal body depends only on the characters it passes
/// and on whether the character after its end is a quote.
pub proof fn lemma_lit_transfer(s: Seq<char>, a: int, t: Seq<char>, b: int, m: int, k: int, q: char)
    requires
        0 <= a,
        0 <= b,
        0 <= k <= m,
        a + m <= s.len(),
        b + m <= t.len(),
        s.subrange(a, a + m) == t.subrange(b, b + m),
        a + m == s.len() ==> b + m == t.len(),
        a + m < s.len() && b + m < t.len() ==> ((s[a + m] == q) == (t[b + m] == q)),
        a + m < s.len() && b + m == t.len() ==> s[a + m] != q,
        lit_end(s, a + k, q) <= a + m,
    ensures
        lit_end(t, b + k, q) == lit_end(s, a + k, q) - a + b,
    decreases m - k,
{
    if k == m {
        if a + m < s.len() {
            lemma_lit_end_after(s, a + m, q);
        }
    } else {
        assert(s.subrange(a, a + m)[k] == s[a + k]);
        assert(t.subrange(b, b + m)[k] == t[b + k]);
        assert(s[a + k] == t[b + k]);
        if s[a + k] == q {
            if k + 1 < m {
                assert(s.subrange(a, a + m)[k + 1] == s[a + k + 1]);
                assert(t.subrange(b, b + m)[k + 1] == t[b + k + 1]);
                assert(s[a + k + 1] == t[b + k + 1]);
                if s[a + k + 1] == q {
                    lemma_lit_transfer(s, a, t, b, m, k + 2, q);
                }
            } else {
                if a + k + 1 < s.len() && s[a + k + 1] == q {
                    if a + k + 2 < s.len() {
                        lemma_lit_end_after(s, a + k + 2, q);
                    }
                    lemma_lit_end(s, a + k + 2, q);
                }
            }
        } else {
            lemma_lit_transfer(s, a, t, b, m, k + 1, q);
        }
    }
}

/// A literal that runs to the end of the text still does after its
/// trailing whitespace is cut.
pub proof fn lemma_lit_open_trim(v: Seq<char>, w: int, k: int, q: char)
    requires
        0 < w <= v.len(),
        1 <= k <= w,
        forall|x: int| w <= x < v.len() ==> #[trigger] v[x] != q,
        lit_end(v, k, q) == v.len(),
    ensures
        lit_end(v.take(w), k, q) == w,
    decreases w - k,
{
    let t = v.take(w);
    if k < w {
        assert(t[k] == v[k]);
        if v[k] == q {
            if k + 1 < w {
                assert(t[k + 1] == v[k + 1]);
                if v[k + 1] == q {
                    lemma_lit_open_trim(v, w, k + 2, q);
                } else {
                    assert(lit_end(v, k, q) == k + 1);
                }
            } else {
                if k + 1 < v.len() {
                    assert(v[k + 1] != q);
                    assert(lit_end(v, k, q) == k + 1);
                }
            }
        } else {
            lemma_lit_open_trim(v, w, k + 1, q);
        }
    }
}

// ---------------------------------------------------------------------------
// Token texts and how they scan
// ---------------------------------------------------------------------------

pub open spec fn all_word_chars(v: Seq<char>, from: int) -> bool {
    forall|k: int| from <= k < v.len() ==> is_word_char(#[trigger] v[k])
}

pub open spec fn all_bind_chars(v: Seq<char>, from: int) -> bool {
    forall|k: int| from <= k < v.len() ==> is_bind_char(#[trigger] v[k])
}

pub open spec fn all_op_chars(v: Seq<char>, from: int) -> bool {
    forall|k: int| from <= k < v.len() ==> is_op_char(#[trigger] v[k])
}

pub open spec fn no_newline(v: Seq<char>) -> bool {
    forall|k: int| 0 <= k < v.len() ==> #[trigger] v[k] != '\n'
}

pub open spec fn is_punct(c: char) -> bool {
    c == '(' || c == ')' || c == ',' || c == ';' || c == '.'
}

/// A character that the tokenizer takes as an operator of its own.
pub open spec fn single_op_char(c: char) -> bool {
    !char_is_whitespace(c) && !is_quote(c) && !is_word_start(c) && !is_punct(c) && !is_op_start(c)
}

/// The quotes of a quoted text: `'` of a string literal, `"` of a quoted name.
pub open spec fn is_quote(c: char) -> bool {
    c == '\'' || c == '"'
}

pub open spec fn lit_closed(v: Seq<char>) -> bool {
    v.len() >= 2 && is_quote(v[0]) && lit_end(v.push(' '), 1, v[0]) == v.len()
}

pub open spec fn lit_open(v: Seq<char>) -> bool {
    v.len() >= 1 && is_quote(v[0]) && lit_end(v, 1, v[0]) == v.len()
}

pub open spec fn block_closed(v: Seq<char>) -> bool {
    v.len() >= 4 && v[0] == '/' && v[1] == '*' && no_close_between(v, 2, v.len() - 2) && closes_at(
        v,
        v.len() - 2,
    )
}

pub open spec fn block_open(v: Seq<char>) -> bool {
    v.len() >= 2 && v[0] == '/' && v[1] == '*' && no_close_between(v, 2, v.len() - 1)
        && !char_is_whitespace(v.last())
}

pub open spec fn line_comment(v: Seq<char>) -> bool {
    v.len() >= 2 && v[0] == '-' && v[1] == '-' && no_newline(v) && !char_is_whitespace(v.last())
}

/// The text of a token, as the tokenizer makes it.
pub open spec fn text_ok(t: SToken) -> bool {
    let v = t.val;
    v.len() >= 1 && !char_is_whitespace(v[0]) && (t.kind != TokenKind::StringLit
        ==> !char_is_whitespace(v.last())) && match t.kind {
        TokenKind::Word => is_word_start(v[0]) && all_word_chars(v, 1),
        TokenKind::Bind => v.len() >= 2 && v[0] == ':' && all_bind_chars(v, 1),
        TokenKind::Op => (is_op_start(v[0]) && all_op_chars(v, 1)) || (v.len() == 1 && single_op_char(
            v[0],
        )),
        TokenKind::StringLit => lit_closed(v) || lit_open(v),
        TokenKind::Comment => line_comment(v) || block_closed(v) || block_open(v),
        TokenKind::OpenParen => v == seq!['('],
        TokenKind::CloseParen => v == seq![')'],
        TokenKind::Comma => v == seq![','],
        TokenKind::Semicolon => v == seq![';'],
        TokenKind::Dot => v == seq!['.'],
    }
}

/// A token that only the end of the text can end.
pub open spec fn is_open(t: SToken) -> bool {
    (t.kind == TokenKind::StringLit && !lit_closed(t.val)) || (t.kind == TokenKind::Comment
        && !line_comment(t.val) && !block_closed(t.val))
}

/// Whether the token still ends where it does when `c` follows it.
pub open spec fn next_char_ok(t: SToken, c: char) -> bool {
    let v = t.val;
    match t.kind {
        TokenKind::Word => !is_word_char(c),
        TokenKind::Bind => !is_bind_char(c),
        TokenKind::Op => if is_op_start(v[0]) {
            !is_op_char(c)
        } else {
            !(v[0] == '-' && c == '-') && !(v[0] == '/' && c == '*') && !(v[0] == ':'
                && is_bind_char(c))
        },
        TokenKind::StringLit => c != v[0],
        TokenKind::Comment => if line_comment(v) {
            c == '\n'
        } else {
            true
        },
        _ => true,
    }
}

/// Whether the token, placed so that it ends at `e`, ends there.
pub open spec fn fits_at(t: SToken, s: Seq<char>, e: int) -> bool {
    e == s.len() || (!is_open(t) && next_char_ok(t, s[e]))
}

pub proof fn lemma_trim_fixed(v: Seq<char>)
    requires
        v.len() >= 1,
        !char_is_whitespace(v[0]),
        !char_is_whitespace(v.last()),
    ensures
        trim(v) == v,
{
    assert(trim_end(v) == v);
    assert(trim_start(v) == v);
}

pub proof fn lemma_ascii(c: char)
    requires
        ascii_classes_known(),
        layout_char(c),
    ensures
        char_is_whitespace(c) <==> ascii_ws(c),
        char_is_alphabetic(c) <==> ascii_alpha(c),
        char_is_alphanumeric(c) <==> (ascii_alpha(c) || ascii_digit(c)),
{
}

/// The classes of the characters the layout writes or checks.
pub proof fn lemma_layout_chars()
    requires
        ascii_classes_known(),
    ensures
        char_is_whitespace(' ') && char_is_whitespace('\n'),
        !is_word_char(' ') && !is_word_char('\n') && !is_bind_char(' ') && !is_bind_char('\n'),
        !is_op_char(' ') && !is_op_char('\n'),
        !is_word_start('-') && !is_word_start('/') && !is_word_start('\'') && !is_word_start('"') && !is_word_start(':'),
        !is_word_start('(') && !is_word_start(')') && !is_word_start(',') && !is_word_start(';')
            && !is_word_start('.'),
        !is_word_start('>') && !is_word_start('<') && !is_word_start('!') && !is_word_start('=')
            && !is_word_start('|'),
        !is_word_char('(') && !is_word_char(')') && !is_word_char(',') && !is_word_char(';')
            && !is_word_char('.'),
        !is_bind_char('(') && !is_bind_char(')') && !is_bind_char(',') && !is_bind_char(';')
            && !is_bind_char('.'),
        !char_is_whitespace('(') && !char_is_whitespace(')') && !char_is_whitespace(',')
            && !char_is_whitespace(';') && !char_is_whitespace('.') && !char_is_whitespace('/')
            && !char_is_whitespace('\'') && !char_is_whitespace('"') && !char_is_whitespace('*') && !char_is_whitespace('-'),
        !char_is_whitespace('>') && !char_is_whitespace('<') && !char_is_whitespace('=')
            && !char_is_whitespace('|') && !char_is_whitespace('+') && !char_is_whitespace('!'),
        !char_is_whitespace('_') && !char_is_whitespace('$') && !char_is_whitespace('#'),
{
    lemma_ascii('+');
    lemma_ascii('_');
    lemma_ascii('$');
    lemma_ascii('#');
    lemma_ascii('*');
    lemma_ascii(' ');
    lemma_ascii('\n');
    lemma_ascii('-');
    lemma_ascii('/');
    lemma_ascii('\'');
    lemma_ascii('"');
    lemma_ascii(':');
    lemma_ascii('(');
    lemma_ascii(')');
    lemma_ascii(',');
    lemma_ascii(';');
    lemma_ascii('.');
    lemma_ascii('>');
    lemma_ascii('<');
    lemma_ascii('!');
    lemma_ascii('=');
    lemma_ascii('|');
}

pub proof fn lemma_sub_at(s: Seq<char>, p: int, v: Seq<char>, k: int)
    requires
        0 <= p,
        p + v.len() <= s.len(),
        s.subrange(p, p + v.len()) == v,
        0 <= k < v.len(),
    ensures
        s[p + k] == v[k],
{
    assert(s.subrange(p, p + v.len())[k] == s[p + k]);
}

/// A token text placed at `p` scans as that token when it fits there.
pub proof fn lemma_scan_text(s: Seq<char>, p: int, t: SToken)
    requires
        ascii_classes_known(),
        0 <= p,
        p + t.val.len() <= s.len(),
        s.subrange(p, p + t.val.len()) == t.val,
        text_ok(t),
        fits_at(t, s, p + t.val.len()),
    ensures
        !char_is_whitespace(s[p]),
        scan_token(s, p) == (t.kind, p + t.val.len(), t.val),
{
    let v = t.val;
    let e = p + v.len();
    lemma_layout_chars();
    lemma_sub_at(s, p, v, 0);
    if v.len() >= 2 {
        lemma_sub_at(s, p, v, 1);
    }
    assert(s.subrange(p, e) == v);
    match t.kind {
        TokenKind::Word => {
            assert forall|m: int| p + 1 <= m < e implies is_word_char(#[trigger] s[m]) by {
                lemma_sub_at(s, p, v, m - p);
            }
            lemma_word_end_at(s, p + 1, e);
        },
        TokenKind::Bind => {
            assert forall|m: int| p + 1 <= m < e implies is_bind_char(#[trigger] s[m]) by {
                lemma_sub_at(s, p, v, m - p);
            }
            lemma_bind_end_at(s, p + 1, e);
        },
        TokenKind::Op => {
            if is_op_start(v[0]) && all_op_chars(v, 1) {
                assert forall|m: int| p + 1 <= m < e implies is_op_char(#[trigger] s[m]) by {
                    lemma_sub_at(s, p, v, m - p);
                }
                lemma_op_end_at(s, p + 1, e);
            } else {
                assert(v.len() == 1);
                assert(s.subrange(p, p + 1) == v);
            }
        },
        TokenKind::StringLit => {
            if lit_closed(v) {
                assert(v.push(' ').subrange(0, v.len() as int) == v);
                lemma_lit_transfer(v.push(' '), 0, s, p, v.len() as int, 1, v[0]);
            } else {
                assert(e == s.len());
                assert(v.subrange(0, v.len() as int) == v);
                lemma_lit_transfer(v, 0, s, p, v.len() as int, 1, v[0]);
            }
        },
        TokenKind::Comment => {
            lemma_sub_at(s, p, v, v.len() - 1);
            if line_comment(v) {
                assert forall|m: int| p + 2 <= m < e implies #[trigger] s[m] != '\n' by {
                    lemma_sub_at(s, p, v, m - p);
                }
                lemma_line_end_at(s, p + 2, e);
                lemma_trim_fixed(v);
            } else if block_closed(v) {
                assert forall|m: int| p + 2 <= m < e - 2 implies #[trigger] not_close_at(s, m) by {
                    lemma_sub_at(s, p, v, m - p);
                    lemma_sub_at(s, p, v, m - p + 1);
                    assert(not_close_at(v, m - p));
                }
                lemma_sub_at(s, p, v, v.len() - 2);
                lemma_block_end_at(s, p + 2, e - 2);
                lemma_trim_fixed(v);
            } else {
                assert(e == s.len());
                assert forall|m: int| p + 2 <= m < e - 1 implies #[trigger] not_close_at(s, m) by {
                    lemma_sub_at(s, p, v, m - p);
                    lemma_sub_at(s, p, v, m - p + 1);
                    assert(not_close_at(v, m - p));
                }
                if e - 1 >= p + 2 {
                    lemma_block_end_at(s, p + 2, e - 1);
                } else {
                    lemma_block_end_at(s, p + 2, p + 2);
                }
                lemma_trim_fixed(v);
            }
        },
        _ => {
            assert(v.len() == 1);
            assert(s.subrange(p, p + 1) == v);
        },
    }
}

// ---------------------------------------------------------------------------
// The tokens the tokenizer makes
// ---------------------------------------------------------------------------

pub proof fn lemma_trim_end_head(x: Seq<char>)
    requires
        x.len() >= 1,
        !char_is_whitespace(x[0]),
    ensures
        1 <= trim_end(x).len() <= x.len(),
        trim_end(x) == x.take(trim_end(x).len() as int),
        !char_is_whitespace(trim_end(x).last()),
        forall|k: int| trim_end(x).len() <= k < x.len() ==> char_is_whitespace(#[trigger] x[k]),
        trim(x) == trim_end(x),
    decreases x.len(),
{
    if char_is_whitespace(x.last()) {
        assert(x.len() >= 2);
        let y = x.drop_last();
        lemma_trim_end_head(y);
        assert(trim_end(x) == trim_end(y));
        assert(y.take(trim_end(y).len() as int) == x.take(trim_end(y).len() as int));
        assert forall|k: int| trim_end(x).len() <= k < x.len() implies char_is_whitespace(#[trigger] x[k]) by {
            if k < y.len() {
                assert(y[k] == x[k]);
            }
        }
    } else {
        assert(trim_end(x) == x);
        assert(x.take(x.len() as int) == x);
    }
    let te = trim_end(x);
    assert(te[0] == x[0]);
    assert(trim_start(te) == te);
}

pub proof fn lemma_lit_end_stop(s: Seq<char>, k: int, q: char)
    requires
        0 <= k <= s.len(),
        lit_end(s, k, q) < s.len(),
    ensures
        lit_end(s, k, q) >= 1,
        s[lit_end(s, k, q) - 1] == q,
        s[lit_end(s, k, q)] != q,
    decreases s.len() - k,
{
    if k < s.len() {
        if s[k] == q {
            if k + 1 < s.len() && s[k + 1] == q {
                lemma_lit_end_stop(s, k + 2, q);
            }
        } else {
            lemma_lit_end_stop(s, k + 1, q);
        }
    }
}

/// Each token the tokenizer reads has the text of its kind, and only the
/// last one can be left open.
pub proof fn lemma_scan_ok(s: Seq<char>, i: int)
    requires
        ascii_classes_known(),
        0 <= i < s.len(),
        !char_is_whitespace(s[i]),
    ensures
        text_ok(SToken { kind: scan_token(s, i).0, val: scan_token(s, i).2 }),
        scan_token(s, i).1 < s.len() ==> !is_open(SToken { kind: scan_token(s, i).0, val: scan_token(s, i).2 }),
{
    lemma_layout_chars();
    lemma_scan_token_advances(s, i);
    let c = s[i];
    let r = scan_token(s, i);
    let t = SToken { kind: r.0, val: r.2 };
    let j = r.1;
    if c == '-' && i + 1 < s.len() && s[i + 1] == '-' {
        lemma_line_end_char(s, i + 2);
        let x = s.subrange(i, j);
        assert(x[0] == '-');
        lemma_trim_end_head(x);
        let v = trim(x);
        assert(v == x.take(v.len() as int));
        assert(x[1] == '-');
        assert(v.len() >= 2) by {
            assert(!char_is_whitespace(x[1]));
            if v.len() < 2 {
                assert(char_is_whitespace(x[1]));
            }
        }
        assert forall|k: int| 0 <= k < v.len() implies #[trigger] v[k] != '\n' by {
            assert(v[k] == x[k]);
            assert(x[k] == s[i + k]);
        }
        assert(line_comment(v));
    } else if c == '/' && i + 1 < s.len() && s[i + 1] == '*' {
        lemma_block_end_char(s, i + 2);
        let be = block_end(s, i + 2);
        let x = s.subrange(i, j);
        assert(x[0] == '/');
        assert(x[1] == '*');
        lemma_trim_end_head(x);
        let v = trim(x);
        if be + 1 < s.len() {
            assert(j == be + 2);
            assert(x.last() == '/');
            assert(trim_end(x) == x);
            assert(v == x);
            assert forall|m: int| 2 <= m < v.len() - 2 implies #[trigger] not_close_at(v, m) by {
                assert(not_close_at(s, i + m));
                assert(v[m] == s[i + m]);
                assert(v[m + 1] == s[i + m + 1]);
            }
            assert(v[v.len() - 2] == s[be]);
            assert(block_closed(v));
        } else {
            assert(j == s.len());
            assert(v == x.take(v.len() as int));
            assert(v.len() >= 2) by {
                assert(!char_is_whitespace(x[1]));
                if v.len() < 2 {
                    assert(char_is_whitespace(x[1]));
                }
            }
            assert forall|m: int| 2 <= m < v.len() - 1 implies #[trigger] not_close_at(v, m) by {
                assert(i + 2 <= i + m);
                if i + m < be {
                    assert(not_close_at(s, i + m));
                }
                assert(v[m] == s[i + m]);
                assert(v[m + 1] == s[i + m + 1]);
            }
            assert(block_open(v));
        }
    } else if c == '\'' || c == '"' {
        lemma_lit_end(s, i + 1, c);
        let v = s.subrange(i, j);
        let m = v.len() as int;
        if j < s.len() {
            lemma_lit_end_after(s, i + 1, c);
            lemma_lit_end_stop(s, i + 1, c);
            assert(v.push(' ').subrange(0, m) == v);
            assert(s.subrange(i, i + m) == v);
            lemma_lit_transfer(s, i, v.push(' '), 0, m, 1, c);
            assert(lit_closed(v));
        } else {
            assert(v.subrange(0, m) == v);
            lemma_lit_transfer(s, i, v, 0, m, 1, c);
            assert(lit_open(v));
        }
    } else if c == ':' && i + 1 < s.len() && is_bind_char(s[i + 1]) {
        lemma_bind_end_char(s, i + 1);
        let v = s.subrange(i, j);
        assert forall|k: int| 1 <= k < v.len() implies is_bind_char(#[trigger] v[k]) by {
            assert(v[k] == s[i + k]);
        }
        assert(is_bind_char(v.last()));
        assert(v.last() == s[j - 1]);
    } else if is_word_start(c) {
        lemma_word_end_char(s, i + 1);
        let v = s.subrange(i, j);
        assert forall|k: int| 1 <= k < v.len() implies is_word_char(#[trigger] v[k]) by {
            assert(v[k] == s[i + k]);
        }
        assert(v.last() == s[j - 1]);
        if v.len() > 1 {
            assert(is_word_char(v.last()));
        }
    } else if c == '(' || c == ')' || c == ',' || c == ';' || c == '.' {
        assert(s.subrange(i, i + 1) =~= seq![c]);
    } else if is_op_start(c) {
        lemma_op_end_char(s, i + 1);
        let v = s.subrange(i, j);
        assert forall|k: int| 1 <= k < v.len() implies is_op_char(#[trigger] v[k]) by {
            assert(v[k] == s[i + k]);
        }
        if v.len() > 1 {
            assert(is_op_char(v.last()));
        }
    } else {
        assert(s.subrange(i, i + 1) =~= seq![c]);
    }
}

pub open spec fn toks_ok(ts: Seq<SToken>) -> bool {
    &&& forall|k: int| 0 <= k < ts.len() ==> text_ok(#[trigger] ts[k])
    &&& forall|k: int| 0 <= k < ts.len() - 1 ==> !is_open(#[trigger] ts[k])
}

pub proof fn lemma_lex_ok(s: Seq<char>, i: int)
    requires
        ascii_classes_known(),
        0 <= i,
    ensures
        toks_ok(lex_from(s, i)),
    decreases s.len() - i,
{
    if i < s.len() {
        if char_is_whitespace(s[i]) {
            lemma_lex_ok(s, i + 1);
        } else {
            lemma_scan_token_advances(s, i);
            lemma_scan_ok(s, i);
            let r = scan_token(s, i);
            lemma_lex_ok(s, r.1);
            let rest = lex_from(s, r.1);
            let ts = lex_from(s, i);
            assert(ts == seq![SToken { kind: r.0, val: r.2 }] + rest);
            assert forall|k: int| 0 <= k < ts.len() implies text_ok(#[trigger] ts[k]) by {
                if k > 0 {
                    assert(ts[k] == rest[k - 1]);
                }
            }
            assert forall|k: int| 0 <= k < ts.len() - 1 implies !is_open(#[trigger] ts[k]) by {
                if k > 0 {
                    assert(ts[k] == rest[k - 1]);
                } else {
                    if r.1 == s.len() {
                        assert(rest.len() == 0);
                    }
                }
            }
        }
    }
}

// ---------------------------------------------------------------------------
// Text made of separated token texts
// ---------------------------------------------------------------------------

/// A token text and the whitespace before it.
pub struct Seg {
    pub sep: Seq<char>,
    pub tok: SToken,
}

pub open spec fn seg_text(g: Seg) -> Seq<char> {
    g.sep + g.tok.val
}

pub open spec fn segs_text(gs: Seq<Seg>) -> Seq<char>
    decreases gs.len(),
{
    if gs.len() == 0 {
        seq![]
    } else {
        seg_text(gs[0]) + segs_text(gs.drop_first())
    }
}

pub open spec fn seg_toks(gs: Seq<Seg>) -> Seq<SToken> {
    gs.map_values(|g: Seg| g.tok)
}

pub open spec fn all_ws(w: Seq<char>) -> bool {
    forall|k: int| 0 <= k < w.len() ==> char_is_whitespace(#[trigger] w[k])
}

/// The token still ends where it does when the segment follows it.
pub open spec fn follows(t: SToken, g: Seg) -> bool {
    next_char_ok(t, seg_text(g)[0])
}

pub open spec fn seg_ok(g: Seg) -> bool {
    all_ws(g.sep) && text_ok(g.tok)
}

pub open spec fn segs_ok(gs: Seq<Seg>) -> bool {
    &&& forall|k: int| 0 <= k < gs.len() ==> seg_ok(#[trigger] gs[k])
    &&& forall|k: int|
        0 <= k < gs.len() - 1 ==> !is_open(#[trigger] gs[k].tok) && follows(gs[k].tok, gs[k + 1])
}

pub proof fn lemma_skip_ws(s: Seq<char>, q: int, w: Seq<char>)
    requires
        0 <= q,
        q + w.len() <= s.len(),
        s.subrange(q, q + w.len()) == w,
        all_ws(w),
    ensures
        lex_from(s, q) == lex_from(s, q + w.len()),
    decreases w.len(),
{
    if w.len() > 0 {
        assert(s.subrange(q, q + w.len())[0] == s[q]);
        assert(char_is_whitespace(w[0]));
        let w2 = w.drop_first();
        assert(s.subrange(q + 1, q + 1 + w2.len()) == w2);
        lemma_skip_ws(s, q + 1, w2);
    }
}

/// Text made of token texts, each after whitespace, where every token
/// ends where its text does, reads back as those tokens.
pub proof fn lemma_lex_segs(s: Seq<char>, q: int, gs: Seq<Seg>)
    requires
        ascii_classes_known(),
        0 <= q <= s.len(),
        s.subrange(q, s.len() as int) == segs_text(gs),
        segs_ok(gs),
    ensures
        lex_from(s, q) == seg_toks(gs),
    decreases gs.len(),
{
    if gs.len() == 0 {
        assert(s.subrange(q, s.len() as int).len() == 0);
        assert(seg_toks(gs) =~= Seq::<SToken>::empty());
    } else {
        let g = gs[0];
        let rest = gs.drop_first();
        assert(seg_ok(gs[0]));
        let w = g.sep;
        let v = g.tok.val;
        let p = q + w.len();
        let e = p + v.len();
        assert(segs_text(gs) == w + v + segs_text(rest));
        assert(s.subrange(q, s.len() as int) == w + v + segs_text(rest));
        assert(s.subrange(q, p) == w) by {
            assert(s.subrange(q, p) =~= s.subrange(q, s.len() as int).subrange(0, w.len() as int));
        }
        assert(s.subrange(p, e) == v) by {
            assert(s.subrange(p, e) =~= s.subrange(q, s.len() as int).subrange(w.len() as int, (w.len() + v.len()) as int));
        }
        assert(s.subrange(e, s.len() as int) == segs_text(rest)) by {
            assert(s.subrange(e, s.len() as int) =~= s.subrange(q, s.len() as int).subrange((w.len() + v.len()) as int, s.len() - q));
        }
        lemma_skip_ws(s, q, w);
        assert(segs_ok(rest)) by {
            assert forall|k: int| 0 <= k < rest.len() implies seg_ok(#[trigger] rest[k]) by {
                assert(rest[k] == gs[k + 1]);
            }
            assert forall|k: int| 0 <= k < rest.len() - 1 implies !is_open(#[trigger] rest[k].tok) && follows(rest[k].tok, rest[k + 1]) by {
                assert(rest[k] == gs[k + 1]);
                assert(rest[k + 1] == gs[k + 2]);
            }
        }
        if rest.len() > 0 {
            assert(!is_open(gs[0].tok) && follows(gs[0].tok, gs[1]));
            assert(rest[0] == gs[1]);
            assert(seg_ok(gs[1]));
            assert(segs_text(rest) == seg_text(rest[0]) + segs_text(rest.drop_first()));
            assert(s[e] == segs_text(rest)[0]) by {
                assert(s.subrange(e, s.len() as int)[0] == s[e]);
            }
            assert(seg_text(gs[1])[0] == segs_text(rest)[0]);
        } else {
            assert(segs_text(rest) == Seq::<char>::empty());
            assert(e == s.len());
        }
        lemma_scan_text(s, p, g.tok);
        lemma_lex_segs(s, e, rest);
        assert(lex_from(s, p) == seq![g.tok] + lex_from(s, e));
        assert(seg_toks(gs) =~= seq![g.tok] + seg_toks(rest));
    }
}

// ---------------------------------------------------------------------------
// Trailing whitespace
// ---------------------------------------------------------------------------

pub proof fn lemma_trim_end_last(x: Seq<char>)
    requires
        x.len() >= 1,
        !char_is_whitespace(x.last()),
    ensures
        trim_end(x) == x,
{
}

pub proof fn lemma_trim_end_space(x: Seq<char>, c: char)
    requires
        char_is_whitespace(c),
    ensures
        trim_end(x.push(c)) == trim_end(x),
{
    assert(x.push(c).drop_last() == x);
}

pub proof fn lemma_trim_end_concat(a: Seq<char>, b: Seq<char>)
    requires
        trim_end(b).len() > 0,
    ensures
        trim_end(a + b) == a + trim_end(b),
    decreases b.len(),
{
    if b.len() > 0 && char_is_whitespace(b.last()) {
        assert((a + b).drop_last() == a + b.drop_last());
        lemma_trim_end_concat(a, b.drop_last());
    } else {
        assert(b.len() > 0);
        assert((a + b).last() == b.last());
    }
}

pub proof fn lemma_blank(x: Seq<char>)
    ensures
        trim_end(x).len() == 0 <==> all_ws(x),
    decreases x.len(),
{
    if x.len() > 0 && char_is_whitespace(x.last()) {
        lemma_blank(x.drop_last());
        if all_ws(x.drop_last()) {
            assert forall|k: int| 0 <= k < x.len() implies char_is_whitespace(#[trigger] x[k]) by {
                if k < x.len() - 1 {
                    assert(x.drop_last()[k] == x[k]);
                }
            }
        }
        if all_ws(x) {
            assert forall|k: int| 0 <= k < x.drop_last().len() implies char_is_whitespace(#[trigger] x.drop_last()[k]) by {
                assert(x.drop_last()[k] == x[k]);
            }
        }
    } else if x.len() > 0 {
        assert(!all_ws(x)) by {
            assert(!char_is_whitespace(x[x.len() - 1]));
        }
    }
}

/// `trim_end(x)` is a prefix of `x`, and what follows it is whitespace.
pub proof fn lemma_trim_end_split(x: Seq<char>)
    ensures
        trim_end(x).len() <= x.len(),
        x.take(trim_end(x).len() as int) == trim_end(x),
        all_ws(x.skip(trim_end(x).len() as int)),
        trim_end(x).len() > 0 ==> !char_is_whitespace(trim_end(x).last()),
    decreases x.len(),
{
    if x.len() > 0 && char_is_whitespace(x.last()) {
        let y = x.drop_last();
        lemma_trim_end_split(y);
        let n = trim_end(y).len() as int;
        assert(trim_end(x) == trim_end(y));
        assert(y.take(n) == x.take(n));
        assert forall|k: int| 0 <= k < x.skip(n).len() implies char_is_whitespace(#[trigger] x.skip(n)[k]) by {
            if n + k < y.len() {
                assert(x.skip(n)[k] == y.skip(n)[k]);
            } else {
                assert(x.skip(n)[k] == x.last());
            }
        }
    } else {
        assert(trim_end(x) == x);
        assert(x.take(x.len() as int) == x);
        assert(x.skip(x.len() as int) == Seq::<char>::empty());
    }
}

// ---------------------------------------------------------------------------
// The text the line builder has produced so far
// ---------------------------------------------------------------------------

/// The output if the builder stopped now.
pub open spec fn ct(st: RenderState) -> Seq<char> {
    join_lines(flush(st.lines, st.cur))
}

pub open spec fn blank(x: Seq<char>) -> bool {
    trim_end(x).len() == 0
}

/// The whitespace that goes before a text written after `c`, where `c`
/// is the current line or the current line without its trailing space.
pub open spec fn gap(st: RenderState, c: Seq<char>) -> Seq<char> {
    if !blank(st.cur) {
        c.skip(trim_end(st.cur).len() as int)
    } else {
        (if st.lines.len() > 0 {
            seq!['\n']
        } else {
            seq![]
        }) + c
    }
}

/// The line break before a text that starts a line.
pub open spec fn nl(st: RenderState) -> Seq<char> {
    if flush(st.lines, st.cur).len() > 0 {
        seq!['\n']
    } else {
        seq![]
    }
}

pub proof fn lemma_join_push(ls: Seq<Seq<char>>, x: Seq<char>)
    ensures
        join_lines(ls.push(x)) == join_lines(ls) + (if ls.len() > 0 {
            seq!['\n']
        } else {
            seq![]
        }) + x,
{
    assert(ls.push(x).drop_last() == ls);
    if ls.len() == 0 {
        assert(join_lines(ls) == Seq::<char>::empty());
        assert(ls.push(x).len() == 1);
    }
}

/// Appending `y` after `c` (the current line or the current line without
/// its trailing whitespace) adds the gap and `y` to the output.
pub proof fn lemma_append(st: RenderState, c: Seq<char>, y: Seq<char>)
    requires
        ascii_classes_known(),
        c == st.cur || c == trim_end(st.cur),
    ensures
        join_lines(st.lines.push(c + y)) == ct(st) + gap(st, c) + y,
        all_ws(gap(st, c)),
{
    lemma_trim_end_split(st.cur);
    let te = trim_end(st.cur);
    lemma_join_push(st.lines, c + y);
    lemma_blank(st.cur);
    if !blank(st.cur) {
        lemma_join_push(st.lines, te);
        assert(flush(st.lines, st.cur) == st.lines.push(te));
        assert(c == te + c.skip(te.len() as int)) by {
            if c == st.cur {
                assert(st.cur.take(te.len() as int) == te);
                assert(c =~= c.take(te.len() as int) + c.skip(te.len() as int));
            } else {
                assert(c.skip(te.len() as int) =~= Seq::<char>::empty());
                assert(c =~= te + c.skip(te.len() as int));
            }
        }
        assert(all_ws(gap(st, c))) by {
            if c == st.cur {
            } else {
                assert(c.skip(te.len() as int) =~= Seq::<char>::empty());
            }
        }
        assert(join_lines(st.lines.push(c + y)) =~= ct(st) + gap(st, c) + y);
    } else {
        assert(flush(st.lines, st.cur) == st.lines);
        assert(all_ws(c)) by {
            if c == st.cur {
            } else {
                assert(c.len() == 0);
            }
        }
        assert(all_ws(gap(st, c))) by {
            let g = gap(st, c);
            assert forall|k: int| 0 <= k < g.len() implies char_is_whitespace(#[trigger] g[k]) by {
                if st.lines.len() > 0 {
                    if k > 0 {
                        assert(g[k] == c[k - 1]);
                    } else {
                        assert(g[0] == '\n');
                        lemma_layout_chars();
                    }
                } else {
                    assert(g[k] == c[k]);
                }
            }
        }
        assert(join_lines(st.lines.push(c + y)) =~= ct(st) + gap(st, c) + y);
    }
}

// ---------------------------------------------------------------------------
// What each step of the line builder writes
// ---------------------------------------------------------------------------

pub open spec fn word_tok(w: Seq<char>) -> SToken {
    SToken { kind: TokenKind::Word, val: w }
}

/// Whether the step at `idx` starts a clause line.
pub open spec fn takes_clause(toks: Seq<SToken>, idx: int, st: RenderState) -> bool {
    let t = toks[idx];
    let cand = candidate_at(toks, idx);
    let is_clause = st.prev != Some(TokenKind::Dot) && t.kind == TokenKind::Word && (compound_at(
        toks,
        idx,
    ) is Some || single_clause_word(cand));
    let inline = st.paren > st.subq && (cand == kw_and() || cand == kw_or() || cand == two_words(
        kw_order(),
        kw_by(),
    ));
    is_clause && !inline
}

/// The word tokens a clause keyword is written as.
pub open spec fn clause_segs(lead: Seq<char>, cand: Seq<char>) -> Seq<Seg> {
    if cand == two_words(kw_order(), kw_by()) {
        seq![Seg { sep: lead, tok: word_tok(kw_order()) }, Seg { sep: seq![' '], tok: word_tok(kw_by()) }]
    } else if cand == two_words(kw_group(), kw_by()) {
        seq![Seg { sep: lead, tok: word_tok(kw_group()) }, Seg { sep: seq![' '], tok: word_tok(kw_by()) }]
    } else if cand == two_words(kw_left(), kw_join()) {
        seq![Seg { sep: lead, tok: word_tok(kw_left()) }, Seg { sep: seq![' '], tok: word_tok(kw_join()) }]
    } else if cand == two_words(kw_right(), kw_join()) {
        seq![Seg { sep: lead, tok: word_tok(kw_right()) }, Seg { sep: seq![' '], tok: word_tok(kw_join()) }]
    } else if cand == two_words(kw_inner(), kw_join()) {
        seq![Seg { sep: lead, tok: word_tok(kw_inner()) }, Seg { sep: seq![' '], tok: word_tok(kw_join()) }]
    } else {
        seq![Seg { sep: lead, tok: word_tok(cand) }]
    }
}

pub open spec fn paren_glued(st: RenderState) -> bool {
    st.cur.len() > 0 && st.cur.last() == ' ' && st.prev == Some(TokenKind::Word) && !st.prev_as_in
}

/// The token texts that the step at `idx` writes, each with the
/// whitespace written before it.
pub open spec fn emit_step(toks: Seq<SToken>, idx: int, st: RenderState) -> Seq<Seg> {
    let t = toks[idx];
    if takes_clause(toks, idx, st) {
        let cand = candidate_at(toks, idx);
        clause_segs(nl(st) + indent(st.subq) + clause_prefix(cand), cand)
    } else {
        match t.kind {
            TokenKind::OpenParen => {
                let c = if paren_glued(st) {
                    trim_end(st.cur)
                } else {
                    st.cur
                };
                seq![Seg { sep: gap(st, c), tok: t }]
            },
            TokenKind::CloseParen => seq![Seg { sep: gap(st, glue(st.cur)), tok: t }],
            TokenKind::Dot => seq![Seg { sep: gap(st, glue(st.cur)), tok: t }],
            TokenKind::Comma => seq![Seg { sep: gap(st, glue(st.cur)), tok: t }],
            TokenKind::Semicolon => seq![Seg { sep: gap(st, glue(st.cur)), tok: t }],
            TokenKind::Comment => seq![Seg { sep: nl(st) + indent(st.subq), tok: t }],
            _ => seq![Seg { sep: gap(st, st.cur), tok: SToken { kind: t.kind, val: trim_end(t.val) } }],
        }
    }
}

pub proof fn lemma_step_advances(toks: Seq<SToken>, idx: int, st: RenderState)
    requires
        0 <= idx < toks.len(),
    ensures
        idx < step(toks, idx, st).0 <= toks.len(),
{
    if compound_at(toks, idx) is Some {
        assert(idx + 1 < toks.len());
    }
}

/// The token texts written from step `idx` on.
pub open spec fn emit_from(toks: Seq<SToken>, idx: int, st: RenderState) -> Seq<Seg>
    decreases toks.len() - idx,
{
    if idx < 0 || idx >= toks.len() {
        seq![]
    } else {
        let (i2, st2) = step(toks, idx, st);
        proof {
            lemma_step_advances(toks, idx, st);
        }
        emit_step(toks, idx, st) + emit_from(toks, i2, st2)
    }
}

pub open spec fn nospace(k: TokenKind) -> bool {
    k == TokenKind::OpenParen || k == TokenKind::Dot || k == TokenKind::Semicolon
}

/// A written token text: the text of its kind, ending in a visible character.
pub open spec fn seg_tok_ok(t: SToken) -> bool {
    text_ok(t) && !char_is_whitespace(t.val.last())
}

/// What the builder's state says of the last token text it wrote.
pub open spec fn inv(st: RenderState, last: Option<SToken>) -> bool {
    match last {
        None => st.lines.len() == 0 && st.cur.len() == 0,
        Some(l) => {
            &&& seg_tok_ok(l)
            &&& flush(st.lines, st.cur).len() > 0
            &&& (blank(st.cur) || (l.kind != TokenKind::Comment && st.prev == Some(l.kind)
                && (if nospace(l.kind) {
                st.cur == trim_end(st.cur)
            } else {
                st.cur == trim_end(st.cur).push(' ')
            })))
        },
    }
}

pub open spec fn step_good(toks: Seq<SToken>, idx: int, st: RenderState, last: Option<SToken>) -> bool {
    let r = step(toks, idx, st);
    let e = emit_step(toks, idx, st);
    &&& ct(r.1) == ct(st) + segs_text(e)
    &&& e.len() >= 1
    &&& segs_ok(e)
    &&& forall|k: int| 0 <= k < e.len() ==> seg_tok_ok(#[trigger] e[k].tok)
    &&& (last matches Some(l) ==> follows(l, e[0]))
    &&& (r.0 < toks.len() ==> inv(r.1, Some(e.last().tok)) && !is_open(e.last().tok))
}

pub proof fn lemma_next_chars(l: SToken)
    requires
        ascii_classes_known(),
        seg_tok_ok(l),
    ensures
        next_char_ok(l, '\n'),
        l.kind != TokenKind::Comment ==> next_char_ok(l, ' ') && next_char_ok(l, ')')
            && next_char_ok(l, '.') && next_char_ok(l, ';') && next_char_ok(l, ','),
        l.kind == TokenKind::Word ==> next_char_ok(l, '('),
{
    lemma_layout_chars();
}

pub proof fn lemma_lit_closed_ends(v: Seq<char>)
    requires
        lit_closed(v),
    ensures
        v.last() == v[0],
{
    let s = v.push(' ');
    lemma_lit_end_stop(s, 1, v[0]);
    assert(s[v.len() - 1] == v.last());
}

/// The text a plain token is written as is a token text of its kind.
pub proof fn lemma_written_text(t: SToken)
    requires
        ascii_classes_known(),
        text_ok(t),
    ensures
        seg_tok_ok(SToken { kind: t.kind, val: trim_end(t.val) }),
        !is_open(t) ==> trim_end(t.val) == t.val,
        is_open(SToken { kind: t.kind, val: trim_end(t.val) }) ==> is_open(t),
{
    let v = t.val;
    lemma_trim_end_head(v);
    let w = trim_end(v);
    lemma_layout_chars();
    if t.kind == TokenKind::StringLit {
        if lit_closed(v) {
            lemma_lit_closed_ends(v);
            lemma_trim_end_last(v);
        } else {
            assert(lit_open(v));
            assert forall|x: int| w.len() <= x < v.len() implies #[trigger] v[x] != v[0] by {
                assert(char_is_whitespace(v[x]));
            }
            lemma_lit_open_trim(v, w.len() as int, 1, v[0]);
            assert(lit_open(w));
        }
    } else {
        lemma_trim_end_last(v);
    }
}

pub proof fn lemma_toks_at(toks: Seq<SToken>, idx: int)
    requires
        toks_ok(toks),
        0 <= idx < toks.len(),
    ensures
        text_ok(toks[idx]),
        is_open(toks[idx]) ==> idx == toks.len() - 1,
{
}

pub proof fn lemma_segs_one(g: Seg)
    ensures
        segs_text(seq![g]) == g.sep + g.tok.val,
        seq![g].last() == g,
        seq![g][0] == g,
{
    assert(seq![g].drop_first() =~= Seq::<Seg>::empty());
    assert(segs_text(seq![g].drop_first()) == Seq::<char>::empty());
}

/// What the state says of the gap before the next text.
pub proof fn lemma_gap_follows(st: RenderState, last: Option<SToken>, c: Seq<char>, first: char)
    requires
        ascii_classes_known(),
        inv(st, last),
        last matches Some(l) ==> !is_open(l),
        c == st.cur || c == trim_end(st.cur),
        last matches Some(l) ==> (gap(st, c).len() == 0 && !blank(st.cur) && !nospace(l.kind)
            ==> next_char_ok(l, first)),
    ensures
        last matches Some(l) ==> next_char_ok(l, (gap(st, c) + seq![first])[0]),
{
    match last {
        Some(l) => {
            lemma_next_chars(l);
            lemma_trim_end_split(st.cur);
            let te = trim_end(st.cur);
            let g = gap(st, c);
            if !blank(st.cur) {
                if nospace(l.kind) {
                    if g.len() > 0 {
                        assert(c == st.cur);
                        assert(false);
                    }
                } else {
                    if g.len() > 0 {
                        assert(st.cur == te.push(' '));
                        if c == st.cur {
                            assert(g =~= seq![' ']);
                        } else {
                            assert(g.len() == 0);
                        }
                    }
                }
            } else {
                assert(flush(st.lines, st.cur) == st.lines);
                assert(g[0] == '\n');
            }
        },
        None => {},
    }
}

pub open spec fn plain_kind(k: TokenKind) -> bool {
    k == TokenKind::Word || k == TokenKind::StringLit || k == TokenKind::Bind || k == TokenKind::Op
}

/// A word, literal, bind or operator that does not start a clause.
#[verifier::spinoff_prover]
#[verifier::rlimit(40)]
pub proof fn lemma_emit_plain(toks: Seq<SToken>, idx: int, st: RenderState, last: Option<SToken>)
    requires
        ascii_classes_known(),
        toks_ok(toks),
        0 <= idx < toks.len(),
        inv(st, last),
        last matches Some(l) ==> !is_open(l),
        !takes_clause(toks, idx, st),
        plain_kind(toks[idx].kind),
    ensures
        step_good(toks, idx, st, last),
{
    let t = toks[idx];
    let v = t.val;
    lemma_toks_at(toks, idx);
    lemma_written_text(t);
    lemma_trim_end_head(v);
    let w = trim_end(v);
    let tok2 = SToken { kind: t.kind, val: w };
    let r = step(toks, idx, st);
    let st2 = r.1;
    let e = emit_step(toks, idx, st);
    let g = Seg { sep: gap(st, st.cur), tok: tok2 };
    assert(e == seq![g]);
    lemma_segs_one(g);
    assert(st2.cur == st.cur + v + seq![' ']);
    assert(st2.lines == st.lines);
    assert(st2.prev == Some(t.kind));
    lemma_layout_chars();
    lemma_trim_end_space(st.cur + v, ' ');
    assert((st.cur + v).push(' ') == st.cur + v + seq![' ']);
    lemma_trim_end_concat(st.cur, v);
    assert(trim_end(st2.cur) == st.cur + w);
    assert(flush(st.lines, st2.cur) == st.lines.push(st.cur + w));
    lemma_append(st, st.cur, w);
    assert(ct(st2) == ct(st) + segs_text(e));
    assert(segs_ok(e)) by {
        assert(seg_ok(e[0]));
    }
    assert(seq![g][0].sep + seq![g][0].tok.val == g.sep + w);
    lemma_gap_follows(st, last, st.cur, w[0]);
    assert((gap(st, st.cur) + seq![w[0]])[0] == seg_text(g)[0]);
    if r.0 < toks.len() {
        assert(!is_open(t));
        assert(w == v);
        lemma_trim_end_last(st.cur + v);
        assert(st2.cur == trim_end(st2.cur).push(' '));
    }
}

pub proof fn lemma_spaces_blank(n: nat)
    requires
        ascii_classes_known(),
    ensures
        all_ws(spaces(n)),
        blank(spaces(n)),
{
    lemma_layout_chars();
    assert forall|k: int| 0 <= k < spaces(n).len() implies char_is_whitespace(#[trigger] spaces(n)[k]) by {
    }
    lemma_blank(spaces(n));
}

pub proof fn lemma_all_ws_concat(a: Seq<char>, b: Seq<char>)
    requires
        all_ws(a),
        all_ws(b),
    ensures
        all_ws(a + b),
{
    assert forall|k: int| 0 <= k < (a + b).len() implies char_is_whitespace(#[trigger] (a + b)[k]) by {
        if k < a.len() {
            assert((a + b)[k] == a[k]);
        } else {
            assert((a + b)[k] == b[k - a.len()]);
        }
    }
}

/// A closing parenthesis, dot, comma or semicolon: it attaches to the
/// text before it.
#[verifier::spinoff_prover]
#[verifier::rlimit(40)]
pub proof fn lemma_emit_attached(toks: Seq<SToken>, idx: int, st: RenderState, last: Option<SToken>)
    requires
        ascii_classes_known(),
        toks_ok(toks),
        0 <= idx < toks.len(),
        inv(st, last),
        last matches Some(l) ==> !is_open(l),
        !takes_clause(toks, idx, st),
        toks[idx].kind == TokenKind::CloseParen || toks[idx].kind == TokenKind::Dot
            || toks[idx].kind == TokenKind::Comma || toks[idx].kind == TokenKind::Semicolon,
    ensures
        step_good(toks, idx, st, last),
{
    let t = toks[idx];
    lemma_toks_at(toks, idx);
    lemma_layout_chars();
    let c = t.val[0];
    assert(t.val == seq![c]);
    let r = step(toks, idx, st);
    let st2 = r.1;
    let e = emit_step(toks, idx, st);
    let gc = glue(st.cur);
    let g = Seg { sep: gap(st, gc), tok: t };
    assert(e == seq![g]);
    lemma_segs_one(g);
    assert(gc == st.cur || gc == trim_end(st.cur));
    lemma_append(st, gc, seq![c]);
    let x = gc + seq![c];
    lemma_trim_end_last(x);
    lemma_trim_end_space(x, ' ');
    if t.kind == TokenKind::Comma && st.in_select && st.paren == st.subq {
        assert(st2.lines == flush(st.lines, gc + seq![',']));
        assert(st2.cur == indent(st.subq) + spaces(7));
        lemma_spaces_blank(4 * st.subq);
        lemma_spaces_blank(7);
        lemma_all_ws_concat(indent(st.subq), spaces(7));
        lemma_blank(st2.cur);
        assert(flush(st2.lines, st2.cur) == st2.lines);
        assert(st2.lines == st.lines.push(x));
    } else {
        if t.kind == TokenKind::CloseParen || t.kind == TokenKind::Comma {
            assert(st2.cur == x.push(' '));
        } else {
            assert(st2.cur == x);
        }
        assert(trim_end(st2.cur) == x);
        assert(flush(st.lines, st2.cur) == st.lines.push(x));
        assert(st2.lines == st.lines);
    }
    assert(ct(st2) == ct(st) + segs_text(e));
    assert(segs_ok(e)) by {
        assert(seg_ok(e[0]));
    }
    lemma_gap_follows(st, last, gc, c);
    assert((gap(st, gc) + seq![c])[0] == seg_text(g)[0]);
}

/// An opening parenthesis: it attaches to a word before it.
#[verifier::spinoff_prover]
#[verifier::rlimit(40)]
pub proof fn lemma_emit_open_paren(toks: Seq<SToken>, idx: int, st: RenderState, last: Option<SToken>)
    requires
        ascii_classes_known(),
        toks_ok(toks),
        0 <= idx < toks.len(),
        inv(st, last),
        last matches Some(l) ==> !is_open(l),
        !takes_clause(toks, idx, st),
        toks[idx].kind == TokenKind::OpenParen,
    ensures
        step_good(toks, idx, st, last),
{
    let t = toks[idx];
    lemma_toks_at(toks, idx);
    lemma_layout_chars();
    let r = step(toks, idx, st);
    let st2 = r.1;
    let e = emit_step(toks, idx, st);
    let c = if paren_glued(st) {
        trim_end(st.cur)
    } else {
        st.cur
    };
    let g = Seg { sep: gap(st, c), tok: t };
    assert(e == seq![g]);
    lemma_segs_one(g);
    lemma_append(st, c, seq!['(']);
    let x = c + seq!['('];
    lemma_trim_end_last(x);
    assert(st2.cur == x);
    assert(st2.lines == st.lines);
    assert(flush(st.lines, st2.cur) == st.lines.push(x));
    assert(ct(st2) == ct(st) + segs_text(e));
    assert(segs_ok(e)) by {
        assert(seg_ok(e[0]));
    }
    lemma_trim_end_split(st.cur);
    match last {
        Some(l) => {
            if gap(st, c).len() == 0 && !blank(st.cur) && !nospace(l.kind) {
                if paren_glued(st) {
                    lemma_next_chars(l);
                } else {
                    assert(st.cur == trim_end(st.cur).push(' '));
                    assert(gap(st, c) =~= seq![' ']);
                }
            }
        },
        None => {},
    }
    lemma_gap_follows(st, last, c, '(');
    assert((gap(st, c) + seq!['('])[0] == seg_text(g)[0]);
}

/// A comment: it gets a line of its own.
#[verifier::spinoff_prover]
#[verifier::rlimit(40)]
pub proof fn lemma_emit_comment(toks: Seq<SToken>, idx: int, st: RenderState, last: Option<SToken>)
    requires
        ascii_classes_known(),
        toks_ok(toks),
        0 <= idx < toks.len(),
        inv(st, last),
        last matches Some(l) ==> !is_open(l),
        !takes_clause(toks, idx, st),
        toks[idx].kind == TokenKind::Comment,
    ensures
        step_good(toks, idx, st, last),
{
    let t = toks[idx];
    let v = t.val;
    lemma_toks_at(toks, idx);
    lemma_layout_chars();
    let r = step(toks, idx, st);
    let st2 = r.1;
    let e = emit_step(toks, idx, st);
    let lead = nl(st) + indent(st.subq);
    let g = Seg { sep: lead, tok: t };
    assert(e == seq![g]);
    lemma_segs_one(g);
    let big_l = flush(st.lines, st.cur);
    let x = indent(st.subq) + v;
    assert(x.last() == v.last());
    lemma_trim_end_last(x);
    assert(st2.lines == flush(big_l, x));
    assert(st2.lines == big_l.push(x));
    assert(st2.cur == Seq::<char>::empty());
    assert(flush(st2.lines, st2.cur) == st2.lines);
    lemma_join_push(big_l, x);
    assert(ct(st2) =~= ct(st) + lead + v);
    assert(ct(st2) == ct(st) + segs_text(e));
    lemma_spaces_blank(4 * st.subq);
    assert(all_ws(nl(st))) by {
        if big_l.len() > 0 {
            assert(nl(st) =~= seq!['\n']);
        } else {
            assert(nl(st) =~= Seq::<char>::empty());
        }
    }
    lemma_all_ws_concat(nl(st), indent(st.subq));
    assert(segs_ok(e)) by {
        assert(seg_ok(e[0]));
    }
    match last {
        Some(l) => {
            lemma_next_chars(l);
            assert(seg_text(g)[0] == '\n');
        },
        None => {},
    }
    lemma_blank(st2.cur);
}

pub open spec fn upper_word(w: Seq<char>) -> bool {
    w.len() > 0 && forall|k: int| 0 <= k < w.len() ==> keyword_letter(#[trigger] w[k])
}

pub proof fn lemma_upper_word(w: Seq<char>)
    requires
        ascii_classes_known(),
        upper_word(w),
    ensures
        seg_tok_ok(word_tok(w)),
        !is_open(word_tok(w)),
{
    assert forall|k: int| 0 <= k < w.len() implies is_word_char(#[trigger] w[k]) && !char_is_whitespace(w[k]) && is_word_start(w[k]) by {
        assert(keyword_letter(w[k]));
        lemma_ascii(w[k]);
    }
    assert(is_word_start(w[0]));
    assert(w.last() == w[w.len() - 1]);
}

pub proof fn lemma_keywords_upper()
    ensures
        upper_word(kw_select()),
        upper_word(kw_from()),
        upper_word(kw_where()),
        upper_word(kw_and()),
        upper_word(kw_or()),
        upper_word(kw_having()),
        upper_word(kw_order()),
        upper_word(kw_group()),
        upper_word(kw_by()),
        upper_word(kw_join()),
        upper_word(kw_left()),
        upper_word(kw_right()),
        upper_word(kw_inner()),
        upper_word(kw_on()),
        upper_word(kw_with()),
{
    assert forall|k: int| 0 <= k < kw_select().len() implies keyword_letter(#[trigger] kw_select()[k]) by {}
    assert forall|k: int| 0 <= k < kw_from().len() implies keyword_letter(#[trigger] kw_from()[k]) by {}
    assert forall|k: int| 0 <= k < kw_where().len() implies keyword_letter(#[trigger] kw_where()[k]) by {}
    assert forall|k: int| 0 <= k < kw_and().len() implies keyword_letter(#[trigger] kw_and()[k]) by {}
    assert forall|k: int| 0 <= k < kw_or().len() implies keyword_letter(#[trigger] kw_or()[k]) by {}
    assert forall|k: int| 0 <= k < kw_having().len() implies keyword_letter(#[trigger] kw_having()[k]) by {}
    assert forall|k: int| 0 <= k < kw_order().len() implies keyword_letter(#[trigger] kw_order()[k]) by {}
    assert forall|k: int| 0 <= k < kw_group().len() implies keyword_letter(#[trigger] kw_group()[k]) by {}
    assert forall|k: int| 0 <= k < kw_by().len() implies keyword_letter(#[trigger] kw_by()[k]) by {}
    assert forall|k: int| 0 <= k < kw_join().len() implies keyword_letter(#[trigger] kw_join()[k]) by {}
    assert forall|k: int| 0 <= k < kw_left().len() implies keyword_letter(#[trigger] kw_left()[k]) by {}
    assert forall|k: int| 0 <= k < kw_right().len() implies keyword_letter(#[trigger] kw_right()[k]) by {}
    assert forall|k: int| 0 <= k < kw_inner().len() implies keyword_letter(#[trigger] kw_inner()[k]) by {}
    assert forall|k: int| 0 <= k < kw_on().len() implies keyword_letter(#[trigger] kw_on()[k]) by {}
    assert forall|k: int| 0 <= k < kw_with().len() implies keyword_letter(#[trigger] kw_with()[k]) by {}
}

pub proof fn lemma_two_segs(lead: Seq<char>, a: Seq<char>, b: Seq<char>)
    requires
        ascii_classes_known(),
        all_ws(lead),
        upper_word(a),
        upper_word(b),
    ensures
        segs_text(seq![Seg { sep: lead, tok: word_tok(a) }, Seg { sep: seq![' '], tok: word_tok(b) }])
            == lead + two_words(a, b),
        segs_ok(seq![Seg { sep: lead, tok: word_tok(a) }, Seg { sep: seq![' '], tok: word_tok(b) }]),
{
    let g1 = Seg { sep: lead, tok: word_tok(a) };
    let g2 = Seg { sep: seq![' '], tok: word_tok(b) };
    let e = seq![g1, g2];
    lemma_upper_word(a);
    lemma_upper_word(b);
    lemma_layout_chars();
    assert(e.drop_first() =~= seq![g2]);
    lemma_segs_one(g2);
    assert(segs_text(e) == seg_text(g1) + segs_text(seq![g2]));
    assert(segs_text(e) =~= lead + two_words(a, b));
    assert(all_ws(seq![' ']));
    assert(seg_ok(e[0]) && seg_ok(e[1]));
    assert(seg_text(g2)[0] == ' ');
    assert(follows(e[0].tok, e[1]));
}

/// The word tokens of a clause keyword, after `lead`.
pub proof fn lemma_clause_segs(lead: Seq<char>, cand: Seq<char>)
    requires
        ascii_classes_known(),
        all_ws(lead),
        is_clause_keyword(cand),
    ensures
        segs_text(clause_segs(lead, cand)) == lead + cand,
        clause_segs(lead, cand).len() >= 1,
        segs_ok(clause_segs(lead, cand)),
        forall|k: int| 0 <= k < clause_segs(lead, cand).len() ==> seg_tok_ok(#[trigger] clause_segs(lead, cand)[k].tok),
        clause_segs(lead, cand)[0].sep == lead,
        clause_segs(lead, cand).last().tok.kind == TokenKind::Word,
        !is_open(clause_segs(lead, cand).last().tok),
        cand.len() > 0,
        !char_is_whitespace(cand.last()),
{
    lemma_keywords_upper();
    let e = clause_segs(lead, cand);
    if cand == two_words(kw_order(), kw_by()) {
        lemma_two_segs(lead, kw_order(), kw_by());
        lemma_upper_word(kw_order());
        lemma_upper_word(kw_by());
    } else if cand == two_words(kw_group(), kw_by()) {
        lemma_two_segs(lead, kw_group(), kw_by());
        lemma_upper_word(kw_group());
        lemma_upper_word(kw_by());
    } else if cand == two_words(kw_left(), kw_join()) {
        lemma_two_segs(lead, kw_left(), kw_join());
        lemma_upper_word(kw_left());
        lemma_upper_word(kw_join());
    } else if cand == two_words(kw_right(), kw_join()) {
        lemma_two_segs(lead, kw_right(), kw_join());
        lemma_upper_word(kw_right());
        lemma_upper_word(kw_join());
    } else if cand == two_words(kw_inner(), kw_join()) {
        lemma_two_segs(lead, kw_inner(), kw_join());
        lemma_upper_word(kw_inner());
        lemma_upper_word(kw_join());
    } else {
        assert(upper_word(cand));
        lemma_upper_word(cand);
        let g = Seg { sep: lead, tok: word_tok(cand) };
        assert(e == seq![g]);
        lemma_segs_one(g);
        assert(segs_ok(e)) by {
            assert(seg_ok(e[0]));
        }
    }
    assert(cand.last() == cand[cand.len() - 1]);
    assert(upper_word(cand) || cand.last() == kw_by().last() || cand.last() == kw_join().last());
    if upper_word(cand) {
        lemma_upper_word(cand);
    } else if cand.last() == kw_by().last() {
        lemma_upper_word(kw_by());
    } else {
        lemma_upper_word(kw_join());
    }
}

/// A clause keyword: it starts a line.
#[verifier::spinoff_prover]
#[verifier::rlimit(40)]
pub proof fn lemma_emit_clause(toks: Seq<SToken>, idx: int, st: RenderState, last: Option<SToken>)
    requires
        ascii_classes_known(),
        toks_ok(toks),
        0 <= idx < toks.len(),
        inv(st, last),
        last matches Some(l) ==> !is_open(l),
        takes_clause(toks, idx, st),
    ensures
        step_good(toks, idx, st, last),
{
    let cand = candidate_at(toks, idx);
    lemma_layout_chars();
    let r = step(toks, idx, st);
    let st2 = r.1;
    let e = emit_step(toks, idx, st);
    let big_l = flush(st.lines, st.cur);
    let lead = nl(st) + indent(st.subq) + clause_prefix(cand);
    assert(e == clause_segs(lead, cand));
    lemma_spaces_blank(4 * st.subq);
    assert(all_ws(nl(st))) by {
        if big_l.len() > 0 {
            assert(nl(st) =~= seq!['\n']);
        } else {
            assert(nl(st) =~= Seq::<char>::empty());
        }
    }
    assert(all_ws(clause_prefix(cand))) by {
        let p = clause_prefix(cand);
        assert forall|k: int| 0 <= k < p.len() implies char_is_whitespace(#[trigger] p[k]) by {
            assert(p[k] == ' ');
        }
    }
    lemma_all_ws_concat(nl(st), indent(st.subq));
    lemma_all_ws_concat(nl(st) + indent(st.subq), clause_prefix(cand));
    lemma_clause_segs(lead, cand);
    let x = indent(st.subq) + clause_prefix(cand) + cand;
    assert(x.last() == cand.last());
    lemma_trim_end_last(x);
    assert(st2.cur == x.push(' '));
    lemma_trim_end_space(x, ' ');
    assert(st2.lines == big_l);
    assert(flush(st2.lines, st2.cur) == big_l.push(x));
    lemma_join_push(big_l, x);
    assert(ct(st2) =~= ct(st) + lead + cand);
    assert(ct(st2) == ct(st) + segs_text(e));
    let lt = e.last().tok;
    assert(st2.prev == Some(TokenKind::Word));
    assert(trim_end(st2.cur) == x);
    assert(!blank(st2.cur));
    assert(seg_tok_ok(lt)) by {
        assert(e.last() == e[e.len() - 1]);
    }
    assert(inv(st2, Some(lt)));
    match last {
        Some(l) => {
            lemma_next_chars(l);
            assert(nl(st) =~= seq!['\n']);
            assert(seg_text(e[0]) == e[0].sep + e[0].tok.val);
            assert(e[0].sep == lead);
            assert(lead[0] == '\n');
            assert(seg_text(e[0])[0] == '\n');
            assert(follows(l, e[0]));
        },
        None => {},
    }
}

pub proof fn lemma_emit_step(toks: Seq<SToken>, idx: int, st: RenderState, last: Option<SToken>)
    requires
        ascii_classes_known(),
        toks_ok(toks),
        0 <= idx < toks.len(),
        inv(st, last),
        last matches Some(l) ==> !is_open(l),
    ensures
        step_good(toks, idx, st, last),
{
    let k = toks[idx].kind;
    if takes_clause(toks, idx, st) {
        lemma_emit_clause(toks, idx, st, last);
    } else if k == TokenKind::OpenParen {
        lemma_emit_open_paren(toks, idx, st, last);
    } else if k == TokenKind::CloseParen || k == TokenKind::Dot || k == TokenKind::Comma || k
        == TokenKind::Semicolon {
        lemma_emit_attached(toks, idx, st, last);
    } else if k == TokenKind::Comment {
        lemma_emit_comment(toks, idx, st, last);
    } else {
        lemma_emit_plain(toks, idx, st, last);
    }
}

pub proof fn lemma_segs_text_concat(a: Seq<Seg>, b: Seq<Seg>)
    ensures
        segs_text(a + b) == segs_text(a) + segs_text(b),
    decreases a.len(),
{
    if a.len() == 0 {
        assert(a + b =~= b);
    } else {
        assert((a + b).drop_first() =~= a.drop_first() + b);
        lemma_segs_text_concat(a.drop_first(), b);
        assert((a + b)[0] == a[0]);
    }
}

pub proof fn lemma_segs_ok_concat(a: Seq<Seg>, b: Seq<Seg>)
    requires
        segs_ok(a),
        segs_ok(b),
        a.len() > 0 && b.len() > 0 ==> !is_open(a.last().tok) && follows(a.last().tok, b[0]),
    ensures
        segs_ok(a + b),
{
    let c = a + b;
    assert forall|k: int| 0 <= k < c.len() implies seg_ok(#[trigger] c[k]) by {
        if k < a.len() {
            assert(c[k] == a[k]);
        } else {
            assert(c[k] == b[k - a.len()]);
        }
    }
    assert forall|k: int| 0 <= k < c.len() - 1 implies !is_open(#[trigger] c[k].tok) && follows(c[k].tok, c[k + 1]) by {
        if k < a.len() - 1 {
            assert(c[k] == a[k]);
            assert(c[k + 1] == a[k + 1]);
        } else if k == a.len() - 1 {
            assert(c[k] == a.last());
            assert(c[k + 1] == b[0]);
        } else {
            assert(c[k] == b[k - a.len()]);
            assert(c[k + 1] == b[k + 1 - a.len()]);
        }
    }
}

/// The output of the line builder is the token texts it writes, each
/// after its whitespace, and every token ends where its text does.
pub proof fn lemma_emit_from(toks: Seq<SToken>, idx: int, st: RenderState, last: Option<SToken>)
    requires
        ascii_classes_known(),
        toks_ok(toks),
        0 <= idx <= toks.len(),
        idx < toks.len() ==> inv(st, last) && (last matches Some(l) ==> !is_open(l)),
    ensures
        ct(render_from(toks, idx, st)) == ct(st) + segs_text(emit_from(toks, idx, st)),
        segs_ok(emit_from(toks, idx, st)),
        forall|k: int| 0 <= k < emit_from(toks, idx, st).len() ==> seg_tok_ok(#[trigger] emit_from(toks, idx, st)[k].tok),
        emit_from(toks, idx, st).len() > 0 ==> (last matches Some(l) ==> follows(l, emit_from(toks, idx, st)[0])),
    decreases toks.len() - idx,
{
    if idx == toks.len() {
        assert(emit_from(toks, idx, st) =~= Seq::<Seg>::empty());
        assert(segs_text(Seq::<Seg>::empty()) == Seq::<char>::empty());
        assert(ct(st) + Seq::<char>::empty() =~= ct(st));
    } else {
        lemma_step_advances(toks, idx, st);
        lemma_emit_step(toks, idx, st, last);
        let r = step(toks, idx, st);
        let e = emit_step(toks, idx, st);
        let lt = e.last().tok;
        lemma_emit_from(toks, r.0, r.1, Some(lt));
        let rest = emit_from(toks, r.0, r.1);
        assert(emit_from(toks, idx, st) == e + rest);
        assert(render_from(toks, idx, st) == render_from(toks, r.0, r.1));
        lemma_segs_text_concat(e, rest);
        assert(ct(render_from(toks, idx, st)) =~= ct(st) + segs_text(emit_from(toks, idx, st)));
        if rest.len() > 0 {
            assert(r.0 < toks.len()) by {
                if r.0 == toks.len() {
                    assert(rest =~= Seq::<Seg>::empty());
                }
            }
        }
        lemma_segs_ok_concat(e, rest);
        let all = e + rest;
        assert forall|k: int| 0 <= k < all.len() implies seg_tok_ok(#[trigger] all[k].tok) by {
            if k < e.len() {
                assert(all[k] == e[k]);
            } else {
                assert(all[k] == rest[k - e.len()]);
            }
        }
        assert(all[0] == e[0]);
    }
}

// ---------------------------------------------------------------------------
// Laying the read-back tokens out again
// ---------------------------------------------------------------------------

/// `str::to_uppercase` leaves the clause keywords as they are.
pub open spec fn keywords_fixed() -> bool {
    &&& str_upper(kw_select()) == kw_select()
    &&& str_upper(kw_from()) == kw_from()
    &&& str_upper(kw_where()) == kw_where()
    &&& str_upper(kw_and()) == kw_and()
    &&& str_upper(kw_or()) == kw_or()
    &&& str_upper(kw_having()) == kw_having()
    &&& str_upper(kw_order()) == kw_order()
    &&& str_upper(kw_group()) == kw_group()
    &&& str_upper(kw_by()) == kw_by()
    &&& str_upper(kw_join()) == kw_join()
    &&& str_upper(kw_left()) == kw_left()
    &&& str_upper(kw_right()) == kw_right()
    &&& str_upper(kw_inner()) == kw_inner()
    &&& str_upper(kw_on()) == kw_on()
    &&& str_upper(kw_with()) == kw_with()
}

/// Two tokens that the line builder cannot tell apart when it looks
/// ahead at them.
pub open spec fn next_agree(a: SToken, b: SToken) -> bool {
    &&& a.kind == b.kind
    &&& a.kind == TokenKind::Word ==> ((str_upper(a.val) == kw_by()) == (str_upper(b.val) == kw_by())
        && (str_upper(a.val) == kw_join()) == (str_upper(b.val) == kw_join()) && (str_upper(a.val)
        == kw_select()) == (str_upper(b.val) == kw_select()))
}

pub proof fn lemma_pair_first(lead: Seq<char>, a: Seq<char>, b: Seq<char>)
    requires
        keywords_fixed(),
        (a == kw_order() && b == kw_by()) || (a == kw_group() && b == kw_by()) || (a == kw_left()
            && b == kw_join()) || (a == kw_right() && b == kw_join()) || (a == kw_inner() && b
            == kw_join()),
    ensures
        clause_segs(lead, two_words(a, b))[0].tok == word_tok(a),
        clause_segs(lead, two_words(a, b)).len() == 2,
        clause_segs(lead, two_words(a, b))[1].tok == word_tok(b),
        str_upper(a) == a,
        str_upper(b) == b,
        a.len() >= 4 && b.len() >= 2,
{
    assert(two_words(kw_order(), kw_by()).len() == 8);
    assert(two_words(kw_group(), kw_by()).len() == 8);
    assert(two_words(kw_left(), kw_join()).len() == 9);
    assert(two_words(kw_right(), kw_join()).len() == 10);
    assert(two_words(kw_inner(), kw_join()).len() == 10);
    assert(two_words(kw_order(), kw_by())[0] == 'O');
    assert(two_words(kw_group(), kw_by())[0] == 'G');
    assert(two_words(kw_right(), kw_join())[0] == 'R');
    assert(two_words(kw_inner(), kw_join())[0] == 'I');
}


/// A clause keyword is a single keyword or one of the keyword pairs.
pub proof fn lemma_clause_kinds(lead: Seq<char>, cand: Seq<char>)
    requires
        keywords_fixed(),
        is_clause_keyword(cand),
    ensures
        single_clause_word(cand) ==> clause_segs(lead, cand) == seq![Seg { sep: lead, tok: word_tok(cand) }]
            && str_upper(cand) == cand,
        !single_clause_word(cand) ==> exists|a: Seq<char>, b: Seq<char>| cand == two_words(a, b) && ((a
            == kw_order() && b == kw_by()) || (a == kw_group() && b == kw_by()) || (a == kw_left()
            && b == kw_join()) || (a == kw_right() && b == kw_join()) || (a == kw_inner() && b
            == kw_join())),
{
    if single_clause_word(cand) {
        assert(cand.len() <= 6);
        assert(two_words(kw_order(), kw_by()).len() == 8);
        assert(two_words(kw_group(), kw_by()).len() == 8);
        assert(two_words(kw_left(), kw_join()).len() == 9);
        assert(two_words(kw_right(), kw_join()).len() == 10);
        assert(two_words(kw_inner(), kw_join()).len() == 10);
    } else {
        if cand == two_words(kw_order(), kw_by()) {
            assert(cand == two_words(kw_order(), kw_by()));
        } else if cand == two_words(kw_group(), kw_by()) {
            assert(cand == two_words(kw_group(), kw_by()));
        } else if cand == two_words(kw_left(), kw_join()) {
            assert(cand == two_words(kw_left(), kw_join()));
        } else if cand == two_words(kw_right(), kw_join()) {
            assert(cand == two_words(kw_right(), kw_join()));
        } else {
            assert(cand == two_words(kw_inner(), kw_join()));
        }
    }
}

pub proof fn lemma_first_agree(toks: Seq<SToken>, idx: int, st: RenderState)
    requires
        keywords_fixed(),
        ascii_classes_known(),
        toks_ok(toks),
        0 <= idx < toks.len(),
    ensures
        next_agree(emit_step(toks, idx, st)[0].tok, toks[idx]),
{
    let t = toks[idx];
    let e = emit_step(toks, idx, st);
    if takes_clause(toks, idx, st) {
        let cand = candidate_at(toks, idx);
        let lead = nl(st) + indent(st.subq) + clause_prefix(cand);
        assert(e == clause_segs(lead, cand));
        lemma_clause_kinds(lead, cand);
        assert(kw_by().len() == 2 && kw_join().len() == 4 && kw_select().len() == 6);
        if single_clause_word(cand) {
            assert(e[0].tok == word_tok(cand));
            match compound_at(toks, idx) {
                Some(c) => {
                    let a = choose|a: Seq<char>, b: Seq<char>| c == two_words(a, b) && a.len() >= 4;
                    assert(cand == c);
                    assert(c.len() >= 8) by {
                        assert(compound_at(toks, idx) == compound_of(str_upper(t.val), str_upper(toks[idx + 1].val)));
                        assert(two_words(kw_order(), kw_by()).len() == 8);
                        assert(two_words(kw_group(), kw_by()).len() == 8);
                        assert(two_words(kw_left(), kw_join()).len() == 9);
                        assert(two_words(kw_right(), kw_join()).len() == 10);
                        assert(two_words(kw_inner(), kw_join()).len() == 10);
                    }
                    assert(cand.len() <= 6);
                },
                None => {
                    assert(cand == str_upper(t.val));
                },
            }
        } else {
            let (a, b) = choose|a: Seq<char>, b: Seq<char>| cand == two_words(a, b) && ((a
                == kw_order() && b == kw_by()) || (a == kw_group() && b == kw_by()) || (a
                == kw_left() && b == kw_join()) || (a == kw_right() && b == kw_join()) || (a
                == kw_inner() && b == kw_join()));
            lemma_pair_first(lead, a, b);
            assert(e[0].tok == word_tok(a));
            match compound_at(toks, idx) {
                Some(c) => {
                    assert(cand == c);
                    let up = str_upper(t.val);
                    let nup = str_upper(toks[idx + 1].val);
                    assert(c == compound_of(up, nup)->0);
                    assert(up == a) by {
                        assert(two_words(up, nup) == two_words(a, b) ==> up == a) by {
                            if two_words(up, nup) == two_words(a, b) && up.len() == a.len() {
                                assert(up =~= two_words(up, nup).take(up.len() as int));
                                assert(a =~= two_words(a, b).take(a.len() as int));
                            }
                        }
                    }
                },
                None => {
                    assert(cand == str_upper(t.val));
                    assert(a != kw_by() && a != kw_join() && a != kw_select()) by {
                        assert(a[0] != 'B');
                        assert(a.len() != 4 || a[0] != 'J');
                        assert(a.len() != 6 || a[0] != 'S');
                    }
                    assert(cand.len() >= 8);
                },
            }
        }
    } else {
        lemma_toks_at(toks, idx);
        if t.kind == TokenKind::Word {
            lemma_trim_end_last(t.val);
        }
    }
}

pub proof fn lemma_step_shift(p: Seq<SToken>, q: Seq<SToken>, j: int, st: RenderState)
    requires
        0 <= j < q.len(),
    ensures
        step(p + q, p.len() + j, st).0 == p.len() + step(q, j, st).0,
        step(p + q, p.len() + j, st).1 == step(q, j, st).1,
{
    let u = p + q;
    let i = p.len() + j;
    assert(u[i] == q[j]);
    if j + 1 < q.len() {
        assert(u[i + 1] == q[j + 1]);
    }
    assert(compound_at(u, i) == compound_at(q, j));
    assert(candidate_at(u, i) == candidate_at(q, j));
    assert(opens_subquery(u, i) == opens_subquery(q, j));
}

pub proof fn lemma_render_shift(p: Seq<SToken>, q: Seq<SToken>, j: int, st: RenderState)
    requires
        0 <= j <= q.len(),
    ensures
        render_from(p + q, p.len() + j, st) == render_from(q, j, st),
    decreases q.len() - j,
{
    if j < q.len() {
        lemma_step_shift(p, q, j, st);
        lemma_step_advances(q, j, st);
        let r = step(q, j, st);
        lemma_render_shift(p, q, r.0, r.1);
    }
}

pub open spec fn out_of(st: RenderState) -> Seq<Seq<char>> {
    flush(st.lines, st.cur)
}

pub open spec fn mirrors(toks: Seq<SToken>, idx: int, st: RenderState, q: Seq<SToken>) -> bool {
    let p = seg_toks(emit_step(toks, idx, st));
    let r = step(toks, idx, st);
    let ru = step(p + q, 0, st);
    &&& ru.0 == p.len()
    &&& (ru.1 == r.1 || (r.0 == toks.len() && out_of(ru.1) == out_of(r.1)))
}

pub open spec fn next_ok_for(toks: Seq<SToken>, idx: int, st: RenderState, q: Seq<SToken>) -> bool {
    let r = step(toks, idx, st);
    &&& q.len() > 0 ==> r.0 < toks.len() && next_agree(q[0], toks[r.0])
    &&& q.len() == 0 ==> r.0 == toks.len()
}

pub proof fn lemma_compound_agree(x: Seq<char>, y1: Seq<char>, y2: Seq<char>)
    requires
        (y1 == kw_by()) == (y2 == kw_by()),
        (y1 == kw_join()) == (y2 == kw_join()),
    ensures
        compound_of(x, y1) == compound_of(x, y2),
{
}

pub proof fn lemma_single_not_first(k: Seq<char>, y: Seq<char>)
    requires
        single_clause_word(k),
    ensures
        compound_of(k, y) is None,
{
    assert(kw_order()[0] == 'O' && kw_order().len() == 5);
    assert(kw_group()[0] == 'G');
    assert(kw_left()[0] == 'L');
    assert(kw_right()[0] == 'R');
    assert(kw_inner()[0] == 'I' && kw_inner().len() == 5);
    assert(kw_or().len() == 2 && kw_on().len() == 2);
}

#[verifier::spinoff_prover]
#[verifier::rlimit(60)]
pub proof fn lemma_mirror_clause(toks: Seq<SToken>, idx: int, st: RenderState, q: Seq<SToken>)
    requires
        ascii_classes_known(),
        keywords_fixed(),
        toks_ok(toks),
        0 <= idx < toks.len(),
        takes_clause(toks, idx, st),
    ensures
        mirrors(toks, idx, st, q),
{
    let cand = candidate_at(toks, idx);
    let lead = nl(st) + indent(st.subq) + clause_prefix(cand);
    let e = emit_step(toks, idx, st);
    assert(e == clause_segs(lead, cand));
    let p = seg_toks(e);
    let u = p + q;
    lemma_clause_kinds(lead, cand);
    let r = step(toks, idx, st);
    let ru = step(u, 0, st);
    if single_clause_word(cand) {
        assert(p =~= seq![word_tok(cand)]);
        assert(u[0] == word_tok(cand));
        if u.len() > 1 && u[1].kind == TokenKind::Word {
            lemma_single_not_first(cand, str_upper(u[1].val));
        }
        assert(compound_at(u, 0) is None);
        assert(candidate_at(u, 0) == cand);
        assert(takes_clause(u, 0, st));
        assert(ru.0 == 1);
        assert(ru.1 == r.1);
    } else {
        let (a, b) = choose|a: Seq<char>, b: Seq<char>| cand == two_words(a, b) && ((a
            == kw_order() && b == kw_by()) || (a == kw_group() && b == kw_by()) || (a
            == kw_left() && b == kw_join()) || (a == kw_right() && b == kw_join()) || (a
            == kw_inner() && b == kw_join()));
        lemma_pair_first(lead, a, b);
        assert(p =~= seq![word_tok(a), word_tok(b)]);
        assert(u[0] == word_tok(a));
        assert(u[1] == word_tok(b));
        assert(compound_of(a, b) == Some(two_words(a, b)));
        assert(compound_at(u, 0) == Some(cand));
        assert(candidate_at(u, 0) == cand);
        assert(takes_clause(u, 0, st));
        assert(ru.0 == 2);
        assert(ru.1 == r.1);
    }
}


pub proof fn lemma_emit_step_len(toks: Seq<SToken>, idx: int, st: RenderState)
    requires
        0 <= idx < toks.len(),
    ensures
        emit_step(toks, idx, st).len() >= 1,
{
}

/// A step that does not start a clause reads its one written token the
/// way it read the token it was given.
#[verifier::spinoff_prover]
#[verifier::rlimit(60)]
pub proof fn lemma_mirror_plain(toks: Seq<SToken>, idx: int, st: RenderState, q: Seq<SToken>)
    requires
        ascii_classes_known(),
        toks_ok(toks),
        0 <= idx < toks.len(),
        !takes_clause(toks, idx, st),
        next_ok_for(toks, idx, st, q),
    ensures
        mirrors(toks, idx, st, q),
{
    let t = toks[idx];
    let e = emit_step(toks, idx, st);
    let t2 = e[0].tok;
    let p = seg_toks(e);
    let u = p + q;
    let r = step(toks, idx, st);
    let ru = step(u, 0, st);
    lemma_toks_at(toks, idx);
    lemma_written_text(t);
    assert(e.len() == 1);
    assert(p =~= seq![t2]);
    assert(u[0] == t2);
    assert(r.0 == idx + 1);
    assert(t2.kind == t.kind);
    assert(!is_open(t) ==> t2 == t) by {
        if !is_open(t) {
            assert(trim_end(t.val) == t.val);
        }
    }
    if q.len() > 0 {
        assert(u[1] == q[0]);
        assert(next_agree(q[0], toks[idx + 1]));
    } else {
        assert(idx + 1 == toks.len());
        assert(u.len() == 1);
    }
    assert(compound_at(u, 0) == compound_at(toks, idx)) by {
        if t.kind == TokenKind::Word && q.len() > 0 && q[0].kind == TokenKind::Word {
            lemma_compound_agree(str_upper(t.val), str_upper(q[0].val), str_upper(toks[idx + 1].val));
        }
    }
    assert(opens_subquery(u, 0) == opens_subquery(toks, idx));
    if t.kind == TokenKind::Word {
        assert(candidate_at(u, 0) == candidate_at(toks, idx));
    }
    assert(!takes_clause(u, 0, st));
    assert(ru.0 == 1);
    if t2 != t {
        // An unterminated literal at the end of the text: it is written
        // without its trailing whitespace, which the last line loses anyway.
        assert(is_open(t));
        assert(t.kind == TokenKind::StringLit);
        assert(idx == toks.len() - 1);
        let v = t.val;
        let w = trim_end(v);
        lemma_trim_end_head(v);
        lemma_trim_end_last(w);
        lemma_layout_chars();
        assert(t2.val == w);
        assert(ru.1.lines == r.1.lines);
        assert(ru.1.cur == st.cur + w + seq![' ']);
        assert(r.1.cur == st.cur + v + seq![' ']);
        assert(trim_end(st.cur + w + seq![' ']) == st.cur + w) by {
            assert(st.cur + w + seq![' '] == (st.cur + w).push(' '));
            lemma_trim_end_space(st.cur + w, ' ');
            lemma_trim_end_concat(st.cur, w);
        }
        assert(trim_end(st.cur + v + seq![' ']) == st.cur + w) by {
            assert(st.cur + v + seq![' '] == (st.cur + v).push(' '));
            lemma_trim_end_space(st.cur + v, ' ');
            lemma_trim_end_concat(st.cur, v);
        }
        assert(out_of(ru.1) == out_of(r.1));
    } else {
        assert(u[0] == toks[idx]);
        assert(ru.1 == r.1);
    }
}


/// Laying out again the tokens that the line builder wrote, from the state
/// it was in, gives the lines it gave.
#[verifier::rlimit(40)]
pub proof fn lemma_relayout(toks: Seq<SToken>, idx: int, st: RenderState)
    requires
        ascii_classes_known(),
        keywords_fixed(),
        toks_ok(toks),
        0 <= idx <= toks.len(),
    ensures
        out_of(render_from(seg_toks(emit_from(toks, idx, st)), 0, st)) == out_of(
            render_from(toks, idx, st),
        ),
    decreases toks.len() - idx,
{
    if idx == toks.len() {
        assert(seg_toks(emit_from(toks, idx, st)) =~= Seq::<SToken>::empty());
    } else {
        lemma_step_advances(toks, idx, st);
        let r = step(toks, idx, st);
        let e = emit_step(toks, idx, st);
        let rest = emit_from(toks, r.0, r.1);
        let p = seg_toks(e);
        let q = seg_toks(rest);
        assert(emit_from(toks, idx, st) == e + rest);
        assert(seg_toks(e + rest) =~= p + q);
        lemma_emit_step_len(toks, idx, st);
        if r.0 < toks.len() {
            lemma_step_advances(toks, r.0, r.1);
            lemma_emit_step_len(toks, r.0, r.1);
            let r2 = step(toks, r.0, r.1);
            let e2 = emit_step(toks, r.0, r.1);
            assert(rest == e2 + emit_from(toks, r2.0, r2.1));
            assert(q[0] == (e2 + emit_from(toks, r2.0, r2.1))[0].tok);
            assert(q[0] == e2[0].tok);
            lemma_first_agree(toks, r.0, r.1);
        } else {
            assert(rest =~= Seq::<Seg>::empty());
            assert(q =~= Seq::<SToken>::empty());
        }
        if takes_clause(toks, idx, st) {
            lemma_mirror_clause(toks, idx, st, q);
        } else {
            lemma_mirror_plain(toks, idx, st, q);
        }
        let u = p + q;
        let ru = step(u, 0, st);
        assert(u.len() > 0);
        assert(render_from(u, 0, st) == render_from(u, ru.0, ru.1));
        lemma_render_shift(p, q, 0, ru.1);
        lemma_relayout(toks, r.0, r.1);
        assert(render_from(toks, idx, st) == render_from(toks, r.0, r.1));
        if ru.1 != r.1 {
            assert(q =~= Seq::<SToken>::empty());
            assert(render_from(q, 0, ru.1) == ru.1);
            assert(render_from(toks, r.0, r.1) == r.1);
        }
    }
}


// ---------------------------------------------------------------------------
// The laws of the formatter
// ---------------------------------------------------------------------------

pub proof fn lemma_trim_start_visible(y: Seq<char>)
    requires
        y.len() > 0,
        !char_is_whitespace(y.last()),
    ensures
        trim_start(y).len() > 0,
    decreases y.len(),
{
    if char_is_whitespace(y[0]) {
        assert(y.len() > 1);
        lemma_trim_start_visible(y.drop_first());
    }
}

/// A text with a visible character does not trim to nothing, and a text
/// that trims to nothing is all whitespace.
pub proof fn lemma_trim_empty(x: Seq<char>)
    ensures
        trim(x).len() == 0 <==> all_ws(x),
{
    lemma_blank(x);
    lemma_trim_end_split(x);
    if trim_end(x).len() > 0 {
        lemma_trim_start_visible(trim_end(x));
    }
}

/// What the builder writes for a token sequence, laid out from the start.
pub proof fn lemma_output_segs(toks: Seq<SToken>)
    requires
        ascii_classes_known(),
        toks_ok(toks),
    ensures
        join_lines(render_lines(toks)) == segs_text(emit_from(toks, 0, init_state())),
        lex(join_lines(render_lines(toks))) == seg_toks(emit_from(toks, 0, init_state())),
        emit_from(toks, 0, init_state()).len() > 0 ==> trim(join_lines(render_lines(toks))).len() > 0,
{
    let st = init_state();
    let e = emit_from(toks, 0, st);
    lemma_emit_from(toks, 0, st, None);
    assert(trim_end(st.cur) == st.cur);
    assert(flush(st.lines, st.cur) == st.lines);
    assert(ct(st) =~= Seq::<char>::empty());
    let out = join_lines(render_lines(toks));
    assert(out == ct(render_from(toks, 0, st)));
    assert(out =~= segs_text(e));
    assert(out.subrange(0, out.len() as int) =~= out);
    lemma_lex_segs(out, 0, e);
    if e.len() > 0 {
        let g = e[0];
        assert(seg_ok(g));
        assert(segs_text(e) == g.sep + g.tok.val + segs_text(e.drop_first()));
        assert(out[g.sep.len() as int] == g.tok.val[0]);
        assert(!all_ws(out)) by {
            assert(!char_is_whitespace(out[g.sep.len() as int]));
        }
        lemma_trim_empty(out);
    }
}

/// Formatting formatted SQL changes nothing, for every text.
///
/// The premises are facts about std that hold on every run: the classes of
/// the layout's characters and the upper case of the clause keywords.
/// `format_sql` asks std for them and states this law of its own result.
pub proof fn law_format_idempotent(s: Seq<char>)
    requires
        ascii_classes_known(),
        keywords_fixed(),
    ensures
        format_sql_spec(format_sql_spec(s)) == format_sql_spec(s),
{
    let out = format_sql_spec(s);
    if trim(s).len() == 0 {
        assert(out =~= Seq::<char>::empty());
        lemma_trim_empty(out);
    } else {
        let toks = lex(s);
        lemma_lex_ok(s, 0);
        let st = init_state();
        let e = emit_from(toks, 0, st);
        lemma_output_segs(toks);
        assert(out == join_lines(render_lines(toks)));
        if e.len() == 0 {
            assert(segs_text(e) =~= Seq::<char>::empty());
            lemma_trim_empty(out);
        } else {
            lemma_relayout(toks, 0, st);
            assert(lex(out) == seg_toks(e));
            assert(render_lines(seg_toks(e)) == out_of(render_from(seg_toks(e), 0, st)));
            assert(render_lines(toks) == out_of(render_from(toks, 0, st)));
        }
    }
}


/// The words the formatter writes as clause keywords.
pub open spec fn layout_word(w: Seq<char>) -> bool {
    single_clause_word(w) || w == kw_order() || w == kw_group() || w == kw_by() || w == kw_left()
        || w == kw_right() || w == kw_inner()
}

/// `a` is token `b` as the formatter writes it: a word (an identifier, a
/// keyword or a number) keeps its text or, as a clause keyword, is written
/// in capitals; a quoted text (a string literal or a quoted name) loses
/// trailing whitespace (only an unterminated one has any); every other
/// token keeps its text.
pub open spec fn written_as(a: SToken, b: SToken) -> bool {
    &&& a.kind == b.kind
    &&& if b.kind == TokenKind::Word {
        a.val == b.val || (a.val == str_upper(b.val) && layout_word(a.val))
    } else if b.kind == TokenKind::StringLit {
        a.val == trim_end(b.val)
    } else {
        a.val == b.val
    }
}

pub proof fn lemma_pair_segs(lead: Seq<char>, up: Seq<char>, nup: Seq<char>)
    requires
        keywords_fixed(),
        compound_of(up, nup) is Some,
    ensures
        clause_segs(lead, compound_of(up, nup)->0) == seq![
            Seg { sep: lead, tok: word_tok(up) },
            Seg { sep: seq![' '], tok: word_tok(nup) },
        ],
        layout_word(up),
        layout_word(nup),
{
    let c = compound_of(up, nup)->0;
    assert(two_words(kw_order(), kw_by())[0] == 'O');
    assert(two_words(kw_group(), kw_by())[0] == 'G');
    assert(two_words(kw_left(), kw_join())[0] == 'L');
    assert(two_words(kw_right(), kw_join())[0] == 'R');
    assert(two_words(kw_inner(), kw_join())[0] == 'I');
}

/// The tokens one step writes are the tokens it reads, as written.
#[verifier::spinoff_prover]
#[verifier::rlimit(60)]
pub proof fn lemma_step_written(toks: Seq<SToken>, idx: int, st: RenderState)
    requires
        ascii_classes_known(),
        keywords_fixed(),
        toks_ok(toks),
        0 <= idx < toks.len(),
    ensures
        seg_toks(emit_step(toks, idx, st)).len() == step(toks, idx, st).0 - idx,
        forall|j: int|
            0 <= j < seg_toks(emit_step(toks, idx, st)).len() ==> written_as(
                #[trigger] seg_toks(emit_step(toks, idx, st))[j],
                toks[idx + j],
            ),
{
    let t = toks[idx];
    let e = emit_step(toks, idx, st);
    let p = seg_toks(e);
    let r = step(toks, idx, st);
    lemma_toks_at(toks, idx);
    if takes_clause(toks, idx, st) {
        let cand = candidate_at(toks, idx);
        let lead = nl(st) + indent(st.subq) + clause_prefix(cand);
        assert(e == clause_segs(lead, cand));
        match compound_at(toks, idx) {
            Some(c) => {
                let up = str_upper(t.val);
                let nup = str_upper(toks[idx + 1].val);
                assert(c == compound_of(up, nup)->0);
                lemma_pair_segs(lead, up, nup);
                assert(r.0 == idx + 2);
                assert(p =~= seq![word_tok(up), word_tok(nup)]);
                assert(written_as(p[0], toks[idx]));
                assert(written_as(p[1], toks[idx + 1]));
            },
            None => {
                assert(cand == str_upper(t.val));
                assert(r.0 == idx + 1);
                lemma_clause_kinds(lead, cand);
                assert(single_clause_word(cand));
                assert(p =~= seq![word_tok(cand)]);
                assert(written_as(p[0], toks[idx]));
            },
        }
    } else {
        lemma_written_text(t);
        assert(p.len() == 1);
        assert(r.0 == idx + 1);
        assert(written_as(p[0], toks[idx]));
    }
}

/// The tokens written from step `idx` on are the tokens read from there,
/// one for one, as written.
pub proof fn lemma_emit_written(toks: Seq<SToken>, idx: int, st: RenderState)
    requires
        ascii_classes_known(),
        keywords_fixed(),
        toks_ok(toks),
        0 <= idx <= toks.len(),
    ensures
        seg_toks(emit_from(toks, idx, st)).len() == toks.len() - idx,
        forall|j: int|
            0 <= j < toks.len() - idx ==> written_as(
                #[trigger] seg_toks(emit_from(toks, idx, st))[j],
                toks[idx + j],
            ),
    decreases toks.len() - idx,
{
    if idx == toks.len() {
        assert(seg_toks(emit_from(toks, idx, st)) =~= Seq::<SToken>::empty());
    } else {
        lemma_step_advances(toks, idx, st);
        let r = step(toks, idx, st);
        let e = emit_step(toks, idx, st);
        let rest = emit_from(toks, r.0, r.1);
        lemma_step_written(toks, idx, st);
        lemma_emit_written(toks, r.0, r.1);
        assert(emit_from(toks, idx, st) == e + rest);
        let p = seg_toks(e);
        let q = seg_toks(rest);
        let u = seg_toks(emit_from(toks, idx, st));
        assert(u =~= p + q);
        assert forall|j: int| 0 <= j < toks.len() - idx implies written_as(#[trigger] u[j], toks[idx + j]) by {
            if j < p.len() {
                assert(u[j] == p[j]);
            } else {
                assert(u[j] == q[j - p.len()]);
                assert(idx + j == r.0 + (j - p.len()));
            }
        }
    }
}

/// Formatting keeps the tokens of the text, one for one and in order:
/// identifiers, numbers, string literals, quoted names, comments, binds and
/// punctuation keep their text, and only clause keywords change, to
/// capitals. The premises are as for `law_format_idempotent`; `format_sql`
/// states this law of its own result.
pub proof fn law_format_keeps_tokens(s: Seq<char>)
    requires
        ascii_classes_known(),
        keywords_fixed(),
    ensures
        lex(format_sql_spec(s)).len() == lex(s).len(),
        forall|k: int|
            0 <= k < lex(s).len() ==> written_as(#[trigger] lex(format_sql_spec(s))[k], lex(s)[k]),
{
    let out = format_sql_spec(s);
    if trim(s).len() == 0 {
        assert(out =~= Seq::<char>::empty());
        lemma_trim_empty(s);
        assert(s.subrange(0, s.len() as int) =~= s);
        lemma_skip_ws(s, 0, s);
        assert(lex(s) =~= Seq::<SToken>::empty());
        assert(lex(out) =~= Seq::<SToken>::empty());
    } else {
        let toks = lex(s);
        lemma_lex_ok(s, 0);
        lemma_output_segs(toks);
        lemma_emit_written(toks, 0, init_state());
        assert(out == join_lines(render_lines(toks)));
        assert forall|k: int| 0 <= k < lex(s).len() implies written_as(#[trigger] lex(out)[k], lex(s)[k]) by {
            assert(toks[0 + k] == toks[k]);
        }
    }
}

} // verus!
