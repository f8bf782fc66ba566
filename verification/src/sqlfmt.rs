//! The SQL line formatter: a tokenizer and a syntax-aware line builder.
//!
//! `format_sql` tokenizes the text (words, string literals, comments, bind
//! variables, punctuation, operators) and lays the tokens out again, one
//! major clause per line, with nested sub-queries indented.
use vstd::prelude::*;
use crate::reformat::{
    ascii_classes_known, keyword_letter, keywords_fixed, law_format_idempotent, law_format_keeps_tokens,
    layout_char, written_as,
};
use crate::text::{
    ascii_alpha, ascii_digit, ascii_ws, is_ascii_char, is_ascii_seq, to_ascii_upper,
    append_chars, char_is_alphabetic, char_is_alphanumeric, char_is_whitespace, is_alphabetic,
    is_alphanumeric, is_whitespace, slice_of, str_upper, string_from, chars_of, trim, trim_end,
    trim_end_vec, trim_range, upper_chars, eq_chars, copy_chars, join_lines, join_lines_exec, lines_view,
};

verus! {

// ---------------------------------------------------------------------------
// Tokens
// ---------------------------------------------------------------------------

#[derive(Clone, Copy, PartialEq, Eq, Debug, Structural)]
pub enum TokenKind {
    /// An identifier, a keyword or a number.
    Word,
    /// A quoted text: a string literal (`'...'`) or a quoted name (`"..."`).
    StringLit,
    Comment,
    Bind,
    Dot,
    Comma,
    OpenParen,
    CloseParen,
    Semicolon,
    Op,
}

pub struct Token {
    pub kind: TokenKind,
    pub val: Vec<char>,
}

/// A token as a mathematical value.
pub struct SToken {
    pub kind: TokenKind,
    pub val: Seq<char>,
}

impl View for Token {
    type V = SToken;

    open spec fn view(&self) -> SToken {
        SToken { kind: self.kind, val: self.val@ }
    }
}

pub open spec fn toks_view(v: Seq<Token>) -> Seq<SToken> {
    v.map_values(|t: Token| t@)
}

// ---------------------------------------------------------------------------
// Character classes of the tokenizer
// ---------------------------------------------------------------------------

/// A word starts with a letter, a digit or one of `_ $ #`: a number is a
/// word of its own. A character that is also whitespace (Unicode has none)
/// is taken as whitespace.
pub open spec fn is_word_start(c: char) -> bool {
    is_word_char(c)
}

pub open spec fn is_word_char(c: char) -> bool {
    (char_is_alphanumeric(c) || c == '_' || c == '$' || c == '#') && !char_is_whitespace(c)
}

pub open spec fn is_bind_char(c: char) -> bool {
    (char_is_alphanumeric(c) || c == '_') && !char_is_whitespace(c)
}

pub open spec fn is_op_start(c: char) -> bool {
    c == '>' || c == '<' || c == '!' || c == '=' || c == '|'
}

pub open spec fn is_op_char(c: char) -> bool {
    c == '>' || c == '<' || c == '=' || c == '|' || c == '+'
}

// ---------------------------------------------------------------------------
// Scanners: where a token that starts before `j` ends
// ---------------------------------------------------------------------------

pub open spec fn word_end(s: Seq<char>, j: int) -> int
    decreases s.len() - j,
{
    if 0 <= j < s.len() && is_word_char(s[j]) {
        word_end(s, j + 1)
    } else {
        j
    }
}

pub open spec fn bind_end(s: Seq<char>, j: int) -> int
    decreases s.len() - j,
{
    if 0 <= j < s.len() && is_bind_char(s[j]) {
        bind_end(s, j + 1)
    } else {
        j
    }
}

pub open spec fn op_end(s: Seq<char>, j: int) -> int
    decreases s.len() - j,
{
    if 0 <= j < s.len() && is_op_char(s[j]) {
        op_end(s, j + 1)
    } else {
        j
    }
}

pub open spec fn line_end(s: Seq<char>, j: int) -> int
    decreases s.len() - j,
{
    if 0 <= j < s.len() && s[j] != '\n' {
        line_end(s, j + 1)
    } else {
        j
    }
}

/// The index of the `*` of the first `*/` at or after `j`, or the last
/// index when there is none.
pub open spec fn block_end(s: Seq<char>, j: int) -> int
    decreases s.len() - j,
{
    if 0 <= j && j + 1 < s.len() && !(s[j] == '*' && s[j + 1] == '/') {
        block_end(s, j + 1)
    } else {
        j
    }
}

/// The end of a quoted text whose body starts at `j` and whose quote is `q`
/// (a doubled quote stands for itself); the end of the text when it is not
/// closed.
pub open spec fn lit_end(s: Seq<char>, j: int, q: char) -> int
    decreases s.len() - j,
{
    if j < 0 || j >= s.len() {
        j
    } else if s[j] == q {
        if j + 1 < s.len() && s[j + 1] == q {
            lit_end(s, j + 2, q)
        } else {
            j + 1
        }
    } else {
        lit_end(s, j + 1, q)
    }
}

pub open spec fn min_int(a: int, b: int) -> int {
    if a < b {
        a
    } else {
        b
    }
}

/// The token that starts at `i` (a non-whitespace character): its kind,
/// the index just past it, and its text.
pub open spec fn scan_token(s: Seq<char>, i: int) -> (TokenKind, int, Seq<char>) {
    let c = s[i];
    if c == '-' && i + 1 < s.len() && s[i + 1] == '-' {
        let j = line_end(s, i + 2);
        (TokenKind::Comment, j, trim(s.subrange(i, j)))
    } else if c == '/' && i + 1 < s.len() && s[i + 1] == '*' {
        let j = min_int(block_end(s, i + 2) + 2, s.len() as int);
        (TokenKind::Comment, j, trim(s.subrange(i, j)))
    } else if c == '\'' || c == '"' {
        let j = lit_end(s, i + 1, c);
        (TokenKind::StringLit, j, s.subrange(i, j))
    } else if c == ':' && i + 1 < s.len() && is_bind_char(s[i + 1]) {
        let j = bind_end(s, i + 1);
        (TokenKind::Bind, j, s.subrange(i, j))
    } else if is_word_start(c) {
        let j = word_end(s, i + 1);
        (TokenKind::Word, j, s.subrange(i, j))
    } else if c == '(' {
        (TokenKind::OpenParen, i + 1, s.subrange(i, i + 1))
    } else if c == ')' {
        (TokenKind::CloseParen, i + 1, s.subrange(i, i + 1))
    } else if c == ',' {
        (TokenKind::Comma, i + 1, s.subrange(i, i + 1))
    } else if c == ';' {
        (TokenKind::Semicolon, i + 1, s.subrange(i, i + 1))
    } else if c == '.' {
        (TokenKind::Dot, i + 1, s.subrange(i, i + 1))
    } else if is_op_start(c) {
        let j = op_end(s, i + 1);
        (TokenKind::Op, j, s.subrange(i, j))
    } else {
        (TokenKind::Op, i + 1, s.subrange(i, i + 1))
    }
}

pub proof fn lemma_word_end(s: Seq<char>, j: int)
    requires
        0 <= j <= s.len(),
    ensures
        j <= word_end(s, j) <= s.len(),
    decreases s.len() - j,
{
    if 0 <= j < s.len() && is_word_char(s[j]) {
        lemma_word_end(s, j + 1);
    }
}

pub proof fn lemma_bind_end(s: Seq<char>, j: int)
    requires
        0 <= j <= s.len(),
    ensures
        j <= bind_end(s, j) <= s.len(),
    decreases s.len() - j,
{
    if 0 <= j < s.len() && is_bind_char(s[j]) {
        lemma_bind_end(s, j + 1);
    }
}

pub proof fn lemma_op_end(s: Seq<char>, j: int)
    requires
        0 <= j <= s.len(),
    ensures
        j <= op_end(s, j) <= s.len(),
    decreases s.len() - j,
{
    if 0 <= j < s.len() && is_op_char(s[j]) {
        lemma_op_end(s, j + 1);
    }
}

pub proof fn lemma_line_end(s: Seq<char>, j: int)
    requires
        0 <= j <= s.len(),
    ensures
        j <= line_end(s, j) <= s.len(),
    decreases s.len() - j,
{
    if 0 <= j < s.len() && s[j] != '\n' {
        lemma_line_end(s, j + 1);
    }
}

pub proof fn lemma_block_end(s: Seq<char>, j: int)
    requires
        0 <= j <= s.len(),
    ensures
        j <= block_end(s, j) <= s.len(),
    decreases s.len() - j,
{
    if 0 <= j && j + 1 < s.len() && !(s[j] == '*' && s[j + 1] == '/') {
        lemma_block_end(s, j + 1);
    }
}

pub proof fn lemma_lit_end(s: Seq<char>, j: int, q: char)
    requires
        0 <= j <= s.len(),
    ensures
        j <= lit_end(s, j, q) <= s.len(),
    decreases s.len() - j,
{
    if j < 0 || j >= s.len() {
    } else if s[j] == q {
        if j + 1 < s.len() && s[j + 1] == q {
            lemma_lit_end(s, j + 2, q);
        }
    } else {
        lemma_lit_end(s, j + 1, q);
    }
}

pub proof fn lemma_scan_token_advances(s: Seq<char>, i: int)
    requires
        0 <= i < s.len(),
    ensures
        i < scan_token(s, i).1 <= s.len(),
{
    lemma_word_end(s, i + 1);
    lemma_bind_end(s, i + 1);
    lemma_op_end(s, i + 1);
    lemma_lit_end(s, i + 1, s[i]);
    if i + 2 <= s.len() {
        lemma_line_end(s, i + 2);
        lemma_block_end(s, i + 2);
    }
}

/// The tokens of `s` from index `i` on; whitespace separates tokens and
/// is dropped.
pub open spec fn lex_from(s: Seq<char>, i: int) -> Seq<SToken>
    decreases s.len() - i,
{
    if i < 0 || i >= s.len() {
        seq![]
    } else if char_is_whitespace(s[i]) {
        lex_from(s, i + 1)
    } else {
        let t = scan_token(s, i);
        proof {
            lemma_scan_token_advances(s, i);
        }
        seq![SToken { kind: t.0, val: t.2 }] + lex_from(s, t.1)
    }
}

pub open spec fn lex(s: Seq<char>) -> Seq<SToken> {
    lex_from(s, 0)
}

// ---------------------------------------------------------------------------
// Keywords
// ---------------------------------------------------------------------------

pub open spec fn kw_select() -> Seq<char> { seq!['S', 'E', 'L', 'E', 'C', 'T'] }
pub open spec fn kw_from() -> Seq<char> { seq!['F', 'R', 'O', 'M'] }
pub open spec fn kw_where() -> Seq<char> { seq!['W', 'H', 'E', 'R', 'E'] }
pub open spec fn kw_and() -> Seq<char> { seq!['A', 'N', 'D'] }
pub open spec fn kw_or() -> Seq<char> { seq!['O', 'R'] }
pub open spec fn kw_having() -> Seq<char> { seq!['H', 'A', 'V', 'I', 'N', 'G'] }
pub open spec fn kw_order() -> Seq<char> { seq!['O', 'R', 'D', 'E', 'R'] }
pub open spec fn kw_group() -> Seq<char> { seq!['G', 'R', 'O', 'U', 'P'] }
pub open spec fn kw_by() -> Seq<char> { seq!['B', 'Y'] }
pub open spec fn kw_join() -> Seq<char> { seq!['J', 'O', 'I', 'N'] }
pub open spec fn kw_left() -> Seq<char> { seq!['L', 'E', 'F', 'T'] }
pub open spec fn kw_right() -> Seq<char> { seq!['R', 'I', 'G', 'H', 'T'] }
pub open spec fn kw_inner() -> Seq<char> { seq!['I', 'N', 'N', 'E', 'R'] }
pub open spec fn kw_on() -> Seq<char> { seq!['O', 'N'] }
pub open spec fn kw_with() -> Seq<char> { seq!['W', 'I', 'T', 'H'] }
pub open spec fn kw_as() -> Seq<char> { seq!['A', 'S'] }
pub open spec fn kw_in() -> Seq<char> { seq!['I', 'N'] }

pub open spec fn two_words(a: Seq<char>, b: Seq<char>) -> Seq<char> {
    a + seq![' '] + b
}

/// The keyword pair that a word and the next word form, if any.
pub open spec fn compound_of(up: Seq<char>, next_up: Seq<char>) -> Option<Seq<char>> {
    if up == kw_order() && next_up == kw_by() {
        Some(two_words(kw_order(), kw_by()))
    } else if up == kw_group() && next_up == kw_by() {
        Some(two_words(kw_group(), kw_by()))
    } else if up == kw_left() && next_up == kw_join() {
        Some(two_words(kw_left(), kw_join()))
    } else if up == kw_right() && next_up == kw_join() {
        Some(two_words(kw_right(), kw_join()))
    } else if up == kw_inner() && next_up == kw_join() {
        Some(two_words(kw_inner(), kw_join()))
    } else {
        None
    }
}

/// A clause keyword that is a single word.
pub open spec fn single_clause_word(c: Seq<char>) -> bool {
    c == kw_select() || c == kw_from() || c == kw_where() || c == kw_and() || c == kw_or() || c
        == kw_having() || c == kw_join() || c == kw_on() || c == kw_with()
}

pub open spec fn is_clause_keyword(c: Seq<char>) -> bool {
    c == kw_select() || c == kw_from() || c == kw_where() || c == kw_and() || c == kw_or()
        || c == kw_having() || c == two_words(kw_order(), kw_by()) || c == two_words(
        kw_group(),
        kw_by(),
    ) || c == kw_join() || c == two_words(kw_left(), kw_join()) || c == two_words(
        kw_right(),
        kw_join(),
    ) || c == two_words(kw_inner(), kw_join()) || c == kw_on() || c == kw_with()
}

/// The leading spaces that line up a clause keyword.
pub open spec fn clause_prefix(c: Seq<char>) -> Seq<char> {
    if c == kw_from() {
        seq![' ', ' ']
    } else if c == kw_where() {
        seq![' ']
    } else if c == kw_and() {
        seq![' ', ' ', ' ']
    } else if c == kw_or() {
        seq![' ', ' ', ' ', ' ']
    } else if c == kw_join() || c == two_words(kw_left(), kw_join()) || c == two_words(
        kw_right(),
        kw_join(),
    ) || c == two_words(kw_inner(), kw_join()) {
        seq![' ', ' ']
    } else if c == kw_on() {
        seq![' ', ' ', ' ', ' ']
    } else if c == two_words(kw_group(), kw_by()) || c == two_words(kw_order(), kw_by()) {
        seq![' ']
    } else {
        seq![]
    }
}

pub open spec fn spaces(n: nat) -> Seq<char> {
    Seq::new(n, |i: int| ' ')
}

pub open spec fn indent(depth: nat) -> Seq<char> {
    spaces(4 * depth)
}

// ---------------------------------------------------------------------------
// Line building
// ---------------------------------------------------------------------------

pub struct RenderState {
    pub lines: Seq<Seq<char>>,
    pub cur: Seq<char>,
    pub paren: nat,
    pub subq: nat,
    pub in_select: bool,
    pub prev: Option<TokenKind>,
    pub prev_as_in: bool,
}

pub open spec fn init_state() -> RenderState {
    RenderState {
        lines: seq![],
        cur: seq![],
        paren: 0,
        subq: 0,
        in_select: false,
        prev: None,
        prev_as_in: false,
    }
}

/// Ends a line: its trailing whitespace goes, and a blank line is dropped.
pub open spec fn flush(lines: Seq<Seq<char>>, cur: Seq<char>) -> Seq<Seq<char>> {
    if trim_end(cur).len() > 0 {
        lines.push(trim_end(cur))
    } else {
        lines
    }
}

/// Drops the space before a token that attaches to its left neighbour.
pub open spec fn glue(cur: Seq<char>) -> Seq<char> {
    if cur.len() > 0 && cur.last() == ' ' {
        trim_end(cur)
    } else {
        cur
    }
}

pub open spec fn upper_of(t: SToken) -> Seq<char> {
    if t.kind == TokenKind::Word {
        str_upper(t.val)
    } else {
        t.val
    }
}

/// The keyword pair that starts at `idx`, if any.
pub open spec fn compound_at(toks: Seq<SToken>, idx: int) -> Option<Seq<char>> {
    if toks[idx].kind == TokenKind::Word && idx + 1 < toks.len() && toks[idx + 1].kind
        == TokenKind::Word {
        compound_of(str_upper(toks[idx].val), str_upper(toks[idx + 1].val))
    } else {
        None
    }
}

pub open spec fn candidate_at(toks: Seq<SToken>, idx: int) -> Seq<char> {
    match compound_at(toks, idx) {
        Some(c) => c,
        None => upper_of(toks[idx]),
    }
}

pub open spec fn opens_subquery(toks: Seq<SToken>, idx: int) -> bool {
    idx + 1 < toks.len() && toks[idx + 1].kind == TokenKind::Word && str_upper(toks[idx + 1].val)
        == kw_select()
}

/// One step of the line builder at token `idx`: the next token index and
/// the new state.
pub open spec fn step(toks: Seq<SToken>, idx: int, st: RenderState) -> (int, RenderState) {
    let t = toks[idx];
    let cand = candidate_at(toks, idx);
    let is_clause = st.prev != Some(TokenKind::Dot) && t.kind == TokenKind::Word && (compound_at(
        toks,
        idx,
    ) is Some || single_clause_word(cand));
    let inline = st.paren > st.subq && (cand == kw_and() || cand == kw_or() || cand == two_words(
        kw_order(),
        kw_by(),
    ));
    if is_clause && !inline {
        let adv = if compound_at(toks, idx) is Some {
            2int
        } else {
            1int
        };
        (
            idx + adv,
            RenderState {
                lines: flush(st.lines, st.cur),
                cur: indent(st.subq) + clause_prefix(cand) + cand + seq![' '],
                in_select: cand == kw_select(),
                prev: Some(TokenKind::Word),
                prev_as_in: false,
                ..st
            },
        )
    } else {
        let up = upper_of(t);
        let st2 = match t.kind {
            TokenKind::OpenParen => {
                let sq = if opens_subquery(toks, idx) {
                    st.subq + 1
                } else {
                    st.subq
                };
                let c = if st.cur.len() > 0 && st.cur.last() == ' ' && st.prev == Some(
                    TokenKind::Word,
                ) && !st.prev_as_in {
                    trim_end(st.cur)
                } else {
                    st.cur
                };
                RenderState { paren: st.paren + 1, subq: sq, cur: c + seq!['('], ..st }
            },
            TokenKind::CloseParen => {
                let p: nat = if st.paren > 0 {
                    (st.paren - 1) as nat
                } else {
                    0
                };
                let sq = if st.subq > p {
                    p
                } else {
                    st.subq
                };
                RenderState { paren: p, subq: sq, cur: glue(st.cur) + seq![')', ' '], ..st }
            },
            TokenKind::Dot => RenderState { cur: glue(st.cur) + seq!['.'], ..st },
            TokenKind::Comma => {
                if st.in_select && st.paren == st.subq {
                    RenderState {
                        lines: flush(st.lines, glue(st.cur) + seq![',']),
                        cur: indent(st.subq) + spaces(7),
                        ..st
                    }
                } else {
                    RenderState { cur: glue(st.cur) + seq![',', ' '], ..st }
                }
            },
            TokenKind::Semicolon => RenderState { cur: glue(st.cur) + seq![';'], ..st },
            TokenKind::Comment => RenderState {
                lines: flush(flush(st.lines, st.cur), indent(st.subq) + t.val),
                cur: seq![],
                ..st
            },
            _ => RenderState { cur: st.cur + t.val + seq![' '], ..st },
        };
        (
            idx + 1,
            RenderState {
                prev: Some(t.kind),
                prev_as_in: up == kw_as() || up == kw_in(),
                ..st2
            },
        )
    }
}

pub open spec fn render_from(toks: Seq<SToken>, idx: int, st: RenderState) -> RenderState
    decreases toks.len() - idx,
{
    if idx < 0 || idx >= toks.len() {
        st
    } else {
        let (i2, st2) = step(toks, idx, st);
        render_from(toks, i2, st2)
    }
}

/// The formatted lines of a token sequence.
pub open spec fn render_lines(toks: Seq<SToken>) -> Seq<Seq<char>> {
    let st = render_from(toks, 0, init_state());
    flush(st.lines, st.cur)
}

/// What `format_sql` returns for text `s`.
pub open spec fn format_sql_spec(s: Seq<char>) -> Seq<char> {
    if trim(s).len() == 0 {
        seq![]
    } else {
        join_lines(render_lines(lex(s)))
    }
}


// ---------------------------------------------------------------------------
// Executable tokenizer
// ---------------------------------------------------------------------------

fn word_start_exec(c: char) -> (r: bool)
    ensures
        r == is_word_start(c),
{
    word_char_exec(c)
}

fn word_char_exec(c: char) -> (r: bool)
    ensures
        r == is_word_char(c),
{
    (is_alphanumeric(c) || c == '_' || c == '$' || c == '#') && !is_whitespace(c)
}

fn bind_char_exec(c: char) -> (r: bool)
    ensures
        r == is_bind_char(c),
{
    (is_alphanumeric(c) || c == '_') && !is_whitespace(c)
}

fn word_end_exec(s: &Vec<char>, j: usize) -> (r: usize)
    requires
        j <= s.len(),
    ensures
        r as int == word_end(s@, j as int),
        j <= r <= s.len(),
{
    let mut k = j;
    while k < s.len() && word_char_exec(s[k])
        invariant
            j <= k <= s.len(),
            word_end(s@, k as int) == word_end(s@, j as int),
        decreases s.len() - k,
    {
        k += 1;
    }
    k
}

fn bind_end_exec(s: &Vec<char>, j: usize) -> (r: usize)
    requires
        j <= s.len(),
    ensures
        r as int == bind_end(s@, j as int),
        j <= r <= s.len(),
{
    let mut k = j;
    while k < s.len() && bind_char_exec(s[k])
        invariant
            j <= k <= s.len(),
            bind_end(s@, k as int) == bind_end(s@, j as int),
        decreases s.len() - k,
    {
        k += 1;
    }
    k
}

fn op_end_exec(s: &Vec<char>, j: usize) -> (r: usize)
    requires
        j <= s.len(),
    ensures
        r as int == op_end(s@, j as int),
        j <= r <= s.len(),
{
    let mut k = j;
    while k < s.len() && (s[k] == '>' || s[k] == '<' || s[k] == '=' || s[k] == '|' || s[k] == '+')
        invariant
            j <= k <= s.len(),
            op_end(s@, k as int) == op_end(s@, j as int),
        decreases s.len() - k,
    {
        k += 1;
    }
    k
}

fn line_end_exec(s: &Vec<char>, j: usize) -> (r: usize)
    requires
        j <= s.len(),
    ensures
        r as int == line_end(s@, j as int),
        j <= r <= s.len(),
{
    let mut k = j;
    while k < s.len() && s[k] != '\n'
        invariant
            j <= k <= s.len(),
            line_end(s@, k as int) == line_end(s@, j as int),
        decreases s.len() - k,
    {
        k += 1;
    }
    k
}

fn block_end_exec(s: &Vec<char>, j: usize) -> (r: usize)
    requires
        j <= s.len(),
    ensures
        r as int == block_end(s@, j as int),
        j <= r <= s.len(),
{
    let mut k = j;
    while k < s.len() && s.len() - k > 1 && !(s[k] == '*' && s[k + 1] == '/')
        invariant
            j <= k <= s.len(),
            block_end(s@, k as int) == block_end(s@, j as int),
        decreases s.len() - k,
    {
        k += 1;
    }
    k
}

fn lit_end_exec(s: &Vec<char>, j: usize, q: char) -> (r: usize)
    requires
        j <= s.len(),
    ensures
        r as int == lit_end(s@, j as int, q),
        j <= r <= s.len(),
{
    let mut k = j;
    while k < s.len()
        invariant
            j <= k <= s.len(),
            lit_end(s@, k as int, q) == lit_end(s@, j as int, q),
        decreases s.len() - k,
    {
        if s[k] == q {
            if k + 1 < s.len() && s[k + 1] == q {
                k += 2;
            } else {
                return k + 1;
            }
        } else {
            k += 1;
        }
    }
    k
}

/// Scans the token that starts at `i`.
fn scan_token_exec(s: &Vec<char>, i: usize) -> (r: (TokenKind, usize, Vec<char>))
    requires
        i < s.len(),
    ensures
        (r.0, r.1 as int, r.2@) == scan_token(s@, i as int),
{
    let c = s[i];
    if c == '-' && i + 1 < s.len() && s[i + 1] == '-' {
        let j = line_end_exec(s, i + 2);
        (TokenKind::Comment, j, trim_range(s, i, j))
    } else if c == '/' && i + 1 < s.len() && s[i + 1] == '*' {
        let b = block_end_exec(s, i + 2);
        let j = if s.len() - b > 2 {
            b + 2
        } else {
            s.len()
        };
        (TokenKind::Comment, j, trim_range(s, i, j))
    } else if c == '\'' || c == '"' {
        let j = lit_end_exec(s, i + 1, c);
        (TokenKind::StringLit, j, slice_of(s, i, j))
    } else if c == ':' && i + 1 < s.len() && bind_char_exec(s[i + 1]) {
        let j = bind_end_exec(s, i + 1);
        (TokenKind::Bind, j, slice_of(s, i, j))
    } else if word_start_exec(c) {
        let j = word_end_exec(s, i + 1);
        (TokenKind::Word, j, slice_of(s, i, j))
    } else if c == '(' {
        (TokenKind::OpenParen, i + 1, slice_of(s, i, i + 1))
    } else if c == ')' {
        (TokenKind::CloseParen, i + 1, slice_of(s, i, i + 1))
    } else if c == ',' {
        (TokenKind::Comma, i + 1, slice_of(s, i, i + 1))
    } else if c == ';' {
        (TokenKind::Semicolon, i + 1, slice_of(s, i, i + 1))
    } else if c == '.' {
        (TokenKind::Dot, i + 1, slice_of(s, i, i + 1))
    } else if c == '>' || c == '<' || c == '!' || c == '=' || c == '|' {
        let j = op_end_exec(s, i + 1);
        (TokenKind::Op, j, slice_of(s, i, j))
    } else {
        (TokenKind::Op, i + 1, slice_of(s, i, i + 1))
    }
}

/// The tokens of `s`.
pub fn tokenize(s: &Vec<char>) -> (toks: Vec<Token>)
    ensures
        toks_view(toks@) == lex(s@),
{
    let mut toks: Vec<Token> = Vec::new();
    let mut i: usize = 0;
    while i < s.len()
        invariant
            0 <= i <= s.len(),
            toks_view(toks@) + lex_from(s@, i as int) == lex(s@),
        decreases s.len() - i,
    {
        if is_whitespace(s[i]) {
            i += 1;
        } else {
            let (kind, j, val) = scan_token_exec(s, i);
            proof {
                lemma_scan_token_advances(s@, i as int);
            }
            let ghost old_toks = toks_view(toks@);
            toks.push(Token { kind, val });
            assert(toks_view(toks@) == old_toks.push(SToken { kind, val: val@ }));
            assert(lex_from(s@, i as int) == seq![SToken { kind, val: val@ }] + lex_from(s@, j as int));
            assert(toks_view(toks@) + lex_from(s@, j as int) == old_toks + lex_from(s@, i as int));
            i = j;
        }
    }
    assert(toks_view(toks@) + lex_from(s@, i as int) == toks_view(toks@));
    toks
}

// ---------------------------------------------------------------------------
// Executable line builder
// ---------------------------------------------------------------------------

pub struct LineState {
    pub lines: Vec<Vec<char>>,
    pub cur: Vec<char>,
    pub paren: usize,
    pub subq: usize,
    pub in_select: bool,
    pub prev: Option<TokenKind>,
    pub prev_as_in: bool,
}

impl View for LineState {
    type V = RenderState;

    open spec fn view(&self) -> RenderState {
        RenderState {
            lines: lines_view(self.lines@),
            cur: self.cur@,
            paren: self.paren as nat,
            subq: self.subq as nat,
            in_select: self.in_select,
            prev: self.prev,
            prev_as_in: self.prev_as_in,
        }
    }
}

fn flush_exec(lines: &mut Vec<Vec<char>>, cur: &Vec<char>)
    ensures
        lines_view(final(lines)@) == flush(lines_view(old(lines)@), cur@),
{
    let t = trim_end_vec(cur);
    if t.len() > 0 {
        let ghost before = lines_view(lines@);
        lines.push(t);
        assert(lines_view(lines@) =~= before.push(t@));
    }
}

fn glue_exec(cur: &Vec<char>) -> (r: Vec<char>)
    ensures
        r@ == glue(cur@),
{
    if cur.len() > 0 && cur[cur.len() - 1] == ' ' {
        trim_end_vec(cur)
    } else {
        copy_chars(cur)
    }
}

fn push_spaces(v: &mut Vec<char>, n: usize)
    ensures
        final(v)@ == old(v)@ + spaces(n as nat),
{
    let mut i: usize = 0;
    while i < n
        invariant
            0 <= i <= n,
            v@ == old(v)@ + spaces(i as nat),
        decreases n - i,
    {
        v.push(' ');
        i += 1;
        assert(spaces(i as nat) =~= spaces((i - 1) as nat).push(' '));
    }
}

fn indent_exec(depth: usize) -> (r: Vec<char>)
    ensures
        r@ == indent(depth as nat),
{
    let mut v: Vec<char> = Vec::new();
    let mut d: usize = 0;
    while d < depth
        invariant
            0 <= d <= depth,
            v@ == indent(d as nat),
        decreases depth - d,
    {
        push_spaces(&mut v, 4);
        d += 1;
        assert(indent(d as nat) =~= indent((d - 1) as nat) + spaces(4));
    }
    v
}

fn kw_vec(k: u8) -> (r: Vec<char>)
    ensures
        k == 0 ==> r@ == kw_select(),
        k == 1 ==> r@ == kw_from(),
        k == 2 ==> r@ == kw_where(),
        k == 3 ==> r@ == kw_and(),
        k == 4 ==> r@ == kw_or(),
        k == 5 ==> r@ == kw_having(),
        k == 6 ==> r@ == kw_order(),
        k == 7 ==> r@ == kw_group(),
        k == 8 ==> r@ == kw_by(),
        k == 9 ==> r@ == kw_join(),
        k == 10 ==> r@ == kw_left(),
        k == 11 ==> r@ == kw_right(),
        k == 12 ==> r@ == kw_inner(),
        k == 13 ==> r@ == kw_on(),
        k == 14 ==> r@ == kw_with(),
        k == 15 ==> r@ == kw_as(),
        k == 16 ==> r@ == kw_in(),
{
    if k == 0 {
        vec!['S', 'E', 'L', 'E', 'C', 'T']
    } else if k == 1 {
        vec!['F', 'R', 'O', 'M']
    } else if k == 2 {
        vec!['W', 'H', 'E', 'R', 'E']
    } else if k == 3 {
        vec!['A', 'N', 'D']
    } else if k == 4 {
        vec!['O', 'R']
    } else if k == 5 {
        vec!['H', 'A', 'V', 'I', 'N', 'G']
    } else if k == 6 {
        vec!['O', 'R', 'D', 'E', 'R']
    } else if k == 7 {
        vec!['G', 'R', 'O', 'U', 'P']
    } else if k == 8 {
        vec!['B', 'Y']
    } else if k == 9 {
        vec!['J', 'O', 'I', 'N']
    } else if k == 10 {
        vec!['L', 'E', 'F', 'T']
    } else if k == 11 {
        vec!['R', 'I', 'G', 'H', 'T']
    } else if k == 12 {
        vec!['I', 'N', 'N', 'E', 'R']
    } else if k == 13 {
        vec!['O', 'N']
    } else if k == 14 {
        vec!['W', 'I', 'T', 'H']
    } else if k == 15 {
        vec!['A', 'S']
    } else {
        vec!['I', 'N']
    }
}

fn is_kw(s: &Vec<char>, k: u8) -> (r: bool)
    requires
        k <= 16,
    ensures
        k == 0 ==> r == (s@ == kw_select()),
        k == 1 ==> r == (s@ == kw_from()),
        k == 2 ==> r == (s@ == kw_where()),
        k == 3 ==> r == (s@ == kw_and()),
        k == 4 ==> r == (s@ == kw_or()),
        k == 5 ==> r == (s@ == kw_having()),
        k == 6 ==> r == (s@ == kw_order()),
        k == 7 ==> r == (s@ == kw_group()),
        k == 8 ==> r == (s@ == kw_by()),
        k == 9 ==> r == (s@ == kw_join()),
        k == 10 ==> r == (s@ == kw_left()),
        k == 11 ==> r == (s@ == kw_right()),
        k == 12 ==> r == (s@ == kw_inner()),
        k == 13 ==> r == (s@ == kw_on()),
        k == 14 ==> r == (s@ == kw_with()),
        k == 15 ==> r == (s@ == kw_as()),
        k == 16 ==> r == (s@ == kw_in()),
{
    let v = kw_vec(k);
    eq_chars(s, &v)
}

fn two_words_exec(a: u8, b: u8) -> (r: Vec<char>)
    requires
        a <= 16,
        b <= 16,
    ensures
        r@ == two_words(kw_vec_spec(a), kw_vec_spec(b)),
{
    let mut v = kw_vec(a);
    v.push(' ');
    let w = kw_vec(b);
    append_chars(&mut v, &w);
    v
}

pub open spec fn kw_vec_spec(k: u8) -> Seq<char> {
    if k == 0 {
        kw_select()
    } else if k == 1 {
        kw_from()
    } else if k == 2 {
        kw_where()
    } else if k == 3 {
        kw_and()
    } else if k == 4 {
        kw_or()
    } else if k == 5 {
        kw_having()
    } else if k == 6 {
        kw_order()
    } else if k == 7 {
        kw_group()
    } else if k == 8 {
        kw_by()
    } else if k == 9 {
        kw_join()
    } else if k == 10 {
        kw_left()
    } else if k == 11 {
        kw_right()
    } else if k == 12 {
        kw_inner()
    } else if k == 13 {
        kw_on()
    } else if k == 14 {
        kw_with()
    } else if k == 15 {
        kw_as()
    } else {
        kw_in()
    }
}

fn compound_exec(up: &Vec<char>, next_up: &Vec<char>) -> (r: Option<Vec<char>>)
    ensures
        r matches Some(v) ==> compound_of(up@, next_up@) == Some(v@),
        r is None ==> compound_of(up@, next_up@) is None,
{
    if is_kw(up, 6) && is_kw(next_up, 8) {
        Some(two_words_exec(6, 8))
    } else if is_kw(up, 7) && is_kw(next_up, 8) {
        Some(two_words_exec(7, 8))
    } else if is_kw(up, 10) && is_kw(next_up, 9) {
        Some(two_words_exec(10, 9))
    } else if is_kw(up, 11) && is_kw(next_up, 9) {
        Some(two_words_exec(11, 9))
    } else if is_kw(up, 12) && is_kw(next_up, 9) {
        Some(two_words_exec(12, 9))
    } else {
        None
    }
}

fn is_clause_keyword_exec(c: &Vec<char>) -> (r: bool)
    ensures
        r == is_clause_keyword(c@),
{
    let ob = two_words_exec(6, 8);
    let gb = two_words_exec(7, 8);
    let lj = two_words_exec(10, 9);
    let rj = two_words_exec(11, 9);
    let ij = two_words_exec(12, 9);
    is_kw(c, 0) || is_kw(c, 1) || is_kw(c, 2) || is_kw(c, 3) || is_kw(c, 4) || is_kw(c, 5)
        || eq_chars(c, &ob) || eq_chars(c, &gb) || is_kw(c, 9) || eq_chars(c, &lj) || eq_chars(
        c,
        &rj,
    ) || eq_chars(c, &ij) || is_kw(c, 13) || is_kw(c, 14)
}

fn clause_prefix_exec(c: &Vec<char>) -> (r: Vec<char>)
    ensures
        r@ == clause_prefix(c@),
{
    let ob = two_words_exec(6, 8);
    let gb = two_words_exec(7, 8);
    let lj = two_words_exec(10, 9);
    let rj = two_words_exec(11, 9);
    let ij = two_words_exec(12, 9);
    let mut v: Vec<char> = Vec::new();
    if is_kw(c, 1) {
        push_spaces(&mut v, 2);
    } else if is_kw(c, 2) {
        push_spaces(&mut v, 1);
    } else if is_kw(c, 3) {
        push_spaces(&mut v, 3);
    } else if is_kw(c, 4) {
        push_spaces(&mut v, 4);
    } else if is_kw(c, 9) || eq_chars(c, &lj) || eq_chars(c, &rj) || eq_chars(c, &ij) {
        push_spaces(&mut v, 2);
    } else if is_kw(c, 13) {
        push_spaces(&mut v, 4);
    } else if eq_chars(c, &gb) || eq_chars(c, &ob) {
        push_spaces(&mut v, 1);
    }
    assert(spaces(1) =~= seq![' ']);
    assert(spaces(2) =~= seq![' ', ' ']);
    assert(spaces(3) =~= seq![' ', ' ', ' ']);
    assert(spaces(4) =~= seq![' ', ' ', ' ', ' ']);
    v
}

fn upper_of_exec(t: &Token) -> (r: Vec<char>)
    ensures
        r@ == upper_of(t@),
{
    if t.kind == TokenKind::Word {
        upper_chars(&t.val)
    } else {
        copy_chars(&t.val)
    }
}

/// The keyword pair at `idx`, if any.
fn compound_at_exec(toks: &Vec<Token>, idx: usize) -> (r: Option<Vec<char>>)
    requires
        idx < toks.len(),
    ensures
        r matches Some(v) ==> compound_at(toks_view(toks@), idx as int) == Some(v@),
        r is None ==> compound_at(toks_view(toks@), idx as int) is None,
{
    if toks[idx].kind == TokenKind::Word && idx + 1 < toks.len() && toks[idx + 1].kind
        == TokenKind::Word {
        let up = upper_chars(&toks[idx].val);
        let nx = upper_chars(&toks[idx + 1].val);
        compound_exec(&up, &nx)
    } else {
        None
    }
}

fn opens_subquery_exec(toks: &Vec<Token>, idx: usize) -> (r: bool)
    requires
        idx < toks.len(),
    ensures
        r == opens_subquery(toks_view(toks@), idx as int),
{
    if idx + 1 < toks.len() && toks[idx + 1].kind == TokenKind::Word {
        let nx = upper_chars(&toks[idx + 1].val);
        is_kw(&nx, 0)
    } else {
        false
    }
}

fn single_clause_exec(c: &Vec<char>) -> (r: bool)
    ensures
        r == single_clause_word(c@),
{
    is_kw(c, 0) || is_kw(c, 1) || is_kw(c, 2) || is_kw(c, 3) || is_kw(c, 4) || is_kw(c, 5)
        || is_kw(c, 9) || is_kw(c, 13) || is_kw(c, 14)
}

/// One step of the line builder.
fn render_step(toks: &Vec<Token>, idx: usize, st: &mut LineState) -> (r: usize)
    requires
        idx < toks.len(),
        old(st).paren <= idx,
        old(st).subq <= old(st).paren,
    ensures
        (r as int, final(st)@) == step(toks_view(toks@), idx as int, old(st)@),
        final(st).paren <= r,
        final(st).subq <= final(st).paren,
{
    let ghost tv = toks_view(toks@);
    let ghost old_st = st@;
    assert(tv[idx as int] == toks@[idx as int]@);
    let comp = compound_at_exec(toks, idx);
    let is_comp = comp.is_some();
    let cand = match comp {
        Some(c) => c,
        None => upper_of_exec(&toks[idx]),
    };
    let prev_is_dot = match st.prev {
        Some(TokenKind::Dot) => true,
        _ => false,
    };
    let prev_is_word = match st.prev {
        Some(TokenKind::Word) => true,
        _ => false,
    };
    let is_clause = !prev_is_dot && toks[idx].kind == TokenKind::Word && (is_comp
        || single_clause_exec(&cand));
    assert(cand@ == candidate_at(tv, idx as int));
    assert(is_clause == (old_st.prev != Some(TokenKind::Dot) && tv[idx as int].kind == TokenKind::Word
        && (compound_at(tv, idx as int) is Some || single_clause_word(candidate_at(tv, idx as int)))));
    let ob = two_words_exec(6, 8);
    let inline = st.paren > st.subq && (is_kw(&cand, 3) || is_kw(&cand, 4) || eq_chars(
        &cand,
        &ob,
    ));
    if is_clause && !inline {
        let adv: usize = if is_comp {
            proof {
                assert(idx + 1 < toks.len());
            }
            2
        } else {
            1
        };
        let cur_old = copy_chars(&st.cur);
        flush_exec(&mut st.lines, &cur_old);
        let mut c = indent_exec(st.subq);
        let pre = clause_prefix_exec(&cand);
        append_chars(&mut c, &pre);
        append_chars(&mut c, &cand);
        c.push(' ');
        st.cur = c;
        st.in_select = is_kw(&cand, 0);
        st.prev = Some(TokenKind::Word);
        st.prev_as_in = false;
        let ghost sp = step(tv, idx as int, old_st).1;
        assert(st@.lines =~~= sp.lines);
        assert(st@.cur =~~= sp.cur);
        assert(st@.paren == sp.paren);
        assert(st@.subq == sp.subq);
        assert(st@.in_select == sp.in_select);
        assert(st@.prev == sp.prev);
        assert(st@.prev_as_in == sp.prev_as_in);
        assert(st@ =~~= step(tv, idx as int, old_st).1);
        idx + adv
    } else {
        let up = upper_of_exec(&toks[idx]);
        let kind = toks[idx].kind;
        match kind {
            TokenKind::OpenParen => {
                let sq = if opens_subquery_exec(toks, idx) {
                    st.subq + 1
                } else {
                    st.subq
                };
                let mut c = if st.cur.len() > 0 && st.cur[st.cur.len() - 1] == ' ' && prev_is_word && !st.prev_as_in {
                    trim_end_vec(&st.cur)
                } else {
                    copy_chars(&st.cur)
                };
                c.push('(');
                st.paren = st.paren + 1;
                st.subq = sq;
                st.cur = c;
            },
            TokenKind::CloseParen => {
                let p = if st.paren > 0 {
                    st.paren - 1
                } else {
                    0
                };
                let sq = if st.subq > p {
                    p
                } else {
                    st.subq
                };
                let mut c = glue_exec(&st.cur);
                c.push(')');
                c.push(' ');
                st.paren = p;
                st.subq = sq;
                st.cur = c;
            },
            TokenKind::Dot => {
                let mut c = glue_exec(&st.cur);
                c.push('.');
                st.cur = c;
            },
            TokenKind::Comma => {
                if st.in_select && st.paren == st.subq {
                    let mut c = glue_exec(&st.cur);
                    c.push(',');
                    assert(c@ =~= glue(old_st.cur) + seq![',']);
                    flush_exec(&mut st.lines, &c);
                    assert(lines_view(st.lines@) == flush(old_st.lines, glue(old_st.cur) + seq![',']));
                    let mut n = indent_exec(st.subq);
                    push_spaces(&mut n, 7);
                    st.cur = n;
                } else {
                    let mut c = glue_exec(&st.cur);
                    c.push(',');
                    c.push(' ');
                    st.cur = c;
                }
            },
            TokenKind::Semicolon => {
                let mut c = glue_exec(&st.cur);
                c.push(';');
                st.cur = c;
            },
            TokenKind::Comment => {
                let cur_old = copy_chars(&st.cur);
                flush_exec(&mut st.lines, &cur_old);
                let mut line = indent_exec(st.subq);
                append_chars(&mut line, &toks[idx].val);
                flush_exec(&mut st.lines, &line);
                assert(line@ == indent(old_st.subq) + tv[idx as int].val);
                assert(lines_view(st.lines@) == flush(flush(old_st.lines, old_st.cur), indent(old_st.subq) + tv[idx as int].val));
                st.cur = Vec::new();
            },
            _ => {
                append_chars(&mut st.cur, &toks[idx].val);
                st.cur.push(' ');
            },
        }
        st.prev = Some(kind);
        st.prev_as_in = is_kw(&up, 15) || is_kw(&up, 16);
        let ghost sp = step(tv, idx as int, old_st).1;
        assert(st@.lines =~~= sp.lines);
        assert(st@.cur =~~= sp.cur);
        assert(st@.paren == sp.paren);
        assert(st@.subq == sp.subq);
        assert(st@.in_select == sp.in_select);
        assert(st@.prev == sp.prev);
        assert(st@.prev_as_in == sp.prev_as_in);
        assert(st@ =~~= step(tv, idx as int, old_st).1);
        idx + 1
    }
}


// ---------------------------------------------------------------------------
// What std's character classes say of the layout's characters
// ---------------------------------------------------------------------------

/// Asks std for the classes of `c`; on ASCII they then agree with their
/// ASCII definitions.
fn learn_char(c: char)
    ensures
        is_ascii_char(c) ==> ((char_is_whitespace(c) <==> ascii_ws(c)) && (char_is_alphabetic(c)
            <==> ascii_alpha(c)) && (char_is_alphanumeric(c) <==> (ascii_alpha(c) || ascii_digit(c)))),
{
    let _ = is_whitespace(c);
    let _ = is_alphabetic(c);
    let _ = is_alphanumeric(c);
}

/// Asks std for the classes of every character the layout relies on.
fn learn_layout_chars()
    ensures
        ascii_classes_known(),
{
    learn_char(' ');
    learn_char('\n');
    learn_char('+');
    learn_char('_');
    learn_char('$');
    learn_char('#');
    learn_char('*');
    learn_char('-');
    learn_char('/');
    learn_char('\'');
    learn_char('"');
    learn_char(':');
    learn_char('(');
    learn_char(')');
    learn_char(',');
    learn_char(';');
    learn_char('.');
    learn_char('>');
    learn_char('<');
    learn_char('!');
    learn_char('=');
    learn_char('|');
    learn_char('A');
    learn_char('B');
    learn_char('C');
    learn_char('D');
    learn_char('E');
    learn_char('F');
    learn_char('G');
    learn_char('H');
    learn_char('I');
    learn_char('J');
    learn_char('L');
    learn_char('M');
    learn_char('N');
    learn_char('O');
    learn_char('P');
    learn_char('R');
    learn_char('S');
    learn_char('T');
    learn_char('U');
    learn_char('V');
    learn_char('W');
    learn_char('Y');
    assert forall|c: char| #[trigger] layout_char(c) implies ((char_is_whitespace(c) <==> ascii_ws(c))
        && (char_is_alphabetic(c) <==> ascii_alpha(c)) && (char_is_alphanumeric(c) <==> (ascii_alpha(c)
        || ascii_digit(c)))) by {
        assert(is_ascii_char(c));
    }
}

/// Upper-cases a keyword with std; a keyword spelt in capitals stays as it is.
fn learn_upper(k: u8)
    requires
        k <= 14,
    ensures
        str_upper(kw_vec_spec(k)) == kw_vec_spec(k),
{
    let v = kw_vec(k);
    assert(v@ == kw_vec_spec(k));
    assert(forall|i: int| 0 <= i < v@.len() ==> keyword_letter(#[trigger] v@[i]));
    assert(is_ascii_seq(v@));
    let u = upper_chars(&v);
    assert(v@.map_values(|c: char| to_ascii_upper(c)) =~= v@);
}

/// Upper-cases every clause keyword with std.
fn learn_keywords()
    ensures
        keywords_fixed(),
{
    let mut k: u8 = 0;
    while k < 15
        invariant
            k <= 15,
            forall|j: u8| j < k ==> str_upper(#[trigger] kw_vec_spec(j)) == kw_vec_spec(j),
        decreases 15 - k,
    {
        learn_upper(k);
        k += 1;
    }
    assert(str_upper(kw_vec_spec(0)) == kw_vec_spec(0));
    assert(str_upper(kw_vec_spec(1)) == kw_vec_spec(1));
    assert(str_upper(kw_vec_spec(2)) == kw_vec_spec(2));
    assert(str_upper(kw_vec_spec(3)) == kw_vec_spec(3));
    assert(str_upper(kw_vec_spec(4)) == kw_vec_spec(4));
    assert(str_upper(kw_vec_spec(5)) == kw_vec_spec(5));
    assert(str_upper(kw_vec_spec(6)) == kw_vec_spec(6));
    assert(str_upper(kw_vec_spec(7)) == kw_vec_spec(7));
    assert(str_upper(kw_vec_spec(8)) == kw_vec_spec(8));
    assert(str_upper(kw_vec_spec(9)) == kw_vec_spec(9));
    assert(str_upper(kw_vec_spec(10)) == kw_vec_spec(10));
    assert(str_upper(kw_vec_spec(11)) == kw_vec_spec(11));
    assert(str_upper(kw_vec_spec(12)) == kw_vec_spec(12));
    assert(str_upper(kw_vec_spec(13)) == kw_vec_spec(13));
    assert(str_upper(kw_vec_spec(14)) == kw_vec_spec(14));
}

/// Lays SQL text out again: one major clause (`SELECT`, `FROM`, `WHERE`,
/// `AND`, `OR`, joins, `ON`, `GROUP BY`, `ORDER BY`, `HAVING`, `WITH`) per
/// line, top-level `SELECT` columns one per line, sub-queries indented,
/// comments on lines of their own. Blank text gives the empty string.
///
/// Formatting the result again gives it back unchanged, and the result has
/// the tokens of `sql`, one for one (see `written_as`): only clause keywords
/// change, to capitals.
pub fn format_sql(sql: &str) -> (r: String)
    ensures
        r@ == format_sql_spec(sql@),
        format_sql_spec(r@) == r@,
        lex(r@).len() == lex(sql@).len(),
        forall|k: int| 0 <= k < lex(sql@).len() ==> written_as(#[trigger] lex(r@)[k], lex(sql@)[k]),
{
    learn_layout_chars();
    learn_keywords();
    proof {
        law_format_idempotent(sql@);
        law_format_keeps_tokens(sql@);
    }
    let chars = chars_of(sql);
    let t = trim_range(&chars, 0, chars.len());
    assert(chars@.subrange(0, chars@.len() as int) == chars@);
    if t.len() == 0 {
        return string_from(&Vec::new());
    }
    let toks = tokenize(&chars);
    let mut st = LineState {
        lines: Vec::new(),
        cur: Vec::new(),
        paren: 0,
        subq: 0,
        in_select: false,
        prev: None,
        prev_as_in: false,
    };
    let ghost tv = toks_view(toks@);
    assert(lines_view(st.lines@) =~= Seq::<Seq<char>>::empty());
    assert(st@ =~~= init_state());
    let mut idx: usize = 0;
    while idx < toks.len()
        invariant
            tv == toks_view(toks@),
            0 <= idx <= toks.len(),
            st.paren <= idx,
            st.subq <= st.paren,
            render_from(tv, idx as int, st@) == render_from(tv, 0, init_state()),
        decreases toks.len() - idx,
    {
        idx = render_step(&toks, idx, &mut st);
    }
    let cur_last = copy_chars(&st.cur);
    flush_exec(&mut st.lines, &cur_last);
    let out = join_lines_exec(&st.lines);
    string_from(&out)
}

} // verus!
