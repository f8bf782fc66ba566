//! The regular-expression operations of the `regex` crate that the query
//! analysis uses.
use vstd::prelude::*;

verus! {

#[verifier::external_type_specification]
#[verifier::external_body]
pub struct ExRegex(regex::Regex);

/// A compiled regular expression together with its pattern.
pub struct CompiledRegex {
    pattern: String,
    re: regex::Regex,
}

impl CompiledRegex {
    pub closed spec fn pattern(&self) -> Seq<char> {
        self.pattern@
    }
}

/// The groups of one match: group 0 (the whole match) first; `None` for a
/// group that took no part in the match.
pub open spec fn groups_view(g: Seq<Option<String>>) -> Seq<Option<Seq<char>>> {
    g.map_values(|o: Option<String>| match o {
        Some(s) => Some(s@),
        None => None,
    })
}

/// Whether `regex::Regex::new` accepts the pattern.
pub uninterp spec fn regex_compiles(pattern: Seq<char>) -> bool;

/// The groups of the leftmost-first match of the pattern in the text
/// (`Regex::captures`), or `None` without a match.
pub uninterp spec fn regex_captures(pattern: Seq<char>, hay: Seq<char>) -> Option<
    Seq<Option<Seq<char>>>,
>;

/// The groups of each successive non-overlapping match (`Regex::captures_iter`).
pub uninterp spec fn regex_captures_all(pattern: Seq<char>, hay: Seq<char>) -> Seq<
    Seq<Option<Seq<char>>>,
>;

/// `Regex::replace_all` with a replacement string (in which `$name` and
/// `$n` refer to groups).
pub uninterp spec fn regex_replace_all(pattern: Seq<char>, hay: Seq<char>, rep: Seq<char>) -> Seq<char>;

/// The pieces of the text between matches (`Regex::split`).
pub uninterp spec fn regex_split(pattern: Seq<char>, hay: Seq<char>) -> Seq<Seq<char>>;

pub open spec fn is_meta_character(c: char) -> bool {
    c == '\\' || c == '.' || c == '+' || c == '*' || c == '?' || c == '(' || c == ')' || c == '|'
        || c == '[' || c == ']' || c == '{' || c == '}' || c == '^' || c == '$' || c == '#' || c
        == '&' || c == '-' || c == '~'
}

/// What `regex::escape` returns: each meta character preceded by a backslash.
pub open spec fn escape_spec(s: Seq<char>) -> Seq<char>
    decreases s.len(),
{
    if s.len() == 0 {
        seq![]
    } else {
        escape_spec(s.drop_last()) + if is_meta_character(s.last()) {
            seq!['\\', s.last()]
        } else {
            seq![s.last()]
        }
    }
}

/// Calls `regex::Regex::new`. Claimed: a compiled expression is returned
/// exactly when the pattern is accepted, and it keeps the pattern.
#[verifier::external_body]
pub(crate) fn compile_regex(pattern: &str) -> (r: Option<CompiledRegex>)
    ensures
        r is Some <==> regex_compiles(pattern@),
        r matches Some(c) ==> c.pattern() == pattern@,
{
    match regex::Regex::new(pattern) {
        Ok(re) => Some(CompiledRegex { pattern: pattern.to_string(), re }),
        Err(_) => None,
    }
}

/// Calls `Regex::captures`. Claimed: the groups are the named result for
/// the pattern and the text.
#[verifier::external_body]
pub(crate) fn captures(re: &CompiledRegex, hay: &str) -> (r: Option<Vec<Option<String>>>)
    ensures
        match regex_captures(re.pattern(), hay@) {
            Some(g) => r matches Some(v) && groups_view(v@) == g,
            None => r is None,
        },
{
    re.re.captures(hay).map(|c| c.iter().map(|m| m.map(|m| m.as_str().to_string())).collect())
}

/// Calls `Regex::captures_iter`. Claimed: the matches' groups, in order,
/// are the named result for the pattern and the text.
#[verifier::external_body]
pub(crate) fn captures_all(re: &CompiledRegex, hay: &str) -> (r: Vec<Vec<Option<String>>>)
    ensures
        r@.len() == regex_captures_all(re.pattern(), hay@).len(),
        forall|i: int|
            0 <= i < r@.len() ==> groups_view(#[trigger] r@[i]@) == regex_captures_all(
                re.pattern(),
                hay@,
            )[i],
{
    re.re.captures_iter(hay).map(|c| c.iter().map(|m| m.map(|m| m.as_str().to_string())).collect()).collect()
}

/// Calls `Regex::replace_all` with a string replacement. Claimed: the
/// result is the named result for the pattern, the text and the replacement.
#[verifier::external_body]
pub(crate) fn replace_all(re: &CompiledRegex, hay: &str, rep: &str) -> (r: String)
    ensures
        r@ == regex_replace_all(re.pattern(), hay@, rep@),
{
    re.re.replace_all(hay, rep).to_string()
}

/// Calls `Regex::split`. Claimed: the pieces are the named result for the
/// pattern and the text.
#[verifier::external_body]
pub(crate) fn split(re: &CompiledRegex, hay: &str) -> (r: Vec<String>)
    ensures
        r@.len() == regex_split(re.pattern(), hay@).len(),
        forall|i: int| 0 <= i < r@.len() ==> (#[trigger] r@[i])@ == regex_split(re.pattern(), hay@)[i],
{
    re.re.split(hay).map(|p| p.to_string()).collect()
}

/// Calls `regex::escape`. Claimed: every meta character of the text is
/// preceded by a backslash, and nothing else changes.
#[verifier::external_body]
pub(crate) fn escape(s: &str) -> (r: String)
    ensures
        r@ == escape_spec(s@),
{
    regex::escape(s)
}

} // verus!
