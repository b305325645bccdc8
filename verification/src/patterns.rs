//! Regular expressions, compiled and matched by the `regex` crate.
//!
//! What a match or a replacement yields is not restated here: each result is
//! named after the pattern's source text and the input, and the callers'
//! contracts speak of those names.

use vstd::prelude::*;

verus! {

#[verifier::external_type_specification]
#[verifier::external_body]
pub struct ExRegex(regex::Regex);

#[verifier::external_type_specification]
#[verifier::external_body]
pub struct ExRegexError(regex::Error);

/// Whether `regex::Regex::new` accepts the pattern.
pub uninterp spec fn regex_compiles(pattern: Seq<char>) -> bool;

/// What `Regex::replace_all` returns for the pattern, text and replacement.
pub uninterp spec fn regex_replace_all(pattern: Seq<char>, text: Seq<char>, rep: Seq<char>) -> Seq<
    char,
>;

/// The capture groups of the leftmost-first match (`Regex::captures`), by
/// group index; `None` for a group that did not take part in the match.
pub uninterp spec fn regex_captures(pattern: Seq<char>, text: Seq<char>) -> Option<
    Seq<Option<Seq<char>>>,
>;

/// The capture groups of every successive non-overlapping match
/// (`Regex::captures_iter`).
pub uninterp spec fn regex_captures_all(pattern: Seq<char>, text: Seq<char>) -> Seq<
    Seq<Option<Seq<char>>>,
>;

/// A compiled regular expression with the source text it was compiled from.
pub struct Pattern {
    source: String,
    regex: regex::Regex,
}

impl View for Pattern {
    type V = Seq<char>;

    closed spec fn view(&self) -> Seq<char> {
        self.source@
    }
}

/// Compiles `pattern` with `regex::Regex::new`.
///
/// Trusted: the pattern is compiled exactly when the crate accepts it, and
/// the result keeps the pattern's text.
#[verifier::external_body]
pub(crate) fn compile(pattern: &str) -> (res: Result<Pattern, regex::Error>)
    ensures
        res is Ok <==> regex_compiles(pattern@),
        res matches Ok(p) ==> p@ == pattern@,
{
    match regex::Regex::new(pattern) {
        Ok(regex) => Ok(Pattern { source: pattern.to_string(), regex }),
        Err(e) => Err(e),
    }
}

/// Replaces every match with `rep` (`Regex::replace_all`).
///
/// Trusted: the result is the named result for this pattern, text and
/// replacement.
#[verifier::external_body]
pub(crate) fn replace_all(p: &Pattern, text: &str, rep: &str) -> (res: String)
    ensures
        res@ == regex_replace_all(p@, text@, rep@),
{
    p.regex.replace_all(text, rep).into_owned()
}

/// The capture groups of the first match (`Regex::captures`, each group
/// read with `Captures::iter`).
///
/// Trusted: the result is the named result; a match always has group 0,
/// the whole match (`Captures::get` documents that it is never `None`).
#[verifier::external_body]
pub(crate) fn captures(p: &Pattern, text: &str) -> (res: Option<Vec<Option<String>>>)
    ensures
        res.deep_view() == regex_captures(p@, text@),
        res matches Some(groups) ==> groups@.len() >= 1 && groups@[0] is Some,
{
    p.regex.captures(text).map(
        |c| c.iter().map(|m| m.map(|m| m.as_str().to_string())).collect(),
    )
}

/// The capture groups of every match (`Regex::captures_iter`).
///
/// Trusted: the result is the named result, and every match has group 0.
#[verifier::external_body]
pub(crate) fn captures_all(p: &Pattern, text: &str) -> (res: Vec<Vec<Option<String>>>)
    ensures
        res.deep_view() == regex_captures_all(p@, text@),
        forall|k: int|
            0 <= k < res@.len() ==> (#[trigger] res@[k])@.len() >= 1 && res@[k]@[0] is Some,
{
    p.regex.captures_iter(text).map(
        |c| c.iter().map(|m| m.map(|m| m.as_str().to_string())).collect(),
    ).collect()
}

} // verus!
