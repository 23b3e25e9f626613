//! The regular expressions by which the fields of a line are found.
//!
//! Matching is done by the `regex` crate. What it finds is not proved here:
//! the items of this file state it, and the rest of the library is proved
//! from what they state.

use regex::Regex;
use vstd::prelude::*;

verus! {

/// `regex::Regex`, a compiled regular expression. Nothing of its inside is
/// known to the proofs.
#[verifier::external_type_specification]
#[verifier::external_body]
pub struct ExRegex(regex::Regex);

/// `regex::Error`, the reason for which a pattern was refused.
#[verifier::external_type_specification]
#[verifier::external_body]
pub struct ExRegexError(regex::Error);

/// What `Regex::new` makes of `pattern`: the regular expression that it
/// builds, or `None` where it refuses the pattern. The pattern alone decides:
/// `Regex::new` reads it with limits that are fixed in the crate.
pub uninterp spec fn compiled(pattern: Seq<char>) -> Option<Regex>;

/// `Regex::new` accepts `pattern`.
pub open spec fn accepted(pattern: Seq<char>) -> bool {
    compiled(pattern) is Some
}

/// The regular expression that `Regex::new` builds from `pattern`, where it
/// accepts the pattern.
pub open spec fn built(pattern: Seq<char>) -> Regex {
    compiled(pattern)->0
}

/// The text of the leftmost match of `regex` in `haystack`, which
/// `Regex::captures` reports as group 0, or `None` where it finds no match.
pub uninterp spec fn first_match(regex: Regex, haystack: Seq<char>) -> Option<Seq<char>>;

/// The view of an optional string.
pub open spec fn text_view(text: Option<String>) -> Option<Seq<char>> {
    match text {
        Some(s) => Some(s@),
        None => None,
    }
}

/// Calls `Regex::new`. The outcome is what `compiled` names: a pattern is
/// accepted or refused whenever it is tried, and two regular expressions
/// built from one pattern find the same matches. Nothing is claimed of which
/// patterns are accepted.
#[verifier::external_body]
pub(crate) fn compile(pattern: &str) -> (r: Result<Regex, regex::Error>)
    ensures
        match r {
            Ok(regex) => compiled(pattern@) == Some(regex),
            Err(_) => compiled(pattern@) is None,
        },
{
    Regex::new(pattern)
}

/// Calls `Regex::captures` and hands out the text of group 0, the whole
/// match, as an owned string; `None` where there is no match. The result is
/// what `first_match` names.
#[verifier::external_body]
pub(crate) fn whole_match(regex: &Regex, haystack: &str) -> (m: Option<String>)
    ensures
        text_view(m) == first_match(*regex, haystack@),
{
    regex.captures(haystack).and_then(|c| c.get(0)).map(|g| g.as_str().to_string())
}

} // verus!
