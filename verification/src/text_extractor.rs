//! Pulls the value of one key out of a line.
//!
//! A key and its value stand in a line as `key=value`, where the value runs
//! to the next white space. The regular expression that finds them is the
//! caller's; what this file does is what follows the match: the value is
//! what stands after the first `=` of the match, and a timing is that value
//! read as a number of milliseconds.

use crate::micros::{parse_micros, parsed_micros};
use crate::pattern::{accepted, first_match, text_view, whole_match};
use crate::row::{compile_key, page_from_matches, page_of, Key};
use crate::text::{chars_of, find_first, first_index_of};
use regex::Regex;
use vstd::prelude::*;
use vstd::string::StrSliceExecFns;

verus! {

/// Why a value could not be had from a line.
#[derive(Clone, Copy, Debug, PartialEq, Eq, Structural)]
pub enum ExtractError {
    /// The key does not stand in the line.
    NotFound,
    /// The key stands in the line, and its value is no timing.
    InvalidValue,
    /// The regular expression for the key could not be built.
    BadPattern,
}

/// The view of a string or an error.
pub open spec fn text_result_view(r: Result<String, ExtractError>) -> Result<
    Seq<char>,
    ExtractError,
> {
    match r {
        Ok(s) => Ok(s@),
        Err(e) => Err(e),
    }
}

/// The value in the text of a match: what follows its first `=`. `None`
/// where the text has no `=`.
pub open spec fn value_of(matched: Seq<char>) -> Option<Seq<char>> {
    let eq = first_index_of(matched, '=');
    if eq < matched.len() {
        Some(matched.subrange(eq + 1, matched.len() as int))
    } else {
        None
    }
}

/// The text value that a match gives: the value in its text, and
/// `NotFound` where there is no match or no `=` in it.
pub open spec fn string_field(found: Option<Seq<char>>) -> Result<Seq<char>, ExtractError> {
    match found {
        None => Err(ExtractError::NotFound),
        Some(matched) => match value_of(matched) {
            None => Err(ExtractError::NotFound),
            Some(value) => Ok(value),
        },
    }
}

/// The timing that a match gives, in microseconds: its text value read as a
/// number of milliseconds, and `InvalidValue` where that value is no
/// such number or too large.
pub open spec fn duration_field(found: Option<Seq<char>>) -> Result<u64, ExtractError> {
    match string_field(found) {
        Err(e) => Err(e),
        Ok(value) => match parsed_micros(value) {
            None => Err(ExtractError::InvalidValue),
            Some(micros) => Ok(micros),
        },
    }
}

/// What follows the first `=` in the text of a match.
pub fn value_in_match(matched: &str) -> (r: Option<String>)
    ensures
        text_view(r) == value_of(matched@),
{
    let v = chars_of(matched);
    let eq = find_first(&v, '=');
    if eq < v.len() {
        Some(matched.substring_char(eq + 1, v.len()).to_owned())
    } else {
        None
    }
}

/// The text value that a match gives.
pub fn string_from_match(found: Option<String>) -> (r: Result<String, ExtractError>)
    ensures
        text_result_view(r) == string_field(text_view(found)),
{
    match found {
        None => Err(ExtractError::NotFound),
        Some(matched) => match value_in_match(matched.as_str()) {
            None => Err(ExtractError::NotFound),
            Some(value) => Ok(value),
        },
    }
}

/// The timing that a match gives, in microseconds.
pub fn duration_from_match(found: Option<String>) -> (r: Result<u64, ExtractError>)
    ensures
        r == duration_field(text_view(found)),
{
    match string_from_match(found) {
        Err(e) => Err(e),
        Ok(value) => match parse_micros(value.as_str()) {
            None => Err(ExtractError::InvalidValue),
            Some(micros) => Ok(micros),
        },
    }
}

/// The text value of the key that `regex` finds in `row`: what follows the
/// first `=` of the first match.
pub fn extract_string_from_row(row: &str, regex: Regex) -> (r: Result<String, ExtractError>)
    ensures
        text_result_view(r) == string_field(first_match(regex, row@)),
{
    string_from_match(whole_match(&regex, row))
}

/// The timing of the key that `regex` finds in `row`, in microseconds.
pub fn extract_duration_from_row(row: &str, regex: Regex) -> (r: Result<u64, ExtractError>)
    ensures
        r == duration_field(first_match(regex, row@)),
{
    duration_from_match(whole_match(&regex, row))
}

/// The page that `row` names: its method, a space, and its path. The two
/// patterns are built for this one call: where both are accepted the result
/// is what `page_of` says, and `BadPattern` where one is refused.
pub fn extract_page_from_row(row: &str) -> (r: Result<String, ExtractError>)
    ensures
        accepted(Key::Method.pattern_text()) && accepted(Key::Path.pattern_text())
            ==> text_result_view(r) == page_of(row@),
        !(accepted(Key::Method.pattern_text()) && accepted(Key::Path.pattern_text())) ==> r
            == Err::<String, ExtractError>(ExtractError::BadPattern),
{
    let method = match compile_key(Key::Method) {
        Ok(regex) => regex,
        Err(_) => return Err(ExtractError::BadPattern),
    };
    let path = match compile_key(Key::Path) {
        Ok(regex) => regex,
        Err(_) => return Err(ExtractError::BadPattern),
    };
    page_from_matches(whole_match(&method, row), whole_match(&path, row))
}

} // verus!
