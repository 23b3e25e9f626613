//! Picks the lines of a log that name a path.
//!
//! A log may be cut down to these lines before it is read: a line without a
//! path is no request.

use crate::order::texts;
use crate::pattern::accepted;
use crate::row::{all_patterns_accepted, found, BuildError, Key, RowPatterns};
use crate::text_extractor::ExtractError;
use vstd::prelude::*;

verus! {

/// `row` names a path.
pub open spec fn is_usable(row: Seq<char>) -> bool {
    found(Key::Path, row) is Some
}

/// Those of `rows` that name a path, in their order.
pub open spec fn usable(rows: Seq<Seq<char>>) -> Seq<Seq<char>> {
    rows.filter(|row: Seq<char>| is_usable(row))
}

/// Those of `lines` that name a path, in their order, found with
/// `patterns`.
pub fn usable_lines(patterns: &RowPatterns, lines: &Vec<String>) -> (kept: Vec<String>)
    ensures
        texts(kept@) == usable(texts(lines@)),
{
    let ghost rows = texts(lines@);
    let mut kept: Vec<String> = Vec::new();
    let mut i: usize = 0;
    assert(rows.take(0) =~= Seq::<Seq<char>>::empty());
    while i < lines.len()
        invariant
            0 <= i <= lines.len(),
            rows == texts(lines@),
            texts(kept@) == usable(rows.take(i as int)),
        decreases lines.len() - i,
    {
        let ghost before = texts(kept@);
        let ghost row = lines[i as int]@;
        proof {
            reveal(Seq::filter);
            assert(rows.take(i + 1).drop_last() =~= rows.take(i as int));
            assert(rows.take(i + 1).last() == row);
        }
        if patterns.names_path(lines[i].as_str()) {
            kept.push(lines[i].clone());
            assert(texts(kept@) =~= before.push(row));
        }
        i += 1;
    }
    assert(rows.take(lines.len() as int) =~= rows);
    kept
}

/// Those of `lines` that name a path, in their order. The patterns are built
/// first: where all seven are accepted the lines are picked, and where one
/// is refused nothing is picked, and the error names its key.
pub fn extract_usable_lines(lines: &Vec<String>) -> (r: Result<Vec<String>, BuildError>)
    ensures
        r is Ok <==> all_patterns_accepted(),
        match r {
            Ok(kept) => texts(kept@) == usable(texts(lines@)),
            Err(e) => e.cause == ExtractError::BadPattern && !accepted(e.key.pattern_text()),
        },
{
    match RowPatterns::new() {
        Ok(patterns) => Ok(usable_lines(&patterns, lines)),
        Err(e) => Err(e),
    }
}

} // verus!
