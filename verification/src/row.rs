//! From a line of the log to a record.
//!
//! A request line holds seven keys, each as `key=value`: the controller and
//! the action, three timings in milliseconds, and the method and the path,
//! which together name the page. A line that lacks one of them, or whose
//! timing is no number, gives no record.

use crate::pattern::{accepted, built, compile, first_match, text_view, whole_match};
use crate::perf_info::{PerfInfo, PerfRecord};
use crate::text_extractor::{
    duration_field, duration_from_match, string_field, string_from_match, text_result_view,
    ExtractError,
};
use regex::Regex;
use vstd::prelude::*;
use vstd::string::StringExecFns;

verus! {

/// The pattern of each key: the key where a word begins, `=`, and the
/// characters up to the next white space. A key that only ends a longer
/// word, as `view` ends `overview`, is not found there.
pub const CONTROLLER_PATTERN: &'static str = r"\bcontroller=(\S+)";

pub const ACTION_PATTERN: &'static str = r"\baction=(\S+)";

pub const DURATION_PATTERN: &'static str = r"\bduration=(\S+)";

pub const VIEW_PATTERN: &'static str = r"\bview=(\S+)";

pub const DB_PATTERN: &'static str = r"\bdb=(\S+)";

pub const METHOD_PATTERN: &'static str = r"\bmethod=(\S+)";

pub const PATH_PATTERN: &'static str = r"\bpath=(\S+)";

/// A key that every request line holds. The keys are read in the order in
/// which they stand here.
#[derive(Clone, Copy, Debug, PartialEq, Eq, Structural)]
pub enum Key {
    Controller,
    Action,
    Duration,
    View,
    Db,
    Method,
    Path,
}

impl Key {
    /// The regular expression that finds the key and its value: the key at
    /// the start of a word, `=`, and the characters up to the next white
    /// space.
    pub open spec fn pattern_text(self) -> Seq<char> {
        match self {
            Key::Controller => CONTROLLER_PATTERN@,
            Key::Action => ACTION_PATTERN@,
            Key::Duration => DURATION_PATTERN@,
            Key::View => VIEW_PATTERN@,
            Key::Db => DB_PATTERN@,
            Key::Method => METHOD_PATTERN@,
            Key::Path => PATH_PATTERN@,
        }
    }

    /// The regular expression that finds the key and its value.
    pub fn pattern(self) -> (p: &'static str)
        ensures
            p@ == self.pattern_text(),
    {
        match self {
            Key::Controller => CONTROLLER_PATTERN,
            Key::Action => ACTION_PATTERN,
            Key::Duration => DURATION_PATTERN,
            Key::View => VIEW_PATTERN,
            Key::Db => DB_PATTERN,
            Key::Method => METHOD_PATTERN,
            Key::Path => PATH_PATTERN,
        }
    }
}

/// Why a line gave no record: the first key that failed, and how.
#[derive(Clone, Copy, Debug, PartialEq, Eq, Structural)]
pub struct BuildError {
    pub key: Key,
    pub cause: ExtractError,
}

/// What the seven patterns found in one line: for each key the text of its
/// match, `key=value`, or `None`.
#[derive(Debug)]
pub struct RowMatches {
    pub controller: Option<String>,
    pub action: Option<String>,
    pub duration: Option<String>,
    pub view: Option<String>,
    pub db: Option<String>,
    pub method: Option<String>,
    pub path: Option<String>,
}

/// What a `RowMatches` holds, as mathematical values.
pub struct RowFound {
    pub controller: Option<Seq<char>>,
    pub action: Option<Seq<char>>,
    pub duration: Option<Seq<char>>,
    pub view: Option<Seq<char>>,
    pub db: Option<Seq<char>>,
    pub method: Option<Seq<char>>,
    pub path: Option<Seq<char>>,
}

impl View for RowMatches {
    type V = RowFound;

    open spec fn view(&self) -> RowFound {
        RowFound {
            controller: text_view(self.controller),
            action: text_view(self.action),
            duration: text_view(self.duration),
            view: text_view(self.view),
            db: text_view(self.db),
            method: text_view(self.method),
            path: text_view(self.path),
        }
    }
}

/// The view of a record or an error.
pub open spec fn record_view(r: Result<PerfInfo, BuildError>) -> Result<PerfRecord, BuildError> {
    match r {
        Ok(info) => Ok(info@),
        Err(e) => Err(e),
    }
}

/// The name of a page: the method, a space, and the path.
pub open spec fn page_name(method: Seq<char>, path: Seq<char>) -> Seq<char> {
    method + seq![' '] + path
}

/// The patterns of all seven keys are accepted.
pub open spec fn all_patterns_accepted() -> bool {
    forall|key: Key| accepted(#[trigger] key.pattern_text())
}

/// What the pattern of `key` finds in `row`.
pub open spec fn found(key: Key, row: Seq<char>) -> Option<Seq<char>> {
    first_match(built(key.pattern_text()), row)
}

/// What the seven patterns find in `row`.
pub open spec fn found_in(row: Seq<char>) -> RowFound {
    RowFound {
        controller: found(Key::Controller, row),
        action: found(Key::Action, row),
        duration: found(Key::Duration, row),
        view: found(Key::View, row),
        db: found(Key::Db, row),
        method: found(Key::Method, row),
        path: found(Key::Path, row),
    }
}

/// The first key, in the order of `Key`, whose value cannot be had from
/// what was found, with the reason; `None` where all seven can.
pub open spec fn first_failure(f: RowFound) -> Option<BuildError> {
    if string_field(f.controller) is Err {
        Some(BuildError { key: Key::Controller, cause: string_field(f.controller)->Err_0 })
    } else if string_field(f.action) is Err {
        Some(BuildError { key: Key::Action, cause: string_field(f.action)->Err_0 })
    } else if duration_field(f.duration) is Err {
        Some(BuildError { key: Key::Duration, cause: duration_field(f.duration)->Err_0 })
    } else if duration_field(f.view) is Err {
        Some(BuildError { key: Key::View, cause: duration_field(f.view)->Err_0 })
    } else if duration_field(f.db) is Err {
        Some(BuildError { key: Key::Db, cause: duration_field(f.db)->Err_0 })
    } else if string_field(f.method) is Err {
        Some(BuildError { key: Key::Method, cause: string_field(f.method)->Err_0 })
    } else if string_field(f.path) is Err {
        Some(BuildError { key: Key::Path, cause: string_field(f.path)->Err_0 })
    } else {
        None
    }
}

/// The value of `key` cannot be had from what was found.
pub open spec fn key_fails(key: Key, f: RowFound) -> bool {
    match key {
        Key::Controller => string_field(f.controller) is Err,
        Key::Action => string_field(f.action) is Err,
        Key::Duration => duration_field(f.duration) is Err,
        Key::View => duration_field(f.view) is Err,
        Key::Db => duration_field(f.db) is Err,
        Key::Method => string_field(f.method) is Err,
        Key::Path => string_field(f.path) is Err,
    }
}

/// The record that the matches of one line give: the seven values, the page
/// named by method and path, and a count of one. Where a value cannot be
/// had, the first failure and no record.
pub open spec fn record_from(f: RowFound) -> Result<PerfRecord, BuildError> {
    match first_failure(f) {
        Some(e) => Err(e),
        None => Ok(
            PerfRecord {
                page: page_name(string_field(f.method)->Ok_0, string_field(f.path)->Ok_0),
                controller: string_field(f.controller)->Ok_0,
                action: string_field(f.action)->Ok_0,
                duration: duration_field(f.duration)->Ok_0 as nat,
                view: duration_field(f.view)->Ok_0 as nat,
                db: duration_field(f.db)->Ok_0 as nat,
                count: 1,
            },
        ),
    }
}

/// The record that `row` gives, or why it gives none.
pub open spec fn record_of(row: Seq<char>) -> Result<PerfRecord, BuildError> {
    record_from(found_in(row))
}

/// The page that the matches of method and path name; `NotFound` where one
/// of the two is missing.
pub open spec fn page_from(method: Option<Seq<char>>, path: Option<Seq<char>>) -> Result<
    Seq<char>,
    ExtractError,
> {
    match string_field(method) {
        Err(e) => Err(e),
        Ok(m) => match string_field(path) {
            Err(e) => Err(e),
            Ok(p) => Ok(page_name(m, p)),
        },
    }
}

/// The page that `row` names.
pub open spec fn page_of(row: Seq<char>) -> Result<Seq<char>, ExtractError> {
    page_from(found(Key::Method, row), found(Key::Path, row))
}

/// Joins method and path into the name of a page.
pub fn join_page(method: String, path: &str) -> (page: String)
    ensures
        page@ == page_name(method@, path@),
{
    proof {
        reveal_strlit(" ");
    }
    let mut page = method;
    page.append(" ");
    page.append(path);
    assert(" "@ =~= seq![' ']);
    page
}

/// The page that the matches of method and path name.
pub fn page_from_matches(method: Option<String>, path: Option<String>) -> (r: Result<
    String,
    ExtractError,
>)
    ensures
        text_result_view(r) == page_from(text_view(method), text_view(path)),
{
    match string_from_match(method) {
        Err(e) => Err(e),
        Ok(m) => match string_from_match(path) {
            Err(e) => Err(e),
            Ok(p) => Ok(join_page(m, p.as_str())),
        },
    }
}

/// The record that the matches of one line give, or the first failure.
pub fn record_from_matches(matches: RowMatches) -> (r: Result<PerfInfo, BuildError>)
    ensures
        record_view(r) == record_from(matches@),
{
    let controller = match string_from_match(matches.controller) {
        Ok(value) => value,
        Err(e) => return Err(BuildError { key: Key::Controller, cause: e }),
    };
    let action = match string_from_match(matches.action) {
        Ok(value) => value,
        Err(e) => return Err(BuildError { key: Key::Action, cause: e }),
    };
    let duration = match duration_from_match(matches.duration) {
        Ok(value) => value,
        Err(e) => return Err(BuildError { key: Key::Duration, cause: e }),
    };
    let view = match duration_from_match(matches.view) {
        Ok(value) => value,
        Err(e) => return Err(BuildError { key: Key::View, cause: e }),
    };
    let db = match duration_from_match(matches.db) {
        Ok(value) => value,
        Err(e) => return Err(BuildError { key: Key::Db, cause: e }),
    };
    let method = match string_from_match(matches.method) {
        Ok(value) => value,
        Err(e) => return Err(BuildError { key: Key::Method, cause: e }),
    };
    let path = match string_from_match(matches.path) {
        Ok(value) => value,
        Err(e) => return Err(BuildError { key: Key::Path, cause: e }),
    };
    Ok(
        PerfInfo {
            page: join_page(method, path.as_str()),
            controller,
            action,
            duration,
            view,
            db,
            count: 1,
        },
    )
}

/// Builds the regular expression of `key`.
pub(crate) fn compile_key(key: Key) -> (r: Result<Regex, BuildError>)
    ensures
        r is Ok <==> accepted(key.pattern_text()),
        match r {
            Ok(regex) => regex == built(key.pattern_text()),
            Err(e) => e == (BuildError { key, cause: ExtractError::BadPattern }),
        },
{
    match compile(key.pattern()) {
        Ok(regex) => Ok(regex),
        Err(_) => Err(BuildError { key, cause: ExtractError::BadPattern }),
    }
}

/// The regular expressions of the seven keys, built once and used for every
/// line.
pub struct RowPatterns {
    controller: Regex,
    action: Regex,
    duration: Regex,
    view: Regex,
    db: Regex,
    method: Regex,
    path: Regex,
}

impl RowPatterns {
    /// Each field is the regular expression of its key.
    #[verifier::type_invariant]
    spec fn well_formed(self) -> bool {
        &&& self.controller == built(Key::Controller.pattern_text())
        &&& self.action == built(Key::Action.pattern_text())
        &&& self.duration == built(Key::Duration.pattern_text())
        &&& self.view == built(Key::View.pattern_text())
        &&& self.db == built(Key::Db.pattern_text())
        &&& self.method == built(Key::Method.pattern_text())
        &&& self.path == built(Key::Path.pattern_text())
    }

    /// Builds the seven regular expressions. The only error is that of a
    /// pattern that was refused, with its key; where all seven are accepted
    /// there is none.
    pub fn new() -> (r: Result<RowPatterns, BuildError>)
        ensures
            r is Ok <==> all_patterns_accepted(),
            r matches Err(e) ==> e.cause == ExtractError::BadPattern && !accepted(
                e.key.pattern_text(),
            ),
    {
        let controller = match compile_key(Key::Controller) {
            Ok(regex) => regex,
            Err(e) => return Err(e),
        };
        let action = match compile_key(Key::Action) {
            Ok(regex) => regex,
            Err(e) => return Err(e),
        };
        let duration = match compile_key(Key::Duration) {
            Ok(regex) => regex,
            Err(e) => return Err(e),
        };
        let view = match compile_key(Key::View) {
            Ok(regex) => regex,
            Err(e) => return Err(e),
        };
        let db = match compile_key(Key::Db) {
            Ok(regex) => regex,
            Err(e) => return Err(e),
        };
        let method = match compile_key(Key::Method) {
            Ok(regex) => regex,
            Err(e) => return Err(e),
        };
        let path = match compile_key(Key::Path) {
            Ok(regex) => regex,
            Err(e) => return Err(e),
        };
        Ok(RowPatterns { controller, action, duration, view, db, method, path })
    }

    /// The regular expression of `key`.
    fn regex_of(&self, key: Key) -> (regex: &Regex)
        ensures
            *regex == built(key.pattern_text()),
    {
        proof {
            use_type_invariant(self);
        }
        match key {
            Key::Controller => &self.controller,
            Key::Action => &self.action,
            Key::Duration => &self.duration,
            Key::View => &self.view,
            Key::Db => &self.db,
            Key::Method => &self.method,
            Key::Path => &self.path,
        }
    }

    /// The value of `key` in `row`, as text: what stands between the `=`
    /// after the first `key` that begins a word and the next white space.
    /// `NotFound` where the key does not stand in the row.
    pub fn text_of(&self, key: Key, row: &str) -> (r: Result<String, ExtractError>)
        ensures
            text_result_view(r) == string_field(found(key, row@)),
    {
        string_from_match(whole_match(self.regex_of(key), row))
    }

    /// The value of `key` in `row`, as a timing in microseconds. `NotFound`
    /// where the key does not stand in the row, `InvalidValue` where its
    /// value is no number of milliseconds.
    pub fn timing_of(&self, key: Key, row: &str) -> (r: Result<u64, ExtractError>)
        ensures
            r == duration_field(found(key, row@)),
    {
        duration_from_match(whole_match(self.regex_of(key), row))
    }

    /// What the seven patterns find in `row`.
    pub fn matches(&self, row: &str) -> (m: RowMatches)
        ensures
            m@ == found_in(row@),
    {
        proof {
            use_type_invariant(self);
        }
        RowMatches {
            controller: whole_match(&self.controller, row),
            action: whole_match(&self.action, row),
            duration: whole_match(&self.duration, row),
            view: whole_match(&self.view, row),
            db: whole_match(&self.db, row),
            method: whole_match(&self.method, row),
            path: whole_match(&self.path, row),
        }
    }

    /// The record that `row` gives, or the first key that failed.
    pub fn record(&self, row: &str) -> (r: Result<PerfInfo, BuildError>)
        ensures
            record_view(r) == record_of(row@),
    {
        record_from_matches(self.matches(row))
    }

    /// Whether `row` names a path.
    pub fn names_path(&self, row: &str) -> (b: bool)
        ensures
            b == found(Key::Path, row@) is Some,
    {
        proof {
            use_type_invariant(self);
        }
        whole_match(&self.path, row).is_some()
    }

    /// The page that `row` names.
    pub fn page(&self, row: &str) -> (r: Result<String, ExtractError>)
        ensures
            text_result_view(r) == page_of(row@),
    {
        proof {
            use_type_invariant(self);
        }
        page_from_matches(whole_match(&self.method, row), whole_match(&self.path, row))
    }
}

/// The record that `row` gives. The patterns are built for this one call:
/// where all seven are accepted the result is what `record_of` says, and
/// where one is refused the error names it.
pub fn row_to_perf_info(row: &str) -> (r: Result<PerfInfo, BuildError>)
    ensures
        all_patterns_accepted() ==> record_view(r) == record_of(row@),
        !all_patterns_accepted() ==> r is Err && r->Err_0.cause == ExtractError::BadPattern
            && !accepted(r->Err_0.key.pattern_text()),
{
    match RowPatterns::new() {
        Err(e) => Err(e),
        Ok(patterns) => patterns.record(row),
    }
}

/// A line in which all seven keys are found, each with a value of its
/// kind, gives a record: it holds the seven values, its page is the method,
/// a space, and the path, and its count is one.
pub proof fn lemma_complete_row_gives_record(row: Seq<char>)
    requires
        forall|key: Key| !key_fails(key, found_in(row)),
    ensures
        record_of(row) is Ok,
        record_of(row)->Ok_0.page == page_name(
            string_field(found(Key::Method, row))->Ok_0,
            string_field(found(Key::Path, row))->Ok_0,
        ),
        record_of(row)->Ok_0.controller == string_field(found(Key::Controller, row))->Ok_0,
        record_of(row)->Ok_0.action == string_field(found(Key::Action, row))->Ok_0,
        record_of(row)->Ok_0.duration == duration_field(found(Key::Duration, row))->Ok_0,
        record_of(row)->Ok_0.view == duration_field(found(Key::View, row))->Ok_0,
        record_of(row)->Ok_0.db == duration_field(found(Key::Db, row))->Ok_0,
        record_of(row)->Ok_0.count == 1,
{
    let f = found_in(row);
    assert(!key_fails(Key::Controller, f));
    assert(!key_fails(Key::Action, f));
    assert(!key_fails(Key::Duration, f));
    assert(!key_fails(Key::View, f));
    assert(!key_fails(Key::Db, f));
    assert(!key_fails(Key::Method, f));
    assert(!key_fails(Key::Path, f));
}

/// A line in which one of the seven keys is missing, or has a value that is
/// not of its kind, gives no record; the error names a key that fails, and
/// no key before it in the order of reading fails.
pub proof fn lemma_incomplete_row_gives_none(row: Seq<char>, key: Key)
    requires
        key_fails(key, found_in(row)),
    ensures
        record_of(row) is Err,
        key_fails(record_of(row)->Err_0.key, found_in(row)),
        record_of(row)->Err_0.cause != ExtractError::BadPattern,
{
}

} // verus!
