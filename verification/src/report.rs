//! From the lines of a log to the report.
//!
//! The report holds the figures of every page and the ranking of the pages.
//! Lines that give no record are passed over without a word: a log holds
//! many lines that are no requests.

use crate::aggregate::{
    digested, ingested_line, lemma_digested_consistent, Aggregates, Aggregator,
};
use crate::order::texts;
use crate::rank::{
    is_ranking, lemma_ranking_covers_all, lemma_ranking_unique, rank_all, ranking, Ranked,
    RankedPage,
};
use crate::pattern::accepted;
use crate::row::{all_patterns_accepted, BuildError, RowPatterns};
use crate::text_extractor::ExtractError;
use vstd::prelude::*;

verus! {

/// The figures of every page, and the pages ranked by them.
pub struct Report {
    pub aggregates: Aggregator,
    pub ranked: Vec<RankedPage>,
}

/// What a `Report` holds, as mathematical values.
pub struct ReportView {
    pub aggregates: Aggregates,
    pub ranked: Seq<Ranked>,
}

impl View for Report {
    type V = ReportView;

    open spec fn view(&self) -> ReportView {
        ReportView { aggregates: self.aggregates@, ranked: ranking(self.ranked@) }
    }
}

/// `report` is the report on `rows`: its figures are those after all rows
/// were read, first to last, and its ranking is that of all its pages.
pub open spec fn is_report_of(report: ReportView, rows: Seq<Seq<char>>) -> bool {
    &&& report.aggregates == digested(rows)
    &&& is_ranking(report.ranked, report.aggregates.records, report.aggregates.pages)
}

/// A line that gives a record counts as one request.
pub proof fn lemma_line_counts_once(state: Aggregates, row: Seq<char>)
    ensures
        ingested_line(state, row).observations <= state.observations + 1,
{
}

/// Given rows have one report and no other.
pub proof fn lemma_report_unique(a: ReportView, b: ReportView, rows: Seq<Seq<char>>)
    requires
        is_report_of(a, rows),
        is_report_of(b, rows),
    ensures
        a == b,
{
    let state = digested(rows);
    lemma_ranking_unique(a.ranked, b.ranked, state.records, state.pages, state.pages);
}

/// The ranking of a report has one line for each page of the report.
pub proof fn lemma_report_ranks_every_page(report: ReportView, rows: Seq<Seq<char>>)
    requires
        is_report_of(report, rows),
    ensures
        report.ranked.len() == report.aggregates.pages.len(),
        forall|page: Seq<char>| #[trigger]
            report.aggregates.records.contains_key(page) ==> exists|i: int|
                0 <= i < report.ranked.len() && (#[trigger] report.ranked[i]).page == page,
{
    lemma_digested_consistent(rows);
    lemma_ranking_covers_all(report.ranked, report.aggregates);
}

/// Puts the figures and the ranking together. Nothing is computed.
pub fn assemble(aggregates: Aggregator, ranked: Vec<RankedPage>) -> (r: Report)
    ensures
        r@ == (ReportView { aggregates: aggregates@, ranked: ranking(ranked@) }),
{
    Report { aggregates, ranked }
}

/// The report on `lines`, read with `patterns`.
pub fn summarize(patterns: &RowPatterns, lines: &Vec<String>) -> (r: Report)
    ensures
        is_report_of(r@, texts(lines@)),
{
    let ghost rows = texts(lines@);
    let mut aggregates = Aggregator::new();
    let mut i: usize = 0;
    assert(rows.take(0) =~= Seq::<Seq<char>>::empty());
    while i < lines.len()
        invariant
            0 <= i <= lines.len(),
            rows == texts(lines@),
            aggregates@ == digested(rows.take(i as int)),
            aggregates@.observations <= i,
        decreases lines.len() - i,
    {
        proof {
            assert(rows.take(i + 1).drop_last() =~= rows.take(i as int));
            assert(rows.take(i + 1).last() == lines[i as int]@);
            lemma_line_counts_once(aggregates@, lines[i as int]@);
        }
        aggregates = aggregates.ingest_line(patterns, lines[i].as_str());
        i += 1;
    }
    assert(rows.take(lines.len() as int) =~= rows);
    let ranked = rank_all(&aggregates);
    assemble(aggregates, ranked)
}

/// The report on `lines`. The patterns are built first: where all seven are
/// accepted there is a report, and where one is refused there is none, and
/// the error names its key.
pub fn build_page_information(lines: &Vec<String>) -> (r: Result<Report, BuildError>)
    ensures
        r is Ok <==> all_patterns_accepted(),
        match r {
            Ok(report) => is_report_of(report@, texts(lines@)),
            Err(e) => e.cause == ExtractError::BadPattern && !accepted(e.key.pattern_text()),
        },
{
    match RowPatterns::new() {
        Ok(patterns) => Ok(summarize(&patterns, lines)),
        Err(e) => Err(e),
    }
}

} // verus!
