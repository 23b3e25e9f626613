//! The running figures of every page.
//!
//! Each record is folded into the figures of its page as it arrives. The
//! first record of a page is kept as it is. Every later one is merged with
//! what the page has so far: each timing becomes the mean of the new value
//! and the old one. That is a running mean of pairs and not the mean of all
//! requests: the weight of a request halves with each one that follows it,
//! so the order of the records matters.

use crate::order::{ascending, page_before, sorted_pages, texts};
use crate::perf_info::{merge_perf_info, merged, PerfInfo, PerfRecord};
use crate::row::{record_of, RowPatterns};
use vstd::hash_map::StringHashMap;
use vstd::prelude::*;

verus! {

/// What an `Aggregator` holds, as mathematical values.
pub struct Aggregates {
    /// The figures of each page, by the name of the page.
    pub records: Map<Seq<char>, PerfRecord>,
    /// The pages, each once, in the order in which they were first seen.
    pub pages: Seq<Seq<char>>,
    /// The sum of the counts of all records taken in.
    pub observations: nat,
}

/// The state before any record.
pub open spec fn no_aggregates() -> Aggregates {
    Aggregates { records: Map::empty(), pages: Seq::empty(), observations: 0 }
}

/// The state after `record` was taken in.
pub open spec fn ingested(state: Aggregates, record: PerfRecord) -> Aggregates {
    if state.records.contains_key(record.page) {
        Aggregates {
            records: state.records.insert(
                record.page,
                merged(record, state.records[record.page]),
            ),
            pages: state.pages,
            observations: state.observations + record.count,
        }
    } else {
        Aggregates {
            records: state.records.insert(record.page, record),
            pages: state.pages.push(record.page),
            observations: state.observations + record.count,
        }
    }
}

/// The state after the line `row` was read: that after its record was taken
/// in, and the state as it was where the line gives no record.
pub open spec fn ingested_line(state: Aggregates, row: Seq<char>) -> Aggregates {
    match record_of(row) {
        Ok(record) => ingested(state, record),
        Err(_) => state,
    }
}

/// The state after all of `records` were taken in, first to last.
pub open spec fn aggregated(records: Seq<PerfRecord>) -> Aggregates
    decreases records.len(),
{
    if records.len() == 0 {
        no_aggregates()
    } else {
        ingested(aggregated(records.drop_last()), records.last())
    }
}

/// The state after all of `rows` were read, first to last.
pub open spec fn digested(rows: Seq<Seq<char>>) -> Aggregates
    decreases rows.len(),
{
    if rows.len() == 0 {
        no_aggregates()
    } else {
        ingested_line(digested(rows.drop_last()), rows.last())
    }
}

/// The invariant of the state: the pages listed are those that have
/// figures, none is listed twice, the figures of a page bear its name, and
/// no count is more than the sum of all counts.
pub open spec fn consistent(state: Aggregates) -> bool {
    &&& forall|i: int, j: int|
        0 <= i < j < state.pages.len() ==> state.pages[i] != state.pages[j]
    &&& forall|page: Seq<char>|
        state.records.contains_key(page) <==> state.pages.contains(page)
    &&& forall|page: Seq<char>| #[trigger]
        state.records.contains_key(page) ==> state.records[page].page == page
            && state.records[page].count <= state.observations
}

/// Taking in a record keeps the state consistent.
pub proof fn lemma_ingested_consistent(state: Aggregates, record: PerfRecord)
    requires
        consistent(state),
    ensures
        consistent(ingested(state, record)),
{
    let next = ingested(state, record);
    if state.records.contains_key(record.page) {
        assert forall|page: Seq<char>| next.records.contains_key(page) <==> next.pages.contains(
            page,
        ) by {
            if page == record.page {
                assert(state.records.contains_key(page));
            }
        }
    } else {
        assert forall|page: Seq<char>| next.records.contains_key(page) <==> next.pages.contains(
            page,
        ) by {
            if page == record.page {
                assert(next.pages[state.pages.len() as int] == page);
            } else if state.pages.contains(page) {
                let i = choose|i: int| 0 <= i < state.pages.len() && state.pages[i] == page;
                assert(next.pages[i] == page);
            } else if next.pages.contains(page) {
                let i = choose|i: int| 0 <= i < next.pages.len() && next.pages[i] == page;
                assert(state.pages[i] == page);
            }
        }
        assert forall|i: int, j: int| 0 <= i < j < next.pages.len() implies next.pages[i]
            != next.pages[j] by {
            if j == state.pages.len() {
                assert(state.pages.contains(state.pages[i]));
            }
        }
    }
}

/// Whatever records were taken in, the state is consistent.
pub proof fn lemma_aggregated_consistent(records: Seq<PerfRecord>)
    ensures
        consistent(aggregated(records)),
    decreases records.len(),
{
    if records.len() > 0 {
        lemma_aggregated_consistent(records.drop_last());
        lemma_ingested_consistent(aggregated(records.drop_last()), records.last());
    }
}

/// The records that `rows` give, in the order of the rows; a row that gives
/// none leaves no trace.
pub open spec fn records_in(rows: Seq<Seq<char>>) -> Seq<PerfRecord>
    decreases rows.len(),
{
    if rows.len() == 0 {
        Seq::empty()
    } else {
        match record_of(rows.last()) {
            Ok(record) => records_in(rows.drop_last()).push(record),
            Err(_) => records_in(rows.drop_last()),
        }
    }
}

/// To read rows is to take in the records that they give.
pub proof fn lemma_digested_is_aggregated(rows: Seq<Seq<char>>)
    ensures
        digested(rows) == aggregated(records_in(rows)),
    decreases rows.len(),
{
    if rows.len() > 0 {
        lemma_digested_is_aggregated(rows.drop_last());
        match record_of(rows.last()) {
            Ok(record) => {
                let before = records_in(rows.drop_last());
                assert(before.push(record).drop_last() =~= before);
            },
            Err(_) => {},
        }
    }
}

/// Whatever rows were read, the state is consistent.
pub proof fn lemma_digested_consistent(rows: Seq<Seq<char>>)
    ensures
        consistent(digested(rows)),
{
    lemma_digested_is_aggregated(rows);
    lemma_aggregated_consistent(records_in(rows));
}

/// A row that gives no record changes nothing: the state after it is the
/// state before it.
pub proof fn lemma_failed_row_changes_nothing(rows: Seq<Seq<char>>, row: Seq<char>)
    requires
        record_of(row) is Err,
    ensures
        digested(rows.push(row)) == digested(rows),
        forall|state: Aggregates| ingested_line(state, row) == state,
{
    assert(rows.push(row).drop_last() =~= rows);
}

/// Those of `records` that are of `page`, in their order.
pub open spec fn of_page(records: Seq<PerfRecord>, page: Seq<char>) -> Seq<PerfRecord> {
    records.filter(|record: PerfRecord| record.page == page)
}

/// The figures that the records of one page give, merged one after the
/// other in the order in which they came: the first as it is, and each
/// later one with what the earlier ones gave.
pub open spec fn folded(observations: Seq<PerfRecord>) -> PerfRecord
    recommends
        observations.len() > 0,
    decreases observations.len(),
{
    if observations.len() <= 1 {
        observations[0]
    } else {
        merged(observations.last(), folded(observations.drop_last()))
    }
}

/// A page has figures where a record of it was taken in, and its figures
/// are those that its records give when they are merged one after the
/// other, in the order in which they came.
pub proof fn lemma_figures_of_page(records: Seq<PerfRecord>, page: Seq<char>)
    ensures
        aggregated(records).records.contains_key(page) <==> of_page(records, page).len() > 0,
        aggregated(records).records.contains_key(page) ==> aggregated(records).records[page]
            == folded(of_page(records, page)),
    decreases records.len(),
{
    reveal(Seq::filter);
    if records.len() > 0 {
        let earlier = records.drop_last();
        let last = records.last();
        lemma_figures_of_page(earlier, page);
        let before = of_page(earlier, page);
        if last.page == page {
            assert(of_page(records, page) == before.push(last));
            assert(before.push(last).drop_last() =~= before);
        } else {
            assert(of_page(records, page) == before);
        }
    }
}

/// The count of merged records is the sum of their counts: where each
/// record is one request, it is the number of the records, and where each
/// is at least one request, it is at least that number.
pub proof fn lemma_folded_count(observations: Seq<PerfRecord>)
    requires
        observations.len() > 0,
    ensures
        (forall|i: int| 0 <= i < observations.len() ==> (#[trigger] observations[i]).count == 1)
            ==> folded(observations).count == observations.len(),
        (forall|i: int| 0 <= i < observations.len() ==> (#[trigger] observations[i]).count >= 1)
            ==> folded(observations).count >= observations.len(),
    decreases observations.len(),
{
    if observations.len() > 1 {
        let earlier = observations.drop_last();
        lemma_folded_count(earlier);
        assert(forall|i: int| 0 <= i < earlier.len() ==> earlier[i] == observations[i]);
    }
}

/// Each record that a row gives counts as one request.
pub proof fn lemma_rows_count_once(rows: Seq<Seq<char>>)
    ensures
        forall|i: int|
            0 <= i < records_in(rows).len() ==> (#[trigger] records_in(rows)[i]).count == 1,
    decreases rows.len(),
{
    if rows.len() > 0 {
        let earlier = records_in(rows.drop_last());
        lemma_rows_count_once(rows.drop_last());
        assert forall|i: int| 0 <= i < records_in(rows).len() implies (#[trigger] records_in(
            rows,
        )[i]).count == 1 by {
            if i < earlier.len() {
                assert(records_in(rows)[i] == earlier[i]);
            }
        }
    }
}

/// After rows were read, the count of a page is the number of the rows that
/// gave a record of it, and it is at least one.
pub proof fn lemma_count_of_page(rows: Seq<Seq<char>>, page: Seq<char>)
    requires
        digested(rows).records.contains_key(page),
    ensures
        digested(rows).records[page].count == of_page(records_in(rows), page).len(),
        digested(rows).records[page].count >= 1,
{
    let records = records_in(rows);
    let observations = of_page(records, page);
    lemma_digested_is_aggregated(rows);
    lemma_figures_of_page(records, page);
    lemma_rows_count_once(rows);
    assert forall|i: int| 0 <= i < observations.len() implies (#[trigger] observations[i]).count
        == 1 by {
        records.lemma_filter_contains_rev(
            |record: PerfRecord| record.page == page,
            observations[i],
        );
        assert(records.contains(observations[i]));
    }
    lemma_folded_count(observations);
}

/// `list` holds the figures of `records`, one entry for each page, in the
/// alphabetical order of the pages.
pub open spec fn is_listing(list: Seq<PerfRecord>, records: Map<Seq<char>, PerfRecord>) -> bool {
    &&& forall|i: int|
        0 <= i < list.len() ==> records.contains_key((#[trigger] list[i]).page) && list[i]
            == records[list[i].page]
    &&& forall|page: Seq<char>| #[trigger]
        records.contains_key(page) ==> exists|i: int|
            0 <= i < list.len() && (#[trigger] list[i]).page == page
    &&& forall|i: int, j: int|
        0 <= i < j < list.len() ==> page_before(
            (#[trigger] list[i]).page,
            (#[trigger] list[j]).page,
        )
}

/// The records that a list of `PerfInfo` holds.
pub open spec fn record_views(v: Seq<PerfInfo>) -> Seq<PerfRecord> {
    Seq::new(v.len(), |i: int| v[i]@)
}

/// The figures of all pages seen so far.
pub struct Aggregator {
    records: StringHashMap<PerfInfo>,
    pages: Vec<String>,
    observations: u64,
}

/// The mathematical values of the three parts of an `Aggregator`.
spec fn state_of(records: Map<Seq<char>, PerfInfo>, pages: Seq<String>, observations: u64)
    -> Aggregates {
    Aggregates {
        records: Map::new(
            |page: Seq<char>| records.contains_key(page),
            |page: Seq<char>| records[page]@,
        ),
        pages: texts(pages),
        observations: observations as nat,
    }
}

impl View for Aggregator {
    type V = Aggregates;

    closed spec fn view(&self) -> Aggregates {
        state_of(self.records@, self.pages@, self.observations)
    }
}

impl Aggregator {
    #[verifier::type_invariant]
    closed spec fn well_formed(self) -> bool {
        consistent(self@)
    }

    /// An aggregator that has seen no record.
    pub fn new() -> (r: Aggregator)
        ensures
            r@ == no_aggregates(),
    {
        let r = Aggregator { records: StringHashMap::new(), pages: Vec::new(), observations: 0 };
        assert(r@.records =~= Map::empty());
        assert(r@.pages =~= Seq::empty());
        r
    }

    /// The sum of the counts of all records taken in.
    pub fn observations(&self) -> (n: u64)
        ensures
            n == self@.observations,
    {
        self.observations
    }

    /// The number of pages.
    pub fn len(&self) -> (n: usize)
        ensures
            n == self@.pages.len(),
    {
        self.pages.len()
    }

    /// The names of the pages, in the order in which they were first seen.
    pub fn pages(&self) -> (names: &Vec<String>)
        ensures
            texts(names@) == self@.pages,
    {
        &self.pages
    }

    /// The figures of `page`, or `None` where no record of it was seen.
    pub fn get(&self, page: &str) -> (r: Option<&PerfInfo>)
        ensures
            match r {
                Some(info) => self@.records.contains_key(page@) && info@ == self@.records[page@],
                None => !self@.records.contains_key(page@),
            },
    {
        self.records.get(page)
    }

    /// The figures of all pages, in the alphabetical order of the pages.
    pub fn sorted_records(&self) -> (list: Vec<PerfInfo>)
        ensures
            is_listing(record_views(list@), self@.records),
    {
        proof {
            use_type_invariant(self);
        }
        let sorted = sorted_pages(&self.pages);
        let ghost names = texts(sorted@);
        let ghost records = self@.records;
        proof {
            let pages = self@.pages;
            assert(pages == texts(self.pages@));
            assert forall|x: Seq<char>| names.contains(x) <==> records.contains_key(x) by {
                assert(names.contains(x) <==> pages.contains(x));
                assert(records.contains_key(x) <==> pages.contains(x));
            }
        }
        let mut list: Vec<PerfInfo> = Vec::new();
        let mut i: usize = 0;
        while i < sorted.len()
            invariant
                0 <= i <= sorted.len(),
                names == texts(sorted@),
                records == self@.records,
                ascending(names),
                forall|x: Seq<char>| names.contains(x) <==> records.contains_key(x),
                forall|x: Seq<char>| #[trigger]
                    records.contains_key(x) ==> records[x].page == x,
                list.len() == i,
                forall|m: int|
                    0 <= m < i ==> (#[trigger] list[m])@ == records[names[m]] && list[m]@.page
                        == names[m],
            decreases sorted.len() - i,
        {
            assert(names.contains(names[i as int]));
            match self.records.get(sorted[i].as_str()) {
                Some(info) => {
                    list.push(info.clone());
                },
                None => {
                    assert(false);
                },
            }
            i += 1;
        }
        proof {
            let views = record_views(list@);
            assert forall|m: int| 0 <= m < views.len() implies records.contains_key(
                (#[trigger] views[m]).page,
            ) && views[m] == records[views[m].page] by {
                assert(views[m] == list[m]@);
                assert(names.contains(names[m]));
            }
            assert forall|page: Seq<char>| #[trigger] records.contains_key(page) implies exists|
                m: int,
            |
                0 <= m < views.len() && (#[trigger] views[m]).page == page by {
                assert(names.contains(page));
                let w = choose|w: int| 0 <= w < names.len() && names[w] == page;
                assert(views[w] == list[w]@);
            }
            assert forall|a: int, b: int| 0 <= a < b < views.len() implies page_before(
                (#[trigger] views[a]).page,
                (#[trigger] views[b]).page,
            ) by {
                assert(views[a] == list[a]@);
                assert(views[b] == list[b]@);
            }
        }
        list
    }

    /// Takes in one record: the first of a page is kept as it is, a later
    /// one is merged into the figures of its page.
    pub fn ingest(self, record: PerfInfo) -> (r: Aggregator)
        requires
            self@.observations + record.count <= u64::MAX,
        ensures
            r@ == ingested(self@, record@),
    {
        proof {
            use_type_invariant(&self);
            lemma_ingested_consistent(self@, record@);
        }
        let ghost before = self@;
        let Aggregator { mut records, mut pages, observations } = self;
        let key = record.page.clone();
        let total = observations + record.count;
        match records.get(key.as_str()) {
            Some(existing) => {
                assert(existing@ == before.records[record@.page]);
                let merged = merge_perf_info(record, existing);
                records.insert(key, merged);
            },
            None => {
                let name = key.clone();
                records.insert(key, record);
                pages.push(name);
            },
        }
        proof {
            let after = state_of(records@, pages@, total);
            assert(after.records =~= ingested(before, record@).records);
            assert(after.pages =~= ingested(before, record@).pages);
        }
        Aggregator { records, pages, observations: total }
    }

    /// Reads one line: its record is taken in, and a line that gives no
    /// record changes nothing.
    pub fn ingest_line(self, patterns: &RowPatterns, row: &str) -> (r: Aggregator)
        requires
            self@.observations < u64::MAX,
        ensures
            r@ == ingested_line(self@, row@),
    {
        match patterns.record(row) {
            Ok(record) => self.ingest(record),
            Err(_) => self,
        }
    }
}

} // verus!
