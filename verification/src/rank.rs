//! The pages ranked by their duration, slowest first.
//!
//! Pages of equal duration stand in alphabetical order. As no two entries
//! bear the same name, the ranking of given figures is one list and no other.

use crate::aggregate::{consistent, Aggregates, Aggregator};
use crate::order::{
    ascending, lemma_before_irreflexive, lemma_before_transitive, page_before, sorted_pages,
    texts,
};
use crate::perf_info::PerfRecord;
use vstd::prelude::*;

verus! {

/// One line of the ranking: a page, the duration that its figures hold, in
/// microseconds, and the number of its requests.
#[derive(Debug)]
pub struct RankedPage {
    pub page: String,
    pub average_duration: u64,
    pub count: u64,
}

/// What a `RankedPage` holds, as mathematical values.
pub struct Ranked {
    pub page: Seq<char>,
    pub average_duration: nat,
    pub count: nat,
}

impl View for RankedPage {
    type V = Ranked;

    open spec fn view(&self) -> Ranked {
        Ranked {
            page: self.page@,
            average_duration: self.average_duration as nat,
            count: self.count as nat,
        }
    }
}

impl Clone for RankedPage {
    fn clone(&self) -> (r: Self)
        ensures
            r == *self,
    {
        RankedPage {
            page: self.page.clone(),
            average_duration: self.average_duration,
            count: self.count,
        }
    }
}

/// The lines that a list of `RankedPage` holds.
pub open spec fn ranking(v: Seq<RankedPage>) -> Seq<Ranked> {
    Seq::new(v.len(), |i: int| v[i]@)
}

/// The line of the ranking for `page` with the figures `record`.
pub open spec fn entry(page: Seq<char>, record: PerfRecord) -> Ranked {
    Ranked { page, average_duration: record.duration, count: record.count }
}

/// `a` stands before `b` in a ranking: it has the longer duration, or the
/// same duration and the name that comes first in the alphabet.
pub open spec fn ranks_before(a: Ranked, b: Ranked) -> bool {
    a.average_duration > b.average_duration || (a.average_duration == b.average_duration
        && page_before(a.page, b.page))
}

/// `ranked` is the ranking of those of `pages` that have figures in
/// `records`: each line is that of such a page, each such page has a line,
/// and each line stands before all later ones.
pub open spec fn is_ranking(
    ranked: Seq<Ranked>,
    records: Map<Seq<char>, PerfRecord>,
    pages: Seq<Seq<char>>,
) -> bool {
    &&& forall|i: int|
        0 <= i < ranked.len() ==> {
            let page = (#[trigger] ranked[i]).page;
            pages.contains(page) && records.contains_key(page) && ranked[i] == entry(
                page,
                records[page],
            )
        }
    &&& forall|page: Seq<char>|
        pages.contains(page) && #[trigger] records.contains_key(page) ==> exists|i: int|
            0 <= i < ranked.len() && (#[trigger] ranked[i]).page == page
    &&& forall|i: int, j: int|
        0 <= i < j < ranked.len() ==> ranks_before(#[trigger] ranked[i], #[trigger] ranked[j])
}

/// No line stands before itself.
pub proof fn lemma_ranks_irreflexive(a: Ranked)
    ensures
        !ranks_before(a, a),
{
    lemma_before_irreflexive(a.page);
}

/// The order of a ranking is transitive.
pub proof fn lemma_ranks_transitive(a: Ranked, b: Ranked, c: Ranked)
    requires
        ranks_before(a, b),
        ranks_before(b, c),
    ensures
        ranks_before(a, c),
{
    if a.average_duration == b.average_duration && b.average_duration == c.average_duration {
        lemma_before_transitive(a.page, b.page, c.page);
    }
}

/// A page without figures adds no line.
pub proof fn lemma_rank_skip(
    ranked: Seq<Ranked>,
    records: Map<Seq<char>, PerfRecord>,
    pages: Seq<Seq<char>>,
    name: Seq<char>,
)
    requires
        is_ranking(ranked, records, pages),
        !records.contains_key(name),
    ensures
        is_ranking(ranked, records, pages.push(name)),
{
    let next = pages.push(name);
    assert forall|i: int| 0 <= i < ranked.len() implies next.contains((#[trigger] ranked[i]).page) by {
        let page = ranked[i].page;
        let w = choose|w: int| 0 <= w < pages.len() && pages[w] == page;
        assert(next[w] == page);
    }
    assert forall|page: Seq<char>|
        next.contains(page) && #[trigger] records.contains_key(page) implies exists|i: int|
        0 <= i < ranked.len() && (#[trigger] ranked[i]).page == page by {
        let w = choose|w: int| 0 <= w < next.len() && next[w] == page;
        assert(pages[w] == page);
        assert(pages.contains(page));
    }
}

/// A page that comes after all pages ranked so far gets its line at the end
/// of the lines that are as slow as it or slower.
pub proof fn lemma_rank_insert(
    ranked: Seq<Ranked>,
    records: Map<Seq<char>, PerfRecord>,
    pages: Seq<Seq<char>>,
    name: Seq<char>,
    at: int,
)
    requires
        is_ranking(ranked, records, pages),
        records.contains_key(name),
        forall|w: int| 0 <= w < pages.len() ==> page_before(#[trigger] pages[w], name),
        0 <= at <= ranked.len(),
        forall|m: int|
            0 <= m < at ==> (#[trigger] ranked[m]).average_duration >= records[name].duration,
        forall|m: int|
            at <= m < ranked.len() ==> (#[trigger] ranked[m]).average_duration
                < records[name].duration,
    ensures
        is_ranking(ranked.insert(at, entry(name, records[name])), records, pages.push(name)),
{
    let line = entry(name, records[name]);
    let after = ranked.insert(at, line);
    let next = pages.push(name);
    assert forall|i: int| 0 <= i < after.len() implies {
        let page = (#[trigger] after[i]).page;
        next.contains(page) && records.contains_key(page) && after[i] == entry(
            page,
            records[page],
        )
    } by {
        if i == at {
            assert(next[pages.len() as int] == name);
        } else {
            let i0 = if i < at {
                i
            } else {
                i - 1
            };
            assert(after[i] == ranked[i0]);
            let page = ranked[i0].page;
            let w = choose|w: int| 0 <= w < pages.len() && pages[w] == page;
            assert(next[w] == page);
        }
    }
    assert forall|page: Seq<char>|
        next.contains(page) && #[trigger] records.contains_key(page) implies exists|i: int|
        0 <= i < after.len() && (#[trigger] after[i]).page == page by {
        let w = choose|w: int| 0 <= w < next.len() && next[w] == page;
        if w == pages.len() {
            assert(after[at].page == page);
        } else {
            assert(pages[w] == page);
            assert(pages.contains(page));
            let i = choose|i: int| 0 <= i < ranked.len() && (#[trigger] ranked[i]).page == page;
            let i1 = if i < at {
                i
            } else {
                i + 1
            };
            assert(after[i1] == ranked[i]);
        }
    }
    assert forall|i: int, j: int| 0 <= i < j < after.len() implies ranks_before(
        #[trigger] after[i],
        #[trigger] after[j],
    ) by {
        if j == at {
            assert(after[i] == ranked[i]);
            let page = ranked[i].page;
            let w = choose|w: int| 0 <= w < pages.len() && pages[w] == page;
            assert(page_before(pages[w], name));
        } else if i == at {
            assert(after[j] == ranked[j - 1]);
        } else {
            let i0 = if i < at {
                i
            } else {
                i - 1
            };
            let j0 = if j < at {
                j
            } else {
                j - 1
            };
            assert(after[i] == ranked[i0]);
            assert(after[j] == ranked[j0]);
        }
    }
}

/// A ranking of some pages is the ranking of any list of the same pages.
pub proof fn lemma_rank_same_pages(
    ranked: Seq<Ranked>,
    records: Map<Seq<char>, PerfRecord>,
    pages: Seq<Seq<char>>,
    others: Seq<Seq<char>>,
)
    requires
        is_ranking(ranked, records, pages),
        forall|x: Seq<char>| pages.contains(x) <==> others.contains(x),
    ensures
        is_ranking(ranked, records, others),
{
    assert forall|page: Seq<char>|
        others.contains(page) && #[trigger] records.contains_key(page) implies exists|i: int|
        0 <= i < ranked.len() && (#[trigger] ranked[i]).page == page by {
        assert(pages.contains(page));
    }
}

/// In a ranking no line has a longer duration than a line before it, and
/// of two lines with one duration the first has the name that comes first
/// in the alphabet.
pub proof fn lemma_ranking_descends(
    ranked: Seq<Ranked>,
    records: Map<Seq<char>, PerfRecord>,
    pages: Seq<Seq<char>>,
    i: int,
    j: int,
)
    requires
        is_ranking(ranked, records, pages),
        0 <= i < j < ranked.len(),
    ensures
        ranked[i].average_duration >= ranked[j].average_duration,
        ranked[i].average_duration == ranked[j].average_duration ==> page_before(
            ranked[i].page,
            ranked[j].page,
        ),
{
    assert(ranks_before(ranked[i], ranked[j]));
}

/// Given figures have one ranking: two rankings of the same pages over the
/// same figures are the same list, in whatever order the pages were given.
pub proof fn lemma_ranking_unique(
    a: Seq<Ranked>,
    b: Seq<Ranked>,
    records: Map<Seq<char>, PerfRecord>,
    pages: Seq<Seq<char>>,
    others: Seq<Seq<char>>,
)
    requires
        is_ranking(a, records, pages),
        is_ranking(b, records, others),
        forall|x: Seq<char>| pages.contains(x) <==> others.contains(x),
    ensures
        a == b,
{
    lemma_rank_same_pages(b, records, others, pages);
    assert forall|x: Ranked| a.contains(x) <==> b.contains(x) by {
        if a.contains(x) {
            let i = choose|i: int| 0 <= i < a.len() && a[i] == x;
            assert(pages.contains(a[i].page) && records.contains_key(a[i].page));
            let m = choose|m: int| 0 <= m < b.len() && (#[trigger] b[m]).page == x.page;
            assert(b[m] == x);
        }
        if b.contains(x) {
            let i = choose|i: int| 0 <= i < b.len() && b[i] == x;
            assert(pages.contains(b[i].page) && records.contains_key(b[i].page));
            let m = choose|m: int| 0 <= m < a.len() && (#[trigger] a[m]).page == x.page;
            assert(a[m] == x);
        }
    }
    lemma_ranked_unique(a, b);
}

/// Two lists in the order of a ranking that hold the same lines are the
/// same list.
proof fn lemma_ranked_unique(a: Seq<Ranked>, b: Seq<Ranked>)
    requires
        forall|i: int, j: int|
            0 <= i < j < a.len() ==> ranks_before(#[trigger] a[i], #[trigger] a[j]),
        forall|i: int, j: int|
            0 <= i < j < b.len() ==> ranks_before(#[trigger] b[i], #[trigger] b[j]),
        forall|x: Ranked| a.contains(x) <==> b.contains(x),
    ensures
        a == b,
    decreases a.len(),
{
    if a.len() == 0 {
        if b.len() > 0 {
            assert(b.contains(b[0]));
        }
        assert(a =~= b);
    } else {
        let x = a.last();
        assert(a.contains(x));
        lemma_ranks_irreflexive(x);
        let j = choose|j: int| 0 <= j < b.len() && b[j] == x;
        if j < b.len() - 1 {
            let y = b.last();
            assert(ranks_before(b[j], b[b.len() - 1]));
            assert(b.contains(y));
            let i = choose|i: int| 0 <= i < a.len() && a[i] == y;
            if i < a.len() - 1 {
                assert(ranks_before(a[i], a[a.len() - 1]));
                lemma_ranks_transitive(x, y, x);
            }
        }
        let a0 = a.drop_last();
        let b0 = b.drop_last();
        assert forall|z: Ranked| a0.contains(z) <==> b0.contains(z) by {
            if a0.contains(z) {
                let i = choose|i: int| 0 <= i < a0.len() && a0[i] == z;
                assert(a[i] == z);
                assert(ranks_before(a[i], a[a.len() - 1]));
                assert(a.contains(z));
                let m = choose|m: int| 0 <= m < b.len() && b[m] == z;
                assert(b0[m] == z);
            }
            if b0.contains(z) {
                let m = choose|m: int| 0 <= m < b0.len() && b0[m] == z;
                assert(b[m] == z);
                assert(ranks_before(b[m], b[b.len() - 1]));
                assert(b.contains(z));
                let i = choose|i: int| 0 <= i < a.len() && a[i] == z;
                assert(a0[i] == z);
            }
        }
        assert forall|i: int, j: int| 0 <= i < j < a0.len() implies ranks_before(
            #[trigger] a0[i],
            #[trigger] a0[j],
        ) by {
            assert(a0[i] == a[i] && a0[j] == a[j]);
        }
        assert forall|i: int, j: int| 0 <= i < j < b0.len() implies ranks_before(
            #[trigger] b0[i],
            #[trigger] b0[j],
        ) by {
            assert(b0[i] == b[i] && b0[j] == b[j]);
        }
        lemma_ranked_unique(a0, b0);
        assert(a =~= a0.push(x));
        assert(b =~= b0.push(x));
    }
}

/// The ranking of all pages of a consistent state has one line for each
/// page that has figures, and no other line.
pub proof fn lemma_ranking_covers_all(ranked: Seq<Ranked>, state: Aggregates)
    requires
        consistent(state),
        is_ranking(ranked, state.records, state.pages),
    ensures
        ranked.len() == state.pages.len(),
        forall|page: Seq<char>| #[trigger]
            state.records.contains_key(page) ==> exists|i: int|
                0 <= i < ranked.len() && (#[trigger] ranked[i]).page == page,
{
    let names = Seq::new(ranked.len(), |i: int| ranked[i].page);
    assert forall|i: int, j: int| 0 <= i < j < names.len() implies names[i] != names[j] by {
        assert(ranks_before(ranked[i], ranked[j]));
        assert(ranked[i] == entry(names[i], state.records[names[i]]));
        assert(ranked[j] == entry(names[j], state.records[names[j]]));
        lemma_ranks_irreflexive(ranked[i]);
    }
    assert(names.no_duplicates());
    assert(state.pages.no_duplicates());
    assert forall|page: Seq<char>| names.to_set().contains(page) <==> state.pages.to_set().contains(
        page,
    ) by {
        if names.contains(page) {
            let i = choose|i: int| 0 <= i < names.len() && names[i] == page;
            assert(state.pages.contains(ranked[i].page));
        }
        if state.pages.contains(page) {
            assert(state.records.contains_key(page));
            let i = choose|i: int| 0 <= i < ranked.len() && (#[trigger] ranked[i]).page == page;
            assert(names[i] == page);
        }
    }
    assert(names.to_set() =~= state.pages.to_set());
    names.unique_seq_to_set();
    state.pages.unique_seq_to_set();
    assert forall|page: Seq<char>| #[trigger] state.records.contains_key(page) implies exists|
        i: int,
    |
        0 <= i < ranked.len() && (#[trigger] ranked[i]).page == page by {
        assert(state.pages.contains(page));
    }
}

/// The ranking of those of `pages` that have figures in `aggregates`: the
/// slowest page first, pages of one duration in alphabetical order. A name
/// that stands twice in `pages` counts once, and one without figures is
/// passed over.
pub fn rank(aggregates: &Aggregator, pages: &Vec<String>) -> (ranked: Vec<RankedPage>)
    ensures
        is_ranking(ranking(ranked@), aggregates@.records, texts(pages@)),
{
    let sorted = sorted_pages(pages);
    let ghost records = aggregates@.records;
    let ghost names = texts(sorted@);
    let mut ranked: Vec<RankedPage> = Vec::new();
    let mut i: usize = 0;
    assert(names.take(0) =~= Seq::<Seq<char>>::empty());
    while i < sorted.len()
        invariant
            0 <= i <= sorted.len(),
            names == texts(sorted@),
            records == aggregates@.records,
            ascending(names),
            is_ranking(ranking(ranked@), records, names.take(i as int)),
        decreases sorted.len() - i,
    {
        let ghost before = ranking(ranked@);
        let ghost seen = names.take(i as int);
        let ghost name = names[i as int];
        assert(names.take(i + 1) =~= seen.push(name));
        match aggregates.get(sorted[i].as_str()) {
            None => {
                proof {
                    lemma_rank_skip(before, records, seen, name);
                }
            },
            Some(info) => {
                let line = RankedPage {
                    page: sorted[i].clone(),
                    average_duration: info.duration,
                    count: info.count,
                };
                let mut at: usize = 0;
                while at < ranked.len() && ranked[at].average_duration >= line.average_duration
                    invariant
                        0 <= at <= ranked.len(),
                        before == ranking(ranked@),
                        forall|m: int|
                            0 <= m < at ==> (#[trigger] before[m]).average_duration
                                >= line.average_duration,
                    decreases ranked.len() - at,
                {
                    assert(before[at as int] == ranked[at as int]@);
                    at += 1;
                }
                proof {
                    assert(line@ == entry(name, records[name]));
                    if at < ranked.len() {
                        assert(before[at as int] == ranked[at as int]@);
                    }
                    assert forall|m: int| at <= m < before.len() implies (#[trigger] before[m]).average_duration
                        < records[name].duration by {
                        if m > at {
                            assert(ranks_before(before[at as int], before[m]));
                        }
                    }
                    assert forall|w: int| 0 <= w < seen.len() implies page_before(
                        #[trigger] seen[w],
                        name,
                    ) by {
                        assert(seen[w] == names[w]);
                    }
                    lemma_rank_insert(before, records, seen, name, at as int);
                }
                ranked.insert(at, line);
                assert(ranking(ranked@) =~= before.insert(at as int, line@));
            },
        }
        i += 1;
    }
    proof {
        assert(names.take(sorted.len() as int) =~= names);
        lemma_rank_same_pages(ranking(ranked@), records, names, texts(pages@));
    }
    ranked
}

/// The ranking of all pages of `aggregates`.
pub fn rank_all(aggregates: &Aggregator) -> (ranked: Vec<RankedPage>)
    ensures
        is_ranking(ranking(ranked@), aggregates@.records, aggregates@.pages),
{
    rank(aggregates, aggregates.pages())
}

} // verus!
