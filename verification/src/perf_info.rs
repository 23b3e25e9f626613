//! One request, or the running figures of one page.

use crate::micros::{mean, mean_of};
use std::cmp::Ordering;
use vstd::prelude::*;
use vstd::std_specs::cmp::{PartialEqSpecImpl, PartialOrdSpecImpl};

verus! {

/// The timings of one request, or of one page after its requests were
/// merged. Timings are in microseconds; `count` is the number of requests
/// that went into them.
#[derive(Debug)]
pub struct PerfInfo {
    /// The route: the method, a space, and the path.
    pub page: String,
    pub controller: String,
    pub action: String,
    /// The whole time of the request.
    pub duration: u64,
    /// The time spent on rendering.
    pub view: u64,
    /// The time spent in the database.
    pub db: u64,
    pub count: u64,
}

/// What a `PerfInfo` holds, as mathematical values.
pub struct PerfRecord {
    pub page: Seq<char>,
    pub controller: Seq<char>,
    pub action: Seq<char>,
    pub duration: nat,
    pub view: nat,
    pub db: nat,
    pub count: nat,
}

impl View for PerfInfo {
    type V = PerfRecord;

    open spec fn view(&self) -> PerfRecord {
        PerfRecord {
            page: self.page@,
            controller: self.controller@,
            action: self.action@,
            duration: self.duration as nat,
            view: self.view as nat,
            db: self.db as nat,
            count: self.count as nat,
        }
    }
}

impl Clone for PerfInfo {
    fn clone(&self) -> (r: Self)
        ensures
            r == *self,
    {
        PerfInfo {
            page: self.page.clone(),
            controller: self.controller.clone(),
            action: self.action.clone(),
            duration: self.duration,
            view: self.view,
            db: self.db,
            count: self.count,
        }
    }
}

/// Two records are equal where their durations are: equality is that of the
/// order by which pages are ranked.
impl PartialEq for PerfInfo {
    fn eq(&self, other: &Self) -> (r: bool) {
        self.duration == other.duration
    }
}

impl PartialEqSpecImpl for PerfInfo {
    open spec fn obeys_eq_spec() -> bool {
        true
    }

    open spec fn eq_spec(&self, other: &Self) -> bool {
        self.duration == other.duration
    }
}

/// The order by which pages are ranked: the longer duration comes first.
impl PartialOrd for PerfInfo {
    fn partial_cmp(&self, other: &Self) -> (r: Option<Ordering>) {
        if self.duration > other.duration {
            Some(Ordering::Less)
        } else if self.duration == other.duration {
            Some(Ordering::Equal)
        } else {
            Some(Ordering::Greater)
        }
    }
}

impl PartialOrdSpecImpl for PerfInfo {
    open spec fn obeys_partial_cmp_spec() -> bool {
        true
    }

    open spec fn partial_cmp_spec(&self, other: &Self) -> Option<Ordering> {
        if self.duration > other.duration {
            Some(Ordering::Less)
        } else if self.duration == other.duration {
            Some(Ordering::Equal)
        } else {
            Some(Ordering::Greater)
        }
    }
}

/// The record that merging `incoming` into `existing` gives: each timing is
/// the mean of the two, rounded to the nearest whole; the counts are added; the names are
/// those of `incoming`.
pub open spec fn merged(incoming: PerfRecord, existing: PerfRecord) -> PerfRecord {
    PerfRecord {
        page: incoming.page,
        controller: incoming.controller,
        action: incoming.action,
        duration: mean_of(incoming.duration, existing.duration),
        view: mean_of(incoming.view, existing.view),
        db: mean_of(incoming.db, existing.db),
        count: incoming.count + existing.count,
    }
}

/// Of two records, the figures of the merger are the same whichever of the
/// two comes in first; only the names are those of the one that comes in.
pub proof fn lemma_merge_symmetric(a: PerfRecord, b: PerfRecord)
    ensures
        merged(a, b).duration == merged(b, a).duration,
        merged(a, b).view == merged(b, a).view,
        merged(a, b).db == merged(b, a).db,
        merged(a, b).count == merged(b, a).count,
{
}

/// Merges a new record into the running figures of its page. The result is
/// a new record; neither argument is changed.
pub fn merge_perf_info(perf_info1: PerfInfo, perf_info2: &PerfInfo) -> (r: PerfInfo)
    requires
        perf_info1.count + perf_info2.count <= u64::MAX,
    ensures
        r@ == merged(perf_info1@, perf_info2@),
{
    PerfInfo {
        page: perf_info1.page,
        controller: perf_info1.controller,
        action: perf_info1.action,
        duration: mean(perf_info1.duration, perf_info2.duration),
        view: mean(perf_info1.view, perf_info2.view),
        db: mean(perf_info1.db, perf_info2.db),
        count: perf_info1.count + perf_info2.count,
    }
}

} // verus!
