//! The pure decisions of the collection pipeline: which tag bounds the scan,
//! how many workers to start, and what a worker forwards for one commit
//! message. The caller owns the repository handles, the channels and the
//! threads; it hands plain values in and takes plain values back.

use vstd::prelude::*;

use crate::parser::parse_report;
use crate::parser::spec_parse;
use crate::report::Report;
use crate::report::ReportModel;

verus! {

/// What a worker forwards for one commit message: nothing for an empty
/// message — an empty message is skipped, not an error — and otherwise
/// whatever the parser makes of it.
pub open spec fn spec_report_for_message(s: Seq<char>) -> Option<ReportModel> {
    if s.len() == 0 {
        None
    } else {
        spec_parse(s)
    }
}

/// Turn one commit's message into the report to forward, if any.
pub fn report_for_message(message: &str) -> (r: Option<Report>)
    ensures
        r.deep_view() == spec_report_for_message(message@),
{
    if message.is_empty() {
        None
    } else {
        parse_report(message)
    }
}

/// The index of the most recently authored tag: the greatest timestamp,
/// ties resolved towards the earliest position, as a stable sort by
/// timestamp followed by taking the last element resolves them.
pub fn latest_tag_index(times: &Vec<i64>) -> (r: Option<usize>)
    ensures
        match r {
            None => times.len() == 0,
            Some(i) => i < times.len() && (forall|j: int|
                0 <= j < times@.len() ==> times@[j] <= times@[i as int]) && (forall|j: int|
                i < j < times@.len() ==> times@[j] < times@[i as int]),
        },
{
    if times.len() == 0 {
        return None;
    }
    let n = times.len();
    let mut best: usize = 0;
    let mut k: usize = 1;
    while k < n
        invariant
            k <= n,
            n == times.len(),
            best < k,
            forall|j: int| 0 <= j < k ==> times@[j] <= times@[best as int],
            forall|j: int| best < j < k ==> times@[j] < times@[best as int],
        decreases n - k,
    {
        if times[k] >= times[best] {
            best = k;
        }
        k = k + 1;
    }
    Some(best)
}

/// The pool size: one worker fewer than the machine offers, at least one,
/// and never more workers than there are jobs.
pub open spec fn spec_worker_count(cpus: int, jobs: int) -> int {
    let base = if cpus - 1 > 1 {
        cpus - 1
    } else {
        1
    };
    if jobs < base {
        jobs
    } else {
        base
    }
}

/// How many workers to start for `jobs` commit identifiers on a machine
/// offering `cpus` units of parallelism.
pub fn worker_count(cpus: usize, jobs: usize) -> (n: usize)
    ensures
        n == spec_worker_count(cpus as int, jobs as int),
        n <= jobs,
{
    let base: usize = if cpus > 2 {
        cpus - 1
    } else {
        1
    };
    if jobs < base {
        jobs
    } else {
        base
    }
}

} // verus!
