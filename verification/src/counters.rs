//! Counts of facade work per item, which tests read to check that the
//! facade pass resolves each item once.
//!
//! Items are identified by the integer index of their definition.

use vstd::prelude::*;
use std::collections::HashMap;

verus! {

broadcast use vstd::std_specs::hash::group_hash_axioms;

/// How often each item's facade was requested, resolved and scanned.
pub struct FacadePerformanceCounters {
    resolution_requests: HashMap<u64, usize>,
    resolutions: HashMap<u64, usize>,
    usage_scans: HashMap<u64, usize>,
}

/// The count an item has in `m`: zero when it has none.
pub open spec fn count_of(m: Map<u64, usize>, item: u64) -> nat {
    if m.contains_key(item) {
        m[item] as nat
    } else {
        0
    }
}

impl FacadePerformanceCounters {
    pub closed spec fn requests(&self) -> Map<u64, usize> {
        self.resolution_requests@
    }

    pub closed spec fn resolved(&self) -> Map<u64, usize> {
        self.resolutions@
    }

    pub closed spec fn scans(&self) -> Map<u64, usize> {
        self.usage_scans@
    }

    /// Counters with nothing recorded.
    pub fn new() -> (r: Self)
        ensures
            r.requests() == Map::<u64, usize>::empty(),
            r.resolved() == Map::<u64, usize>::empty(),
            r.scans() == Map::<u64, usize>::empty(),
    {
        FacadePerformanceCounters {
            resolution_requests: HashMap::new(),
            resolutions: HashMap::new(),
            usage_scans: HashMap::new(),
        }
    }
}

impl Default for FacadePerformanceCounters {
    fn default() -> (r: Self)
        ensures
            r.requests() == Map::<u64, usize>::empty(),
            r.resolved() == Map::<u64, usize>::empty(),
            r.scans() == Map::<u64, usize>::empty(),
    {
        FacadePerformanceCounters::new()
    }
}

/// Adds one to `item`'s count in `m`.
fn bump(m: &mut HashMap<u64, usize>, item: u64)
    requires
        count_of(old(m)@, item) < usize::MAX,
    ensures
        final(m)@ == old(m)@.insert(item, (count_of(old(m)@, item) + 1) as usize),
{
    let current: usize = match m.get(&item) {
        Some(n) => *n,
        None => 0,
    };
    m.insert(item, current + 1);
}

fn count_in(m: &HashMap<u64, usize>, item: u64) -> (n: usize)
    ensures
        n == count_of(m@, item),
{
    match m.get(&item) {
        Some(n) => *n,
        None => 0,
    }
}

/// Forgets every count.
pub fn reset_performance_counters(counters: &mut FacadePerformanceCounters)
    ensures
        final(counters).requests() == Map::<u64, usize>::empty(),
        final(counters).resolved() == Map::<u64, usize>::empty(),
        final(counters).scans() == Map::<u64, usize>::empty(),
{
    *counters = FacadePerformanceCounters::new();
}

/// Counts one resolution of `item`'s facade.
pub fn record_facade_resolution(counters: &mut FacadePerformanceCounters, item: u64)
    requires
        count_of(old(counters).resolved(), item) < usize::MAX,
    ensures
        final(counters).resolved() == old(counters).resolved().insert(
            item,
            (count_of(old(counters).resolved(), item) + 1) as usize,
        ),
        final(counters).requests() == old(counters).requests(),
        final(counters).scans() == old(counters).scans(),
{
    bump(&mut counters.resolutions, item);
}

/// Counts one request to resolve `item`'s facade.
pub fn record_facade_resolution_request(counters: &mut FacadePerformanceCounters, item: u64)
    requires
        count_of(old(counters).requests(), item) < usize::MAX,
    ensures
        final(counters).requests() == old(counters).requests().insert(
            item,
            (count_of(old(counters).requests(), item) + 1) as usize,
        ),
        final(counters).resolved() == old(counters).resolved(),
        final(counters).scans() == old(counters).scans(),
{
    bump(&mut counters.resolution_requests, item);
}

/// Counts one usage scan of the occurrence `item`.
pub fn record_facade_usage_scan(counters: &mut FacadePerformanceCounters, item: u64)
    requires
        count_of(old(counters).scans(), item) < usize::MAX,
    ensures
        final(counters).scans() == old(counters).scans().insert(
            item,
            (count_of(old(counters).scans(), item) + 1) as usize,
        ),
        final(counters).requests() == old(counters).requests(),
        final(counters).resolved() == old(counters).resolved(),
{
    bump(&mut counters.usage_scans, item);
}

/// How many times `item`'s facade was resolved.
pub fn facade_resolution_count(counters: &FacadePerformanceCounters, item: u64) -> (n: usize)
    ensures
        n == count_of(counters.resolved(), item),
{
    count_in(&counters.resolutions, item)
}

/// How many times resolving `item`'s facade was requested.
pub fn facade_resolution_request_count(counters: &FacadePerformanceCounters, item: u64) -> (n:
    usize)
    ensures
        n == count_of(counters.requests(), item),
{
    count_in(&counters.resolution_requests, item)
}

/// How many times the occurrence `item` was scanned for facade usage.
pub fn facade_usage_scan_count(counters: &FacadePerformanceCounters, item: u64) -> (n: usize)
    ensures
        n == count_of(counters.scans(), item),
{
    count_in(&counters.usage_scans, item)
}

/// The counts after recording each item of `items`, in order, starting
/// from `m`: each step is what the `record_*` functions state.
pub open spec fn after_records(m: Map<u64, usize>, items: Seq<u64>) -> Map<u64, usize>
    decreases items.len(),
{
    if items.len() == 0 {
        m
    } else {
        let prev = after_records(m, items.drop_last());
        prev.insert(items.last(), (count_of(prev, items.last()) + 1) as usize)
    }
}

/// How many times `item` occurs in `items`.
pub open spec fn occurrences(items: Seq<u64>, item: u64) -> nat
    decreases items.len(),
{
    if items.len() == 0 {
        0
    } else {
        occurrences(items.drop_last(), item) + if items.last() == item {
            1nat
        } else {
            0nat
        }
    }
}

/// After a reset, recording a sequence of items leaves each item's count at
/// the number of times it was recorded; an item recorded `k` times counts
/// `k`.
pub proof fn lemma_counts_after_reset(items: Seq<u64>)
    requires
        items.len() < usize::MAX,
    ensures
        forall|x: u64|
            #[trigger] count_of(after_records(Map::empty(), items), x) == occurrences(items, x),
    decreases items.len(),
{
    if items.len() > 0 {
        let init = items.drop_last();
        lemma_counts_after_reset(init);
        lemma_occurrences_bound(init, items.last());
        let prev = after_records(Map::<u64, usize>::empty(), init);
        assert forall|x: u64| #[trigger] count_of(after_records(Map::empty(), items), x) == occurrences(items, x) by {
            assert(count_of(prev, x) == occurrences(init, x));
        }
    }
}

proof fn lemma_occurrences_bound(items: Seq<u64>, item: u64)
    ensures
        occurrences(items, item) <= items.len(),
    decreases items.len(),
{
    if items.len() > 0 {
        lemma_occurrences_bound(items.drop_last(), item);
    }
}

/// Recording an event and then reading its count gives one more than
/// before, and leaves every other item's count as it was.
pub proof fn lemma_record_then_count(m: Map<u64, usize>, item: u64, other: u64)
    requires
        count_of(m, item) < usize::MAX,
    ensures
        count_of(m.insert(item, (count_of(m, item) + 1) as usize), item) == count_of(m, item) + 1,
        other != item ==> count_of(m.insert(item, (count_of(m, item) + 1) as usize), other)
            == count_of(m, other),
{
}

} // verus!
