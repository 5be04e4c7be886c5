//! What the rings keep count of.

use vstd::prelude::*;

verus! {

/// What is kept count of for the requests of a ring. What goes in is up to the
/// collectors that the requests name.
#[derive(Debug, Clone, Copy, PartialEq, Eq, Structural)]
pub struct RingIoStats {
    /// Of requests that were fulfilled.
    pub fulfilled: u64,
    /// Of results that served another waiter too.
    pub reused: u64,
}

/// What a collector is told of a completion, to make the next counts of the
/// ones there are.
#[derive(Debug, Clone, Copy, PartialEq, Eq)]
pub struct Report {
    /// The collector.
    pub collector: u64,
    /// What the request came to: a count or an error number.
    pub result: Result<usize, i32>,
    /// The counts so far.
    pub stats: RingIoStats,
    /// How often this is to be counted.
    pub count: u64,
}

/// The counts of the three rings.
#[derive(Debug, Clone, Copy, PartialEq, Eq, Structural)]
pub struct IoStats {
    /// The main ring's.
    pub main: RingIoStats,
    /// The latency ring's.
    pub latency: RingIoStats,
    /// The poll ring's.
    pub poll: RingIoStats,
}

/// Nothing counted yet.
pub open spec fn no_stats() -> RingIoStats {
    RingIoStats { fulfilled: 0, reused: 0 }
}

/// The counts that a collector makes of `stats`, if there is one and anything
/// to count.
pub open spec fn reported<F: Fn(Report) -> RingIoStats>(
    record: F,
    collector: Option<u64>,
    result: Result<usize, i32>,
    count: u64,
    stats: RingIoStats,
    after: RingIoStats,
) -> bool {
    match collector {
        Some(collector) => if count > 0 {
            call_ensures(record, (Report { collector, result, stats, count },), after)
        } else {
            after == stats
        },
        None => after == stats,
    }
}

/// Tells a collector of a completion, if there is one and anything to count.
pub fn report<F: Fn(Report) -> RingIoStats + Copy>(
    record: F,
    collector: Option<u64>,
    result: Result<usize, i32>,
    count: u64,
    stats: RingIoStats,
) -> (after: RingIoStats)
    requires
        forall|report: Report| call_requires(record, (report,)),
    ensures
        reported(record, collector, result, count, stats, after),
{
    match collector {
        Some(collector) => if count > 0 {
            record(Report { collector, result, stats, count })
        } else {
            stats
        },
        None => stats,
    }
}

impl RingIoStats {
    /// Nothing counted yet.
    pub fn new() -> (stats: Self)
        ensures
            stats == no_stats(),
    {
        RingIoStats { fulfilled: 0, reused: 0 }
    }
}

/// How an `ahash::AHashMap` hashes its keys, which nothing here depends on.
#[verifier::external_type_specification]
#[verifier::external_body]
pub struct ExRandomState(ahash::RandomState);

/// A map from task queues to their counts, as `ahash::AHashMap` holds it.
#[verifier::external_type_specification]
#[verifier::external_body]
#[verifier::reject_recursive_types(K)]
#[verifier::reject_recursive_types(V)]
#[verifier::reject_recursive_types(S)]
pub struct ExAHashMap<K, V, S>(ahash::AHashMap<K, V, S>);

/// What a map from task queues to counts holds.
pub uninterp spec fn queue_stats(table: ahash::AHashMap<usize, RingIoStats, ahash::RandomState>) -> Map<usize, RingIoStats>;

/// Calls `ahash::AHashMap::new`, which makes a map that holds nothing.
#[verifier::external_body]
fn new_map() -> (table: ahash::AHashMap<usize, RingIoStats, ahash::RandomState>)
    ensures
        queue_stats(table).dom() == Set::<usize>::empty(),
{
    ahash::AHashMap::new()
}

/// Calls `ahash::AHashMap::get`, which looks a key up and changes nothing, and
/// copies what it finds.
#[verifier::external_body]
fn get_from_map(table: &ahash::AHashMap<usize, RingIoStats, ahash::RandomState>, key: usize) -> (stats: Option<
    RingIoStats,
>)
    ensures
        stats == if queue_stats(*table).contains_key(key) {
            Some(queue_stats(*table)[key])
        } else {
            None
        },
{
    table.get(&key).copied()
}

/// Calls `ahash::AHashMap::insert`, which puts a value under a key in place of
/// what was there.
#[verifier::external_body]
fn insert_into_map(
    table: &mut ahash::AHashMap<usize, RingIoStats, ahash::RandomState>,
    key: usize,
    stats: RingIoStats,
)
    ensures
        queue_stats(*final(table)) == queue_stats(*old(table)).insert(key, stats),
{
    table.insert(key, stats);
}

/// The counts of each task queue, under its index.
pub struct TaskQueueStats {
    table: ahash::AHashMap<usize, RingIoStats, ahash::RandomState>,
}

impl View for TaskQueueStats {
    type V = Map<usize, RingIoStats>;

    /// The counts of each task queue that has any.
    closed spec fn view(&self) -> Map<usize, RingIoStats> {
        queue_stats(self.table)
    }
}

impl TaskQueueStats {
    /// No task queue has any.
    pub fn new() -> (stats: Self)
        ensures
            stats@ == Map::<usize, RingIoStats>::empty(),
    {
        let stats = TaskQueueStats { table: new_map() };
        assert(stats@ =~= Map::<usize, RingIoStats>::empty());
        stats
    }

    /// The counts of a task queue, zero where it has none.
    pub open spec fn counts_of(&self, queue: usize) -> RingIoStats {
        if self@.contains_key(queue) {
            self@[queue]
        } else {
            no_stats()
        }
    }

    /// The counts of a task queue, zero where it has none.
    pub fn get(&self, queue: usize) -> (stats: RingIoStats)
        ensures
            stats == self.counts_of(queue),
    {
        match get_from_map(&self.table, queue) {
            Some(stats) => stats,
            None => RingIoStats::new(),
        }
    }

    /// Keeps these counts for a task queue from now on.
    pub fn set(&mut self, queue: usize, stats: RingIoStats)
        ensures
            final(self)@ == old(self)@.insert(queue, stats),
    {
        insert_into_map(&mut self.table, queue, stats);
    }

    /// Hands out what was counted for a task queue and starts again from
    /// nothing. `None` for a queue that never had any.
    pub fn take(&mut self, queue: usize) -> (stats: Option<RingIoStats>)
        ensures
            stats == if old(self)@.contains_key(queue) {
                Some(old(self)@[queue])
            } else {
                None
            },
            final(self)@ == if old(self)@.contains_key(queue) {
                old(self)@.insert(queue, no_stats())
            } else {
                old(self)@
            },
    {
        match get_from_map(&self.table, queue) {
            Some(stats) => {
                insert_into_map(&mut self.table, queue, RingIoStats::new());
                Some(stats)
            },
            None => None,
        }
    }
}

/// The counts of a task queue on the three rings together: nothing where no
/// ring has any, and zero for a ring that has none where another has.
pub fn combine(main: Option<RingIoStats>, latency: Option<RingIoStats>, poll: Option<RingIoStats>) -> (stats: Option<
    IoStats,
>)
    ensures
        stats is None <==> main is None && latency is None && poll is None,
        stats matches Some(stats) ==> {
            &&& stats.main == main.unwrap_or(no_stats())
            &&& stats.latency == latency.unwrap_or(no_stats())
            &&& stats.poll == poll.unwrap_or(no_stats())
        },
{
    if main.is_none() && latency.is_none() && poll.is_none() {
        return None;
    }
    Some(
        IoStats {
            main: main.unwrap_or(RingIoStats::new()),
            latency: latency.unwrap_or(RingIoStats::new()),
            poll: poll.unwrap_or(RingIoStats::new()),
        },
    )
}

} // verus!
