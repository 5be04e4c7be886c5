//! One ring: what is queued for it, what the kernel has of it, and what its
//! completions mean.

use super::errno::{completion_result, transmute_error};
use super::queue::{
    chain_len, chains_fit, cleared, is_chain, is_dropped, is_linked, kept, law_chains_stay_whole, lemma_chain_len_of_chain, next_chain,
    next_chains, stand_for_requests, taken_len, taken_off, NextChain,
};
use super::source::{
    add_source, all_enqueued, consume_source, from_user_data, to_user_data, user_data_of, Buffer, EnqueuedSource,
    EnqueuedStatus, InnerSource, SourceMap, SourceType, Wakers,
};
use super::sqe::{asked, carried, Sqe, UringDescriptor, UringOpDescriptor, IO_LINK};
use super::stats::{no_stats, report, reported, Report, RingIoStats, TaskQueueStats};
use crate::timer::time::Instant;
use std::collections::VecDeque;
use vstd::prelude::*;

verus! {

/// The number of no descriptor.
pub const NO_FD: i32 = -1;

/// What waits to be submitted to a ring.
pub struct UringQueueState {
    /// Requests.
    pub submissions: VecDeque<UringDescriptor>,
    /// Cancellations. It is important to process them as soon as they are
    /// seen: imagine a write to descriptor 3 that is to be cancelled, and
    /// before the cancellation is run descriptor 3 gets closed and another
    /// file is opened with the same number.
    pub cancellations: VecDeque<UringDescriptor>,
}

/// The descriptor that cancels the request at a place.
pub open spec fn cancellation(id: usize) -> UringDescriptor {
    UringDescriptor {
        fd: NO_FD,
        flags: 0,
        user_data: 0,
        args: UringOpDescriptor::Cancel(user_data_of(id) as u64),
    }
}

/// The descriptors of a request: one, or two where a time limits it.
pub open spec fn request_chain(source: InnerSource, args: UringOpDescriptor, id: usize) -> Seq<UringDescriptor> {
    match source.timeout {
        Some(timespec) => seq![
            UringDescriptor { fd: source.fd, flags: IO_LINK, user_data: user_data_of(id) as u64, args },
            UringDescriptor {
                fd: NO_FD,
                flags: 0,
                user_data: 0,
                args: UringOpDescriptor::LinkTimeout(timespec),
            },
        ],
        None => seq![UringDescriptor { fd: source.fd, flags: 0, user_data: user_data_of(id) as u64, args }],
    }
}

/// A timer as a request: it belongs to no descriptor and nobody waits for it.
pub open spec fn timer_source(timespec: u64, events: u32) -> InnerSource {
    InnerSource {
        fd: NO_FD,
        source_type: SourceType::Timeout(timespec, events),
        enqueued: None,
        timeout: None,
        wakers: Wakers { result: None, waiters: 0, queued_at: None, submitted_at: None, fulfilled_at: None },
        stats_collection: None,
        task_queue: None,
    }
}

fn new_timer(timespec: u64, events: u32) -> (source: InnerSource)
    ensures
        source == timer_source(timespec, events),
{
    InnerSource {
        fd: NO_FD,
        source_type: SourceType::Timeout(timespec, events),
        enqueued: None,
        timeout: None,
        wakers: Wakers { result: None, waiters: 0, queued_at: None, submitted_at: None, fulfilled_at: None },
        stats_collection: None,
        task_queue: None,
    }
}

/// A request noted as queued at a place.
pub open spec fn enqueued(source: InnerSource, id: usize) -> InnerSource {
    InnerSource { enqueued: Some(EnqueuedSource { id, status: EnqueuedStatus::Enqueued }), ..source }
}

/// The flags that tie an entry to the next are the two links.
proof fn lemma_link_flags()
    ensures
        !is_linked(0),
        is_linked(IO_LINK),
{
    assert(0u8 & (4u8 | 8u8) == 0u8) by (bit_vector);
    assert(4u8 & (4u8 | 8u8) != 0u8) by (bit_vector);
}

/// One unlinked descriptor, or a linked one and an unlinked one, are a chain
/// for any ring of two entries.
proof fn lemma_short_chain(run: Seq<UringDescriptor>, ring_size: nat)
    requires
        ring_size >= 2,
        1 <= run.len() <= 2,
        run.len() == 2 ==> is_linked(run[0].flags),
        !is_linked(run.last().flags),
    ensures
        chains_fit(run, ring_size),
{
    reveal_with_fuel(chains_fit, 2);
    let len = run.len() as int;
    assert(is_chain(run, len));
    lemma_chain_len_of_chain(run, len);
    assert(run.skip(len).len() == 0);
}

/// Putting the descriptors of a new request behind the others, or before
/// them, keeps every descriptor standing for a request of its own.
proof fn lemma_stands_for_one_more(
    a: Seq<UringDescriptor>,
    new: Seq<UringDescriptor>,
    b: Seq<UringDescriptor>,
    sources: Map<usize, InnerSource>,
    id: usize,
    source: InnerSource,
)
    requires
        stand_for_requests(a + b, sources),
        !sources.contains_key(id),
        id < usize::MAX,
        source.enqueued is Some,
        !(source.enqueued->0.status is Dispatched),
        new.len() > 0,
        forall|i: int| 0 <= i < new.len() ==> ((#[trigger] new[i]).user_data == if i == 0 { user_data_of(id) } else { 0 }),
    ensures
        stand_for_requests(a + new + b, sources.insert(id, source)),
{
    let old_ops = a + b;
    let ops = a + new + b;
    let after = sources.insert(id, source);
    assert forall|i: int| 0 <= i < ops.len() && (#[trigger] ops[i]).user_data > 0 implies {
        &&& ops[i].user_data <= usize::MAX
        &&& after.contains_key((ops[i].user_data - 1) as usize)
        &&& after[(ops[i].user_data - 1) as usize].enqueued is Some
        &&& !(after[(ops[i].user_data - 1) as usize].enqueued->0.status is Dispatched)
    } by {
        if i < a.len() {
            assert(ops[i] == old_ops[i]);
        } else if i < a.len() + new.len() {
            assert(ops[i] == new[i - a.len()]);
        } else {
            assert(ops[i] == old_ops[i - new.len()]);
        }
    }
    assert forall|i: int, j: int|
        0 <= i < ops.len() && 0 <= j < ops.len() && i != j && (#[trigger] ops[i]).user_data > 0 implies ops[i].user_data
        != (#[trigger] ops[j]).user_data by {
        let from_old = |k: int| k < a.len() || k >= a.len() + new.len();
        if from_old(i) {
            let i0 = if i < a.len() {
                i
            } else {
                i - new.len()
            };
            assert(ops[i] == old_ops[i0]);
            assert(sources.contains_key((old_ops[i0].user_data - 1) as usize));
            if from_old(j) {
                let j0 = if j < a.len() {
                    j
                } else {
                    j - new.len()
                };
                assert(ops[j] == old_ops[j0]);
            } else {
                assert(ops[j] == new[j - a.len()]);
            }
        } else {
            assert(ops[i] == new[i - a.len()]);
            if from_old(j) {
                let j0 = if j < a.len() {
                    j
                } else {
                    j - new.len()
                };
                assert(ops[j] == old_ops[j0]);
                if old_ops[j0].user_data > 0 {
                    assert(sources.contains_key((old_ops[j0].user_data - 1) as usize));
                }
            } else {
                assert(ops[j] == new[j - a.len()]);
            }
        }
    }
}

impl UringQueueState {
    /// Everything queued forms chains that fit, and stands for requests that
    /// wait.
    pub open spec fn wf(&self, sources: Map<usize, InnerSource>, ring_size: nat) -> bool {
        &&& chains_fit(self.submissions@, ring_size)
        &&& stand_for_requests(self.submissions@, sources)
        &&& chains_fit(self.cancellations@, ring_size)
        &&& forall|i: int| 0 <= i < self.cancellations@.len() ==> (#[trigger] self.cancellations@[i]).user_data == 0
    }

    /// Nothing queued yet.
    pub fn with_capacity(cap: usize) -> (queue: Self)
        ensures
            queue.submissions@ == Seq::<UringDescriptor>::empty(),
            queue.cancellations@ == Seq::<UringDescriptor>::empty(),
    {
        UringQueueState { submissions: VecDeque::with_capacity(cap), cancellations: VecDeque::new() }
    }

    /// Whether nothing is queued.
    pub fn is_empty(&self) -> (empty: bool)
        ensures
            empty <==> self.submissions@.len() == 0 && self.cancellations@.len() == 0,
    {
        self.submissions.len() == 0 && self.cancellations.len() == 0
    }

    /// Queues the cancellation of a request that the kernel has.
    pub fn cancel_request(&mut self, id: usize)
        requires
            id < u64::MAX,
        ensures
            final(self).submissions@ == old(self).submissions@,
            final(self).cancellations@ == old(self).cancellations@.push(cancellation(id)),
            forall|sources: Map<usize, InnerSource>, ring_size: nat|
                ring_size >= 2 && #[trigger] old(self).wf(sources, ring_size) ==> final(self).wf(sources, ring_size),
    {
        let op = UringDescriptor {
            fd: NO_FD,
            flags: 0,
            user_data: 0,
            args: UringOpDescriptor::Cancel(to_user_data(id)),
        };
        self.cancellations.push_back(op);
        proof {
            lemma_link_flags();
            assert forall|sources: Map<usize, InnerSource>, ring_size: nat|
                ring_size >= 2 && #[trigger] old(self).wf(sources, ring_size) implies self.wf(sources, ring_size) by {
                lemma_short_chain(seq![op], ring_size);
                law_chains_stay_whole(old(self).cancellations@, seq![op], ring_size);
                assert(self.cancellations@ =~= old(self).cancellations@ + seq![op]);
            }
        }
    }

    /// Queues a request and gives it a place among those under way. Where a
    /// time limits it, the limit follows as the rest of its chain.
    pub fn queue_request(
        &mut self,
        source: InnerSource,
        args: UringOpDescriptor,
        sources: &mut SourceMap,
        now: Instant,
    ) -> (id: usize)
        requires
            old(sources).wf(),
            all_enqueued(old(sources)@),
        ensures
            final(sources).wf(),
            all_enqueued(final(sources)@),
            !old(sources)@.contains_key(id),
            final(sources)@ == old(sources)@.insert(
                id,
                self::enqueued(
                    (InnerSource { wakers: (Wakers { queued_at: Some(now), ..source.wakers }), ..source }),
                    id,
                ),
            ),
            final(self).submissions@ == old(self).submissions@ + request_chain(source, args, id),
            final(self).cancellations@ == old(self).cancellations@,
            forall|ring_size: nat|
                ring_size >= 2 && #[trigger] old(self).wf(old(sources)@, ring_size) ==> final(self).wf(
                    final(sources)@,
                    ring_size,
                ),
    {
        let mut queued: InnerSource = source;
        queued.wakers.queued_at = Some(now);
        let id: usize = add_source(sources, queued);
        let flags: u8 = match source.timeout {
            Some(_) => IO_LINK,
            None => 0,
        };
        self.submissions.push_back(
            UringDescriptor { fd: source.fd, flags, user_data: to_user_data(id), args },
        );
        if let Some(timespec) = source.timeout {
            self.submissions.push_back(
                UringDescriptor {
                    fd: NO_FD,
                    flags: 0,
                    user_data: 0,
                    args: UringOpDescriptor::LinkTimeout(timespec),
                },
            );
        }
        proof {
            let new = request_chain(source, args, id);
            let before = old(self).submissions@;
            assert(self.submissions@ =~= before + new);
            lemma_link_flags();
            assert forall|ring_size: nat|
                ring_size >= 2 && #[trigger] old(self).wf(old(sources)@, ring_size) implies self.wf(
                sources@,
                ring_size,
            ) by {
                lemma_short_chain(new, ring_size);
                law_chains_stay_whole(before, new, ring_size);
                let none = Seq::<UringDescriptor>::empty();
                assert(before + none =~= before);
                lemma_stands_for_one_more(before, new, none, old(sources)@, id, sources@[id]);
                assert(before + new + none =~= before + new);
            }
        }
        id
    }

    /// Prepares a timer that fires unconditionally after the time at
    /// `timespec`. It is added at the front of the queue such that it will be
    /// the first entry submitted the next time the ring is entered.
    pub fn prepare_latency_preemption_timer(&mut self, timespec: u64, sources: &mut SourceMap) -> (id: usize)
        requires
            old(sources).wf(),
            all_enqueued(old(sources)@),
        ensures
            final(sources).wf(),
            all_enqueued(final(sources)@),
            !old(sources)@.contains_key(id),
            final(sources)@ == old(sources)@.insert(id, self::enqueued(timer_source(timespec, 0), id)),
            final(self).submissions@ == seq![
                (UringDescriptor {
                    fd: NO_FD,
                    flags: 0,
                    user_data: user_data_of(id) as u64,
                    args: UringOpDescriptor::Timeout(timespec, 0),
                }),
            ] + old(self).submissions@,
            final(self).cancellations@ == old(self).cancellations@,
            forall|ring_size: nat|
                ring_size >= 2 && #[trigger] old(self).wf(old(sources)@, ring_size) ==> final(self).wf(
                    final(sources)@,
                    ring_size,
                ),
    {
        let id: usize = add_source(sources, new_timer(timespec, 0));
        let op = UringDescriptor {
            fd: NO_FD,
            flags: 0,
            user_data: to_user_data(id),
            args: UringOpDescriptor::Timeout(timespec, 0),
        };
        self.submissions.push_front(op);
        proof {
            self.lemma_put_before(old(self), seq![op], old(sources)@, id, sources@[id]);
        }
        id
    }

    proof fn lemma_put_before(
        &self,
        before: &Self,
        new: Seq<UringDescriptor>,
        sources: Map<usize, InnerSource>,
        id: usize,
        source: InnerSource,
    )
        requires
            self.submissions@ == new + before.submissions@,
            self.cancellations@ == before.cancellations@,
            !sources.contains_key(id),
            id < usize::MAX,
            source.enqueued is Some,
            !(source.enqueued->0.status is Dispatched),
            new.len() == 1 && new[0].flags == 0 || new.len() == 2 && new[0].flags == IO_LINK
                && new[1].flags == 0 && new[1].user_data == 0,
            new[0].user_data == user_data_of(id),
        ensures
            forall|ring_size: nat|
                ring_size >= 2 && #[trigger] before.wf(sources, ring_size) ==> self.wf(
                    sources.insert(id, source),
                    ring_size,
                ),
    {
        lemma_link_flags();
        assert forall|ring_size: nat| ring_size >= 2 && #[trigger] before.wf(sources, ring_size) implies self.wf(
            sources.insert(id, source),
            ring_size,
        ) by {
            lemma_short_chain(new, ring_size);
            law_chains_stay_whole(new, before.submissions@, ring_size);
            let none = Seq::<UringDescriptor>::empty();
            assert(none + before.submissions@ =~= before.submissions@);
            lemma_stands_for_one_more(none, new, before.submissions@, sources, id, source);
            assert(none + new + before.submissions@ =~= new + before.submissions@);
        }
    }

    /// Prepares a timer that fires only after a given number of completions
    /// are available on the ring. This timer is linked with a write of the
    /// eight bytes at `wakeup` to the latency ring's event descriptor, such
    /// that it triggers a preemption via the latency ring.
    pub fn prepare_throughput_preemption_timer(
        &mut self,
        timespec: u64,
        min_events: u32,
        event_fd: i32,
        wakeup: u64,
        sources: &mut SourceMap,
    ) -> (id: usize)
        requires
            old(sources).wf(),
            all_enqueued(old(sources)@),
            min_events >= 1,
        ensures
            final(sources).wf(),
            all_enqueued(final(sources)@),
            !old(sources)@.contains_key(id),
            final(sources)@ == old(sources)@.insert(id, self::enqueued(timer_source(timespec, min_events), id)),
            final(self).submissions@ == seq![
                (UringDescriptor {
                    fd: NO_FD,
                    flags: IO_LINK,
                    user_data: user_data_of(id) as u64,
                    args: UringOpDescriptor::Timeout(timespec, min_events),
                }),
                (UringDescriptor {
                    fd: event_fd,
                    flags: 0,
                    user_data: 0,
                    args: UringOpDescriptor::Write(wakeup, 8, 0),
                }),
            ] + old(self).submissions@,
            final(self).cancellations@ == old(self).cancellations@,
            forall|ring_size: nat|
                ring_size >= 2 && #[trigger] old(self).wf(old(sources)@, ring_size) ==> final(self).wf(
                    final(sources)@,
                    ring_size,
                ),
    {
        let write_op = UringDescriptor {
            fd: event_fd,
            flags: 0,
            user_data: 0,
            args: UringOpDescriptor::Write(wakeup, 8, 0),
        };
        self.submissions.push_front(write_op);
        let id: usize = add_source(sources, new_timer(timespec, min_events));
        let timer_op = UringDescriptor {
            fd: NO_FD,
            flags: IO_LINK,
            user_data: to_user_data(id),
            args: UringOpDescriptor::Timeout(timespec, min_events),
        };
        self.submissions.push_front(timer_op);
        proof {
            assert(self.submissions@ =~= seq![timer_op, write_op] + old(self).submissions@);
            self.lemma_put_before(old(self), seq![timer_op, write_op], old(sources)@, id, sources@[id]);
        }
        id
    }

    /// Queues the closing of a descriptor that nobody waits for.
    pub fn async_close(&mut self, fd: i32)
        ensures
            final(self).submissions@ == old(self).submissions@.push(
                (UringDescriptor { fd, flags: 0, user_data: 0, args: UringOpDescriptor::Close }),
            ),
            final(self).cancellations@ == old(self).cancellations@,
            forall|sources: Map<usize, InnerSource>, ring_size: nat|
                ring_size >= 2 && #[trigger] old(self).wf(sources, ring_size) ==> final(self).wf(sources, ring_size),
    {
        let op = UringDescriptor { fd, flags: 0, user_data: 0, args: UringOpDescriptor::Close };
        self.submissions.push_back(op);
        proof {
            lemma_link_flags();
            let before = old(self).submissions@;
            assert forall|sources: Map<usize, InnerSource>, ring_size: nat|
                ring_size >= 2 && #[trigger] old(self).wf(sources, ring_size) implies self.wf(sources, ring_size) by {
                lemma_short_chain(seq![op], ring_size);
                law_chains_stay_whole(before, seq![op], ring_size);
                assert(self.submissions@ =~= before + seq![op]);
                assert forall|i: int| 0 <= i < self.submissions@.len() && (#[trigger] self.submissions@[i]).user_data
                    > 0 implies self.submissions@[i] == before[i] && i < before.len() by {
                }
            }
        }
    }
}

/// Which ring.
#[derive(Debug, Clone, Copy, PartialEq, Eq, Structural)]
pub enum RingKind {
    /// The one the reactor sleeps in.
    Main,
    /// The one that makes the running task queue yield.
    Latency,
    /// The one whose completions are polled for.
    Poll,
}

/// A completion: the number it carries and its result.
#[derive(Debug, Clone, Copy, PartialEq, Eq, Structural)]
pub struct Cqe {
    /// The number its entry was given.
    pub user_data: u64,
    /// A count, or a negative error number.
    pub result: i32,
}

/// What a completion came to.
#[derive(Debug, Clone, Copy, PartialEq, Eq)]
pub struct Reaped {
    /// The request it completed, if any.
    pub source: Option<InnerSource>,
    /// Somebody who waited for it is to be woken.
    pub woke: bool,
}

/// A request that only makes this ring wake up for another: its completion
/// says nothing.
pub open spec fn only_links(kind: RingKind, source: InnerSource) -> bool {
    !(kind is Poll) && source.source_type is LinkRings
}

/// A request once it is completed.
pub open spec fn fulfilled(kind: RingKind, source: InnerSource, result: i32, now: Instant) -> InnerSource {
    if only_links(kind, source) {
        InnerSource { enqueued: None, ..source }
    } else {
        InnerSource {
            enqueued: None,
            source_type: match source.source_type {
                SourceType::ForeignNotifier(addr, installed) => SourceType::ForeignNotifier(
                    addr,
                    kind is Poll && installed,
                ),
                other => other,
            },
            wakers: Wakers {
                fulfilled_at: Some(now),
                result: Some(completion_result(result)),
                waiters: 0,
                ..source.wakers
            },
            ..source
        }
    }
}

/// How many waiters beyond the first a completion serves.
pub open spec fn others_served(source: InnerSource) -> u64 {
    if source.wakers.waiters > 1 {
        (source.wakers.waiters - 1) as u64
    } else {
        0
    }
}

/// Who is told that a request was fulfilled.
pub open spec fn told_fulfilled(source: InnerSource) -> Option<u64> {
    match source.stats_collection {
        Some(collect) => collect.fulfilled,
        None => None,
    }
}

/// Who is told how often a result served another waiter.
pub open spec fn told_reused(source: InnerSource) -> Option<u64> {
    match source.stats_collection {
        Some(collect) => collect.reused,
        None => None,
    }
}

/// Somebody is told of a completion.
pub open spec fn is_told(source: InnerSource) -> bool {
    told_fulfilled(source) is Some || told_reused(source) is Some && others_served(source) > 0
}

/// The counts that the collectors of a request make of `stats`, one after the
/// other.
pub open spec fn collected<F: Fn(Report) -> RingIoStats>(
    record: F,
    source: InnerSource,
    result: Result<usize, i32>,
    stats: RingIoStats,
    after: RingIoStats,
) -> bool {
    exists|between: RingIoStats| #[trigger]
        reported(record, told_fulfilled(source), result, 1, stats, between) && reported(
            record,
            told_reused(source),
            result,
            others_served(source),
            between,
            after,
        )
}

/// One ring.
pub struct Ring {
    /// Which.
    pub kind: RingKind,
    /// How many entries it takes.
    pub size: usize,
    /// What waits to be submitted to it.
    pub queue: UringQueueState,
    /// How many entries the kernel has and has not completed.
    pub in_kernel: usize,
    /// What was counted.
    pub stats: RingIoStats,
    /// What was counted for each task queue.
    pub task_queue_stats: TaskQueueStats,
}

impl Ring {
    /// Everything queued can be submitted.
    pub open spec fn wf(&self, sources: Map<usize, InnerSource>) -> bool {
        &&& self.size >= 2
        &&& self.queue.wf(sources, self.size as nat)
    }

    /// All but what was counted is as it was.
    pub open spec fn same_but_counts(&self, before: &Self) -> bool {
        &&& self.kind == before.kind
        &&& self.size == before.size
        &&& self.queue == before.queue
    }

    /// All but the queue is as it was.
    pub open spec fn same_but_queue(&self, before: &Self) -> bool {
        *self == (Ring { queue: self.queue, ..*before })
    }

    /// A ring with nothing in it.
    pub fn new(kind: RingKind, size: usize) -> (ring: Self)
        requires
            2 <= size <= usize::MAX / 4,
        ensures
            ring.kind == kind,
            ring.size == size,
            ring.in_kernel == 0,
            ring.stats == no_stats(),
            ring.task_queue_stats@ == Map::<usize, RingIoStats>::empty(),
            ring.queue.submissions@ == Seq::<UringDescriptor>::empty(),
            ring.queue.cancellations@ == Seq::<UringDescriptor>::empty(),
            forall|sources: Map<usize, InnerSource>| #[trigger] ring.wf(sources),
    {
        Ring {
            kind,
            size,
            queue: UringQueueState::with_capacity(size * 4),
            in_kernel: 0,
            stats: RingIoStats::new(),
            task_queue_stats: TaskQueueStats::new(),
        }
    }

    /// The ring's name.
    pub fn name(&self) -> (name: &'static str)
        ensures
            name == match self.kind {
                RingKind::Main => "main",
                RingKind::Latency => "latency",
                RingKind::Poll => "poll",
            },
    {
        match self.kind {
            RingKind::Main => "main",
            RingKind::Latency => "latency",
            RingKind::Poll => "poll",
        }
    }

    /// Whether requests may be pushed through ahead of the reactor's turn.
    pub fn may_rush(&self) -> (rush: bool)
        ensures
            rush <==> self.kind is Poll,
    {
        match self.kind {
            RingKind::Poll => true,
            _ => false,
        }
    }

    /// Whether the kernel has to be entered: to submit, and on the poll ring
    /// also to collect, as long as it has anything.
    pub open spec fn must_enter(&self, waiting: nat) -> bool {
        waiting > 0 || self.kind is Poll && self.in_kernel > 0
    }

    /// Whether the kernel has to be entered, with `waiting` entries not yet
    /// submitted.
    pub fn needs_kernel_enter(&self, waiting: usize) -> (enter: bool)
        ensures
            enter == self.must_enter(waiting as nat),
    {
        match self.kind {
            RingKind::Poll => self.in_kernel > 0 || waiting > 0,
            _ => waiting > 0,
        }
    }

    /// Whether nothing about this ring keeps the reactor awake, with `waiting`
    /// entries not yet submitted and `ready` completions not yet collected.
    pub fn can_sleep(&self, waiting: usize, ready: usize) -> (sleep: bool)
        ensures
            sleep <==> self.queue.submissions@.len() == 0 && self.queue.cancellations@.len() == 0 && !self.must_enter(
                waiting as nat,
            ) && (self.kind is Poll || ready == 0),
    {
        match self.kind {
            RingKind::Poll => self.queue.is_empty() && !self.needs_kernel_enter(waiting),
            _ => self.queue.is_empty() && waiting == 0 && ready == 0,
        }
    }

    /// Takes note of how many entries the kernel took.
    pub fn submitted(&mut self, count: usize)
        requires
            old(self).in_kernel + count <= usize::MAX,
        ensures
            final(self).same_but_counts(old(self)),
            final(self).in_kernel == old(self).in_kernel + count,
            final(self).stats == old(self).stats,
            final(self).task_queue_stats == old(self).task_queue_stats,
    {
        self.in_kernel = self.in_kernel + count;
    }

    /// Takes the next chain of requests to submit, if it fits in the `room`
    /// the ring has left.
    pub fn submit_one_event(&mut self, sources: &mut SourceMap, room: usize, now: Instant) -> (next: NextChain)
        requires
            old(sources).wf(),
            old(self).wf(old(sources)@),
        ensures
            final(sources).wf(),
            final(self).wf(final(sources)@),
            final(self).same_but_queue(old(self)),
            final(self).queue.cancellations@ == old(self).queue.cancellations@,
            ({
                let queue = old(self).queue.submissions@;
                let gone = cleared(queue, old(sources)@, room as nat) as int;
                let rest = queue.skip(gone);
                let len = chain_len(rest) as int;
                match next {
                    NextChain::Idle => rest.len() == 0 && final(self).queue.submissions@ == rest && final(sources)@ == taken_off(queue.take(gone), old(sources)@, now),
                    NextChain::NoRoom => rest.len() > 0 && room < len && final(self).queue.submissions@ == rest
                        && final(sources)@ == taken_off(queue.take(gone), old(sources)@, now),
                    NextChain::Ready(ops) => rest.len() > 0 && room >= len && ops.spec_items() == kept(
                        rest.take(len),
                        old(sources)@,
                    ) && ops.spec_items().len() > 0 && final(self).queue.submissions@ == rest.skip(len) && final(sources)@ == taken_off(queue.take(gone + len), old(sources)@, now),
                }
            }),
    {
        next_chain(sources, &mut self.queue.submissions, self.size, room, now)
    }

    /// Takes chain after chain of requests to submit, until none is left or
    /// the next one does not fit in the `room` the ring has left.
    pub fn consume_submission_queue(&mut self, sources: &mut SourceMap, room: usize, now: Instant) -> (ops: Vec<
        UringDescriptor,
    >)
        requires
            old(sources).wf(),
            old(self).wf(old(sources)@),
        ensures
            final(sources).wf(),
            final(self).wf(final(sources)@),
            final(self).same_but_queue(old(self)),
            final(self).queue.cancellations@ == old(self).queue.cancellations@,
            ops@.len() <= room,
            ({
                let queue = old(self).queue.submissions@;
                let taken = taken_len(queue, old(sources)@, room as int) as int;
                &&& taken <= queue.len()
                &&& ops@ == kept(queue.take(taken), old(sources)@)
                &&& final(self).queue.submissions@ == queue.skip(taken)
                &&& final(sources)@ == taken_off(queue.take(taken), old(sources)@, now)
            }),
    {
        next_chains(sources, &mut self.queue.submissions, self.size, room, now)
    }

    /// Takes chain after chain of cancellations to submit, until none is left
    /// or the next one does not fit in the `room` the ring has left.
    pub fn consume_cancellation_queue(&mut self, sources: &mut SourceMap, room: usize, now: Instant) -> (ops: Vec<
        UringDescriptor,
    >)
        requires
            old(sources).wf(),
            old(self).wf(old(sources)@),
        ensures
            final(sources).wf(),
            final(sources)@ == old(sources)@,
            final(self).wf(final(sources)@),
            final(self).same_but_queue(old(self)),
            final(self).queue.submissions@ == old(self).queue.submissions@,
            ops@.len() <= room,
            ({
                let queue = old(self).queue.cancellations@;
                let taken = taken_len(queue, old(sources)@, room as int) as int;
                &&& taken <= queue.len()
                &&& ops@ == queue.take(taken)
                &&& final(self).queue.cancellations@ == queue.skip(taken)
            }),
    {
        let ghost queue = self.queue.cancellations@;
        let ghost before = sources@;
        proof {
            assert(stand_for_requests(queue, before));
        }
        let ops: Vec<UringDescriptor> = next_chains(sources, &mut self.queue.cancellations, self.size, room, now);
        proof {
            let taken = taken_len(queue, before, room as int) as int;
            lemma_unnumbered(queue.take(taken), before, now);
        }
        ops
    }

    /// Whether the kernel is to be entered once the queue was gone through:
    /// where that was asked for, or a chain is left that found no room, and
    /// only if the ring needs it.
    pub fn dispatches(&self, asked: bool, left: usize, waiting: usize) -> (enter: bool)
        ensures
            enter == ((asked || left > 0) && self.must_enter(waiting as nat)),
    {
        (asked || left > 0) && self.needs_kernel_enter(waiting)
    }

    /// Takes in a completion, if there is one: the request it completes leaves
    /// those under way, its result is noted, whoever keeps count of it is told
    /// by a call of `record`, and whoever waits for it is to be woken.
    ///
    /// No number is a removed poll or a cancellation, which completes nothing.
    pub fn consume_one_event<F: Fn(Report) -> RingIoStats + Copy>(
        &mut self,
        cqe: Option<Cqe>,
        sources: &mut SourceMap,
        now: Instant,
        record: F,
    ) -> (reaped: Option<Reaped>)
        requires
            forall|report: Report| call_requires(record, (report,)),
            old(sources).wf(),
            cqe is Some ==> old(self).in_kernel > 0,
            cqe matches Some(cqe) ==> cqe.result > i32::MIN && (cqe.user_data > 0 ==> cqe.user_data <= usize::MAX
                && old(sources)@.contains_key((cqe.user_data - 1) as usize)),
        ensures
            final(sources).wf(),
            final(self).same_but_counts(old(self)),
            match cqe {
                None => reaped is None && *final(self) == *old(self) && final(sources)@ == old(sources)@,
                Some(cqe) => {
                    &&& reaped == Some(reaped_one(old(self).kind, old(sources)@, cqe, now))
                    &&& books_after_one(
                        record,
                        old(self).kind,
                        old(self).books(old(sources)@),
                        cqe,
                        final(self).books(final(sources)@),
                    )
                },
            },
    {
        let cqe: Cqe = match cqe {
            None => {
                return None;
            },
            Some(cqe) => cqe,
        };
        self.in_kernel = self.in_kernel - 1;
        if cqe.user_data == 0 {
            return Some(Reaped { source: None, woke: false });
        }
        let mut source: InnerSource = consume_source(sources, from_user_data(cqe.user_data));
        let sleepable: bool = match self.kind {
            RingKind::Poll => false,
            _ => true,
        };
        let links: bool = match source.source_type {
            SourceType::LinkRings => sleepable,
            _ => false,
        };
        if links {
            return Some(Reaped { source: Some(source), woke: false });
        }
        let result: Result<usize, i32> = transmute_error(cqe.result);
        self.record_stats(&mut source, result, now, record);
        if let SourceType::ForeignNotifier(addr, installed) = source.source_type {
            source.source_type = SourceType::ForeignNotifier(addr, installed && !sleepable);
        }
        source.wakers.result = Some(result);
        let woke: bool = source.wakers.waiters > 0;
        source.wakers.waiters = 0;
        Some(Reaped { source: Some(source), woke })
    }

    /// What the ring keeps, with the requests under way.
    pub open spec fn books(&self, sources: Map<usize, InnerSource>) -> Books {
        Books {
            in_kernel: self.in_kernel as nat,
            stats: self.stats,
            task_queue_stats: self.task_queue_stats@,
            sources,
        }
    }

    /// Takes in every completion there is. Returns what each came to.
    pub fn consume_completion_queue<F: Fn(Report) -> RingIoStats + Copy>(
        &mut self,
        cqes: &Vec<Cqe>,
        sources: &mut SourceMap,
        now: Instant,
        record: F,
    ) -> (reaped: Vec<Reaped>)
        requires
            forall|report: Report| call_requires(record, (report,)),
            old(sources).wf(),
            cqes@.len() <= old(self).in_kernel,
            are_completions(cqes@, old(sources)@),
        ensures
            final(sources).wf(),
            final(self).same_but_counts(old(self)),
            reaped@ == cqes@.map_values(|cqe: Cqe| reaped_one(old(self).kind, old(sources)@, cqe, now)),
            books_after(
                record,
                old(self).kind,
                old(self).books(old(sources)@),
                cqes@,
                final(self).books(final(sources)@),
            ),
            final(sources)@ == old(sources)@.remove_keys(completed_ids(cqes@)),
    {
        let ghost kind = self.kind;
        let ghost before = sources@;
        let mut reaped: Vec<Reaped> = Vec::new();
        let mut i: usize = 0;
        proof {
            assert(cqes@.take(0) =~= Seq::<Cqe>::empty());
            assert(before.remove_keys(completed_ids(cqes@.take(0))) =~= before);
        }
        while i < cqes.len()
            invariant
                i <= cqes@.len(),
                kind == old(self).kind,
                before == old(sources)@,
                are_completions(cqes@, before),
                self.same_but_counts(old(self)),
                sources.wf(),
                self.in_kernel + i == old(self).in_kernel,
                cqes@.len() <= old(self).in_kernel,
                sources@ == before.remove_keys(completed_ids(cqes@.take(i as int))),
                books_after(record, kind, old(self).books(before), cqes@.take(i as int), self.books(sources@)),
                forall|report: Report| call_requires(record, (report,)),
                reaped@ == cqes@.take(i as int).map_values(|cqe: Cqe| reaped_one(kind, before, cqe, now)),
            decreases cqes@.len() - i,
        {
            let cqe: Cqe = cqes[i];
            let ghost done = cqes@.take(i as int);
            let ghost id = (cqe.user_data - 1) as usize;
            proof {
                if cqe.user_data > 0 {
                    assert(!completed_ids(done).contains(id)) by {
                        assert forall|j: int| 0 <= j < done.len() implies (#[trigger] done[j]).user_data != cqe.user_data by {
                            assert(done[j] == cqes@[j]);
                            assert(cqes@[i as int].user_data > 0);
                        }
                    }
                }
            }
            let ghost between = self.books(sources@);
            match self.consume_one_event(Some(cqe), sources, now, record) {
                Some(one) => {
                    reaped.push(one);
                },
                None => {},
            }
            i = i + 1;
            proof {
                let more = cqes@.take(i as int);
                assert(more =~= done.push(cqe));
                assert(more.drop_last() =~= done);
                assert(more.last() == cqe);
                assert(books_after_one(record, kind, between, more.last(), self.books(sources@)));
                assert(more.map_values(|cqe: Cqe| reaped_one(kind, before, cqe, now)) =~= done.map_values(
                    |cqe: Cqe| reaped_one(kind, before, cqe, now),
                ).push(reaped_one(kind, before, cqe, now)));
                lemma_completed_push(done, cqe);
                assert(sources@ =~= before.remove_keys(completed_ids(more)));
            }
        }
        assert(cqes@.take(i as int) =~= cqes@);
        reaped
    }

    /// Notes when a request was fulfilled and has it counted, on the ring and
    /// for its task queue.
    fn record_stats<F: Fn(Report) -> RingIoStats + Copy>(
        &mut self,
        source: &mut InnerSource,
        result: Result<usize, i32>,
        now: Instant,
        record: F,
    )
        requires
            forall|report: Report| call_requires(record, (report,)),
        ensures
            final(self).same_but_counts(old(self)),
            final(self).in_kernel == old(self).in_kernel,
            *final(source) == (InnerSource {
                wakers: (Wakers { fulfilled_at: Some(now), ..old(source).wakers }),
                ..*old(source)
            }),
            collected(record, *old(source), result, old(self).stats, final(self).stats),
            match old(source).task_queue {
                Some(queue) => if is_told(*old(source)) {
                    &&& final(self).task_queue_stats@ == old(self).task_queue_stats@.insert(
                        queue,
                        final(self).task_queue_stats@[queue],
                    )
                    &&& collected(
                        record,
                        *old(source),
                        result,
                        old(self).task_queue_stats.counts_of(queue),
                        final(self).task_queue_stats@[queue],
                    )
                } else {
                    final(self).task_queue_stats@ == old(self).task_queue_stats@
                },
                None => final(self).task_queue_stats@ == old(self).task_queue_stats@,
            },
    {
        source.wakers.fulfilled_at = Some(now);
        let (fulfilled, reused): (Option<u64>, Option<u64>) = match source.stats_collection {
            Some(collect) => (collect.fulfilled, collect.reused),
            None => (None, None),
        };
        let others: u64 = if source.wakers.waiters > 1 {
            (source.wakers.waiters - 1) as u64
        } else {
            0
        };
        let counted: RingIoStats = report(record, fulfilled, result, 1, self.stats);
        self.stats = report(record, reused, result, others, counted);
        if let Some(queue) = source.task_queue {
            if fulfilled.is_some() || reused.is_some() && others > 0 {
                let counted: RingIoStats = report(record, fulfilled, result, 1, self.task_queue_stats.get(queue));
                let counted: RingIoStats = report(record, reused, result, others, counted);
                self.task_queue_stats.set(queue, counted);
            }
        }
    }

    /// Hands out what was counted and starts again from nothing.
    pub fn take_stats(&mut self) -> (stats: RingIoStats)
        ensures
            stats == old(self).stats,
            final(self).stats == no_stats(),
            final(self).same_but_counts(old(self)),
            final(self).in_kernel == old(self).in_kernel,
            final(self).task_queue_stats == old(self).task_queue_stats,
    {
        let stats: RingIoStats = self.stats;
        self.stats = RingIoStats::new();
        stats
    }
}

/// How often cancellations are tried before giving up.
pub const MAX_FLUSHES: u32 = 1_000_000;

/// What is next once cancellations were tried.
#[derive(Debug, Clone, Copy, PartialEq, Eq, Structural)]
pub enum Flush {
    /// They are with the kernel.
    Finished,
    /// The kernel is to be relieved of completions, and they are tried again.
    Again,
    /// They were tried too often.
    GiveUp,
}

/// What is next once cancellations were tried, after `failures` tries that
/// failed.
///
/// It is important to process cancellations as soon as they are seen, so they
/// are tried until they are through.
pub fn flush_cancellations(failures: u32, through: bool) -> (next: Flush)
    requires
        failures <= MAX_FLUSHES,
    ensures
        next is Finished <==> through,
        next is GiveUp <==> !through && failures + 1 > MAX_FLUSHES,
{
    if through {
        Flush::Finished
    } else if failures + 1 > MAX_FLUSHES {
        Flush::GiveUp
    } else {
        Flush::Again
    }
}

/// What a ring keeps count of, and the requests under way.
#[verifier::ext_equal]
pub struct Books {
    /// How many entries the kernel has and has not completed.
    pub in_kernel: nat,
    /// What was counted.
    pub stats: RingIoStats,
    /// What was counted for each task queue.
    pub task_queue_stats: Map<usize, RingIoStats>,
    /// The requests under way.
    pub sources: Map<usize, InnerSource>,
}

impl Books {
    /// What was counted for a task queue, zero where nothing was.
    pub open spec fn counts_of(&self, queue: usize) -> RingIoStats {
        if self.task_queue_stats.contains_key(queue) {
            self.task_queue_stats[queue]
        } else {
            no_stats()
        }
    }
}

/// Completions that can come: each that carries a number completes a request
/// under way, and no two the same.
pub open spec fn are_completions(cqes: Seq<Cqe>, sources: Map<usize, InnerSource>) -> bool {
    &&& forall|i: int|
        0 <= i < cqes.len() ==> (#[trigger] cqes[i]).result > i32::MIN && (cqes[i].user_data > 0 ==> cqes[i].user_data
            <= usize::MAX && sources.contains_key((cqes[i].user_data - 1) as usize))
    &&& forall|i: int, j: int|
        0 <= i < cqes.len() && 0 <= j < cqes.len() && i != j && (#[trigger] cqes[i]).user_data > 0 ==> cqes[i].user_data
            != (#[trigger] cqes[j]).user_data
}

/// The requests that completions complete.
pub open spec fn completed_ids(cqes: Seq<Cqe>) -> Set<usize> {
    Set::new(
        |id: usize| exists|i: int| 0 <= i < cqes.len() && (#[trigger] cqes[i]).user_data == user_data_of(id),
    )
}

proof fn lemma_completed_push(cqes: Seq<Cqe>, cqe: Cqe)
    requires
        cqe.user_data <= usize::MAX,
    ensures
        completed_ids(cqes.push(cqe)) == if cqe.user_data > 0 {
            completed_ids(cqes).insert((cqe.user_data - 1) as usize)
        } else {
            completed_ids(cqes)
        },
{
    let more = cqes.push(cqe);
    assert forall|id: usize| #[trigger]
        completed_ids(more).contains(id) == (completed_ids(cqes).contains(id) || cqe.user_data == user_data_of(id)) by {
        if completed_ids(cqes).contains(id) {
            let i = choose|i: int| 0 <= i < cqes.len() && (#[trigger] cqes[i]).user_data == user_data_of(id);
            assert(more[i] == cqes[i]);
        }
        if cqe.user_data == user_data_of(id) {
            assert(more[cqes.len() as int] == cqe);
        }
        if completed_ids(more).contains(id) {
            let i = choose|i: int| 0 <= i < more.len() && (#[trigger] more[i]).user_data == user_data_of(id);
            if i < cqes.len() {
                assert(more[i] == cqes[i]);
            }
        }
    }
    assert(completed_ids(more) =~= if cqe.user_data > 0 {
        completed_ids(cqes).insert((cqe.user_data - 1) as usize)
    } else {
        completed_ids(cqes)
    });
}

/// What a completion comes to. One that carries no number is a removed poll or
/// a cancellation and completes nothing.
pub open spec fn reaped_one(kind: RingKind, sources: Map<usize, InnerSource>, cqe: Cqe, now: Instant) -> Reaped {
    if cqe.user_data == 0 {
        Reaped { source: None, woke: false }
    } else {
        let source = sources[(cqe.user_data - 1) as usize];
        Reaped {
            source: Some(fulfilled(kind, source, cqe.result, now)),
            woke: !only_links(kind, source) && source.wakers.waiters > 0,
        }
    }
}

/// What a ring keeps once a completion is taken in. The ring's counts and those
/// of the request's task queue are what the collectors make of them; a
/// completion that nobody is told of changes none.
pub open spec fn books_after_one<F: Fn(Report) -> RingIoStats>(
    record: F,
    kind: RingKind,
    books: Books,
    cqe: Cqe,
    after: Books,
) -> bool {
    let id = (cqe.user_data - 1) as usize;
    let source = books.sources[id];
    let result = completion_result(cqe.result);
    &&& after.in_kernel == (books.in_kernel - 1) as nat
    &&& if cqe.user_data == 0 {
        after.sources == books.sources
    } else {
        after.sources == books.sources.remove(id)
    }
    &&& if cqe.user_data == 0 || only_links(kind, source) {
        after.stats == books.stats && after.task_queue_stats == books.task_queue_stats
    } else {
        &&& collected(record, source, result, books.stats, after.stats)
        &&& match source.task_queue {
            Some(queue) => if is_told(source) {
                &&& after.task_queue_stats.contains_key(queue)
                &&& after.task_queue_stats == books.task_queue_stats.insert(queue, after.task_queue_stats[queue])
                &&& collected(record, source, result, books.counts_of(queue), after.task_queue_stats[queue])
            } else {
                after.task_queue_stats == books.task_queue_stats
            },
            None => after.task_queue_stats == books.task_queue_stats,
        }
    }
}

/// What a ring keeps once completions are taken in, one after the other.
pub open spec fn books_after<F: Fn(Report) -> RingIoStats>(
    record: F,
    kind: RingKind,
    books: Books,
    cqes: Seq<Cqe>,
    after: Books,
) -> bool
    decreases cqes.len(),
{
    if cqes.len() == 0 {
        after == books
    } else {
        exists|between: Books|
            books_after(record, kind, books, cqes.drop_last(), between) && #[trigger] books_after_one(
                record,
                kind,
                between,
                cqes.last(),
                after,
            )
    }
}

/// A request that is queued, taken off its queue and completed comes back as
/// it was made, with its result and the times it passed by; whoever waited for
/// it is to be woken, and it is no longer under way.
pub proof fn law_a_request_comes_back(
    kind: RingKind,
    source: InnerSource,
    id: usize,
    sources: Map<usize, InnerSource>,
    run: Seq<UringDescriptor>,
    i: int,
    queued_at: Instant,
    submitted_at: Instant,
    fulfilled_at: Instant,
    result: i32,
)
    requires
        id < usize::MAX,
        !(source.source_type is LinkRings),
        !(source.source_type is ForeignNotifier),
        0 <= i < run.len(),
        run[i].user_data == user_data_of(id),
    ensures
        ({
            let queued = sources.insert(
                id,
                enqueued(
                    InnerSource { wakers: Wakers { queued_at: Some(queued_at), ..source.wakers }, ..source },
                    id,
                ),
            );
            let submitted = taken_off(run, queued, submitted_at);
            let cqe = Cqe { user_data: user_data_of(id) as u64, result };
            let reaped = reaped_one(kind, submitted, cqe, fulfilled_at);
            &&& submitted.contains_key(id)
            &&& submitted[id].enqueued == Some(EnqueuedSource { id, status: EnqueuedStatus::Dispatched })
            &&& reaped.woke == (source.wakers.waiters > 0)
            &&& reaped.source == Some(
                InnerSource {
                    enqueued: None,
                    wakers: Wakers {
                        result: Some(completion_result(result)),
                        waiters: 0,
                        queued_at: Some(queued_at),
                        submitted_at: Some(submitted_at),
                        fulfilled_at: Some(fulfilled_at),
                    },
                    ..source
                },
            )
            &&& !submitted.remove_keys(completed_ids(seq![cqe])).contains_key(id)
        }),
{
    let queued = sources.insert(
        id,
        enqueued(InnerSource { wakers: Wakers { queued_at: Some(queued_at), ..source.wakers }, ..source }, id),
    );
    assert(run[i].user_data == user_data_of(id));
    assert(!is_dropped(run[i], queued));
    assert forall|j: int| 0 <= j < run.len() && (#[trigger] run[j]).user_data == user_data_of(id) implies !is_dropped(
        run[j],
        queued,
    ) by {
    }
    let cqe = Cqe { user_data: user_data_of(id) as u64, result };
    assert(seq![cqe][0].user_data == user_data_of(id));
    assert(completed_ids(seq![cqe]).contains(id));
}

/// Descriptors that carry no number touch no request and are all kept.
proof fn lemma_unnumbered(ops: Seq<UringDescriptor>, sources: Map<usize, InnerSource>, now: Instant)
    requires
        forall|i: int| 0 <= i < ops.len() ==> (#[trigger] ops[i]).user_data == 0,
    ensures
        kept(ops, sources) == ops,
        taken_off(ops, sources, now) == sources,
    decreases ops.len(),
{
    reveal(Seq::filter);
    assert(taken_off(ops, sources, now) =~= sources);
    if ops.len() > 0 {
        lemma_unnumbered(ops.drop_last(), sources, now);
        assert(ops.last() == ops[ops.len() - 1]);
        assert(kept(ops, sources) =~= ops);
    } else {
        assert(kept(ops, sources) =~= ops);
    }
}

/// A request is queued as it was made. Its own entry is about its own
/// descriptor, asks what was asked and carries the number it goes by; where a
/// time limits it, that entry is tied to one more, which asks the kernel to
/// give up after that very time and is not itself waited for.
pub proof fn law_a_request_is_queued_as_made(
    source: InnerSource,
    args: UringOpDescriptor,
    id: usize,
    source_type: SourceType,
    buffer: Option<Buffer>,
)
    ensures
        ({
            let chain = request_chain(source, args, id);
            &&& chain.len() == if source.timeout is Some {
                2int
            } else {
                1
            }
            &&& chain[0].fd == source.fd && chain[0].args == args && (id < u64::MAX ==> chain[0].user_data
                == user_data_of(id))
            &&& is_linked(chain[0].flags) <==> source.timeout is Some
            &&& source.timeout matches Some(time) ==> {
                &&& !is_linked(chain[1].flags)
                &&& carried(chain[1]) == 0
                &&& asked(chain[1], source_type, buffer) matches Sqe::LinkTimeout { timespec } && timespec as int
                    == time as int
            }
        }),
{
    lemma_link_flags();
}

/// A cancellation names the very request it is for: it asks the kernel to stop
/// the one whose entry carries that number, and is not itself waited for.
pub proof fn law_a_cancellation_names_its_request(
    source: InnerSource,
    args: UringOpDescriptor,
    id: usize,
    source_type: SourceType,
    buffer: Option<Buffer>,
)
    requires
        id < u64::MAX,
        !(args is PollRemove),
        !(args is Cancel),
    ensures
        asked(cancellation(id), source_type, buffer) matches Sqe::AsyncCancel { target } && target == carried(
            request_chain(source, args, id)[0],
        ),
        carried(cancellation(id)) == 0,
        !is_linked(cancellation(id).flags),
{
    lemma_link_flags();
}

/// A timer is a request that waits for the very time it was made with, or for
/// that many completions, and that nobody else waits for.
pub proof fn law_a_timer_waits_for_its_time(timespec: u64, events: u32)
    ensures
        timer_source(timespec, events).source_type matches SourceType::Timeout(time, count) && time as int
            == timespec as int && count as int == events as int,
        timer_source(timespec, events).wakers.waiters == 0,
        timer_source(timespec, events).timeout is None,
        timer_source(timespec, events).stats_collection is None,
{
}

/// What a completion comes to, whatever it completes: the request it carries
/// the number of, and no other, comes back with its result and the time; who
/// waits for it is woken, whoever waits and however many; a wake from another
/// thread has to be waited for anew; and an entry that only ties two rings
/// together comes back without a result and wakes nobody.
pub proof fn law_what_a_completion_comes_to(
    kind: RingKind,
    sources: Map<usize, InnerSource>,
    cqe: Cqe,
    now: Instant,
)
    requires
        cqe.user_data <= usize::MAX,
        cqe.result > i32::MIN,
    ensures
        cqe.user_data == 0 ==> reaped_one(kind, sources, cqe, now).source is None && !reaped_one(
            kind,
            sources,
            cqe,
            now,
        ).woke,
        cqe.user_data > 0 ==> {
            let source = sources[(cqe.user_data - 1) as usize];
            let reaped = reaped_one(kind, sources, cqe, now);
            let links = (kind is Main || kind is Latency) && source.source_type is LinkRings;
            &&& reaped.source matches Some(back) && back.fd == source.fd && back.timeout == source.timeout
                && back.task_queue == source.task_queue && back.stats_collection == source.stats_collection
                && back.enqueued is None
            &&& links ==> !reaped.woke && reaped.source->0.wakers == source.wakers
            &&& !links ==> {
                let back = reaped.source->0;
                &&& reaped.woke <==> source.wakers.waiters >= 1
                &&& back.wakers.waiters == 0
                &&& back.wakers.fulfilled_at == Some(now)
                &&& back.wakers.queued_at == source.wakers.queued_at && back.wakers.submitted_at
                    == source.wakers.submitted_at
                &&& cqe.result >= 0 ==> (back.wakers.result matches Some(Ok(count)) && count as int == cqe.result as int)
                &&& cqe.result < 0 && cqe.result != -125 ==> (back.wakers.result matches Some(Err(errno)) && errno
                    + cqe.result == 0)
                &&& cqe.result == -125 ==> (back.wakers.result matches Some(Err(errno)) && errno as int == 110)
                &&& !(source.source_type is ForeignNotifier) ==> back.source_type == source.source_type
                &&& source.source_type matches SourceType::ForeignNotifier(addr, installed) ==> back.source_type
                    == SourceType::ForeignNotifier(addr, installed && kind is Poll)
            }
        },
{
}

/// Each waiter beyond the first is served by the result of another, and a
/// collector is told exactly where there is something to tell it.
pub proof fn law_collectors_are_told(source: InnerSource)
    ensures
        source.wakers.waiters <= 1 ==> others_served(source) == 0,
        source.wakers.waiters >= 1 && source.wakers.waiters <= u64::MAX ==> others_served(source) + 1
            == source.wakers.waiters,
        source.stats_collection is None ==> !is_told(source),
        source.stats_collection matches Some(collect) ==> told_fulfilled(source) == collect.fulfilled && told_reused(source)
            == collect.reused,
        is_told(source) ==> source.stats_collection is Some,
{
}

/// The kernel is entered exactly where there is something to gain: entries to
/// submit, or on the ring that is polled completions to wait for.
pub proof fn law_when_the_kernel_is_entered(ring: Ring, waiting: nat)
    ensures
        waiting >= 1 ==> ring.must_enter(waiting),
        ring.kind is Poll && ring.in_kernel >= 1 ==> ring.must_enter(waiting),
        waiting == 0 && (ring.in_kernel == 0 || !(ring.kind is Poll)) ==> !ring.must_enter(waiting),
{
}

/// What one completion does to what a ring keeps. The kernel has one entry
/// less; the request it completes is no longer under way, and no other is
/// touched; and who keeps count of it makes the next counts of the ring, and of
/// the request's own task queue, from the ones there were and its result, told
/// once of the request and once of the other waiters it served, if any. What
/// nobody keeps count of, and what is another task queue's, stays.
pub proof fn law_what_is_kept_of_a_completion<F: Fn(Report) -> RingIoStats>(
    record: F,
    kind: RingKind,
    books: Books,
    cqe: Cqe,
    after: Books,
    other: usize,
)
    requires
        books_after_one(record, kind, books, cqe, after),
        books.in_kernel > 0,
        cqe.user_data <= usize::MAX,
    ensures
        after.in_kernel + 1 == books.in_kernel,
        cqe.user_data == 0 ==> after.sources == books.sources && after.stats == books.stats && after.task_queue_stats
            == books.task_queue_stats,
        cqe.user_data > 0 ==> {
            let source = books.sources[(cqe.user_data - 1) as usize];
            let result = completion_result(cqe.result);
            let links = (kind is Main || kind is Latency) && source.source_type is LinkRings;
            let collector = source.stats_collection;
            &&& !after.sources.contains_key((cqe.user_data - 1) as usize)
            &&& user_data_of(other) != cqe.user_data && books.sources.contains_key(other) ==> after.sources.contains_key(
                other,
            ) && after.sources[other] == books.sources[other]
            &&& links || collector is None ==> after.stats == books.stats && after.task_queue_stats
                == books.task_queue_stats
            &&& source.task_queue != Some(other) ==> after.counts_of(other) == books.counts_of(other)
            &&& !links && source.wakers.waiters <= 1 ==> (collector matches Some(collect) ==> (collect.fulfilled matches Some(
                who,
            ) ==> {
                &&& call_ensures(
                    record,
                    (Report { collector: who, result, stats: books.stats, count: 1 },),
                    after.stats,
                )
                &&& source.task_queue matches Some(queue) ==> call_ensures(
                    record,
                    (Report { collector: who, result, stats: books.counts_of(queue), count: 1 },),
                    after.counts_of(queue),
                )
            }))
            &&& !links && 1 < source.wakers.waiters <= u64::MAX ==> (collector matches Some(collect) ==> (collect.fulfilled
                is None ==> (collect.reused matches Some(who) ==> call_ensures(
                record,
                (
                    Report {
                        collector: who,
                        result,
                        stats: books.stats,
                        count: (source.wakers.waiters - 1) as u64,
                    },
                ),
                after.stats,
            ))))
        },
{
}

/// What completions do to what a ring keeps, however many: the kernel has as
/// many entries less, exactly the requests they complete are no longer under
/// way, and where nobody keeps count of any of them nothing was counted.
pub proof fn law_what_is_kept_of_completions<F: Fn(Report) -> RingIoStats>(
    record: F,
    kind: RingKind,
    books: Books,
    cqes: Seq<Cqe>,
    after: Books,
)
    requires
        books_after(record, kind, books, cqes, after),
        books.in_kernel >= cqes.len(),
        are_completions(cqes, books.sources),
    ensures
        after.in_kernel + cqes.len() == books.in_kernel,
        after.sources == books.sources.remove_keys(completed_ids(cqes)),
        (forall|i: int|
            0 <= i < cqes.len() && (#[trigger] cqes[i]).user_data > 0 ==> books.sources[(cqes[i].user_data
                - 1) as usize].stats_collection is None) ==> after.stats == books.stats && after.task_queue_stats
            == books.task_queue_stats,
    decreases cqes.len(),
{
    if cqes.len() == 0 {
        assert(books.sources.remove_keys(completed_ids(cqes)) =~= books.sources);
    } else {
        let fewer = cqes.drop_last();
        let last = cqes.last();
        let between = choose|between: Books|
            books_after(record, kind, books, fewer, between) && #[trigger] books_after_one(
                record,
                kind,
                between,
                last,
                after,
            );
        assert forall|i: int| 0 <= i < fewer.len() implies (#[trigger] fewer[i]) == cqes[i] by {
        }
        assert(cqes[cqes.len() - 1] == last);
        law_what_is_kept_of_completions(record, kind, books, fewer, between);
        lemma_completed_push(fewer, last);
        assert(fewer.push(last) =~= cqes);
        assert(after.sources =~= books.sources.remove_keys(completed_ids(cqes)));
        if last.user_data > 0 {
            let id = (last.user_data - 1) as usize;
            assert(!completed_ids(fewer).contains(id)) by {
                if completed_ids(fewer).contains(id) {
                    let i = choose|i: int| 0 <= i < fewer.len() && (#[trigger] fewer[i]).user_data == user_data_of(id);
                    assert(cqes[i].user_data == cqes[cqes.len() - 1].user_data);
                }
            }
            assert(between.sources[id] == books.sources[id]);
        }
    }
}

} // verus!
