//! The reactor: three rings over one table of requests.

use super::queue::{kept, stand_for_requests, taken_len, taken_off};
use super::requests::{ring_for_source, ring_of, COMMON_FLAGS, READ_FLAGS};
use super::ring::{
    are_completions, books_after, cancellation, completed_ids, enqueued, reaped_one, request_chain, timer_source, Cqe, Reaped,
    Ring, RingKind, NO_FD,
};
use super::source::{
    add_source, all_enqueued, to_user_data, user_data_of, Buffer, EnqueuedSource, EnqueuedStatus, InnerSource, SourceMap,
    SourceType, Wakers,
};
use super::sqe::{
    asked, carried, fill_sqe, law_filling_moves_no_request, lookup, sources_after, Entry, UringDescriptor,
    UringOpDescriptor, IO_LINK,
};
use super::stats::{combine, no_stats, IoStats, Report, RingIoStats};
use crate::timer::time::Instant;
use vstd::prelude::*;

verus! {

/// No request is in both queues.
pub open spec fn apart(a: Seq<UringDescriptor>, b: Seq<UringDescriptor>) -> bool {
    forall|i: int, j: int|
        0 <= i < a.len() && 0 <= j < b.len() && (#[trigger] a[i]).user_data > 0 ==> a[i].user_data != (
        #[trigger] b[j]).user_data
}

/// The request with this number is in the queue.
pub open spec fn queues(ops: Seq<UringDescriptor>, user_data: u64) -> bool {
    exists|i: int| 0 <= i < ops.len() && (#[trigger] ops[i]).user_data == user_data
}

/// The three rings of a thread and the requests under way in them.
pub struct Reactor {
    /// The ring the reactor sleeps in.
    pub main_ring: Ring,
    /// The ring that makes the running task queue yield.
    pub latency_ring: Ring,
    /// The ring whose completions are polled for.
    pub poll_ring: Ring,
    /// The requests under way.
    pub sources: SourceMap,
    /// The place of the timer that makes the running task queue yield, or
    /// wakes the reactor for a user's timer.
    pub latency_timer: Option<usize>,
    /// The place of the timer that fires on a number of completions.
    pub throughput_timer: Option<usize>,
    /// The latency ring's own descriptor.
    pub link_fd: i32,
    /// The descriptor that other threads write to, to wake this one.
    pub eventfd: i32,
    /// Where the count of their writes lands.
    pub eventfd_at: u64,
    /// Whether that descriptor is being read from.
    pub installed: bool,
}

/// A request that belongs to the reactor itself: nobody waits for it.
pub open spec fn own_source(fd: i32, source_type: SourceType) -> InnerSource {
    InnerSource {
        fd,
        source_type,
        enqueued: None,
        timeout: None,
        wakers: Wakers { result: None, waiters: 0, queued_at: None, submitted_at: None, fulfilled_at: None },
        stats_collection: None,
        task_queue: None,
    }
}

fn new_source(fd: i32, source_type: SourceType) -> (source: InnerSource)
    ensures
        source == own_source(fd, source_type),
{
    InnerSource {
        fd,
        source_type,
        enqueued: None,
        timeout: None,
        wakers: Wakers { result: None, waiters: 0, queued_at: None, submitted_at: None, fulfilled_at: None },
        stats_collection: None,
        task_queue: None,
    }
}

/// A timer the reactor still wants is under way.
pub open spec fn wanted(timer: Option<usize>, sources: Map<usize, InnerSource>) -> bool {
    timer matches Some(id) ==> sources.contains_key(id) && !(sources[id].enqueued->0.status is Canceled)
}

/// The requests once nobody wants the one at `id` any more, if it still waits
/// to be submitted.
pub open spec fn disowned(sources: Map<usize, InnerSource>, id: usize) -> Map<usize, InnerSource> {
    if sources[id].enqueued->0.status is Dispatched {
        sources
    } else {
        sources.insert(
            id,
            InnerSource {
                enqueued: Some(EnqueuedSource { status: EnqueuedStatus::Canceled, ..sources[id].enqueued->0 }),
                ..sources[id]
            },
        )
    }
}

proof fn lemma_ring_keeps(ring: &Ring, a: Map<usize, InnerSource>, b: Map<usize, InnerSource>)
    requires
        ring.wf(a),
        forall|i: int|
            0 <= i < ring.queue.submissions@.len() && (#[trigger] ring.queue.submissions@[i]).user_data > 0 ==> {
                let id = (ring.queue.submissions@[i].user_data - 1) as usize;
                b.contains_key(id) && b[id].enqueued is Some && !(b[id].enqueued->0.status is Dispatched)
            },
    ensures
        ring.wf(b),
{
    assert(stand_for_requests(ring.queue.submissions@, a));
    assert(stand_for_requests(ring.queue.submissions@, b));
}

/// Taking a run of descriptors off one queue leaves the requests of another
/// untouched, and every request in its place.
proof fn lemma_taken_off_elsewhere(
    ring: &Ring,
    queue: Seq<UringDescriptor>,
    taken: int,
    sources: Map<usize, InnerSource>,
    now: Instant,
)
    requires
        ring.wf(sources),
        0 <= taken <= queue.len(),
        apart(ring.queue.submissions@, queue),
    ensures
        ring.wf(taken_off(queue.take(taken), sources, now)),
{
    let run = queue.take(taken);
    let after = taken_off(run, sources, now);
    let own = ring.queue.submissions@;
    assert forall|i: int| 0 <= i < own.len() && (#[trigger] own[i]).user_data > 0 implies {
        let id = (own[i].user_data - 1) as usize;
        after.contains_key(id) && after[id].enqueued is Some && !(after[id].enqueued->0.status is Dispatched)
    } by {
        assert forall|j: int| 0 <= j < run.len() implies (#[trigger] run[j]).user_data != own[i].user_data by {
            assert(run[j] == queue[j]);
        }
    }
    lemma_ring_keeps(ring, sources, after);
}

proof fn lemma_taken_off_keeps(
    run: Seq<UringDescriptor>,
    sources: Map<usize, InnerSource>,
    now: Instant,
    timer: Option<usize>,
)
    requires
        all_enqueued(sources),
        wanted(timer, sources),
    ensures
        all_enqueued(taken_off(run, sources, now)),
        wanted(timer, taken_off(run, sources, now)),
{
    let after = taken_off(run, sources, now);
    assert forall|id: usize| #[trigger] after.contains_key(id) implies id < usize::MAX && (after[id].enqueued matches Some(
        enqueued,
    ) && enqueued.id == id) by {
        assert(sources.contains_key(id));
    }
}

proof fn lemma_apart_part(a: Seq<UringDescriptor>, b: Seq<UringDescriptor>, from: int)
    requires
        apart(a, b),
        0 <= from <= b.len(),
    ensures
        apart(a, b.skip(from)),
{
    let rest = b.skip(from);
    assert forall|i: int, j: int|
        0 <= i < a.len() && 0 <= j < rest.len() && (#[trigger] a[i]).user_data > 0 implies a[i].user_data != (
    #[trigger] rest[j]).user_data by {
        assert(rest[j] == b[from + j]);
    }
}

proof fn lemma_apart_sym(a: Seq<UringDescriptor>, b: Seq<UringDescriptor>)
    requires
        apart(a, b),
    ensures
        apart(b, a),
{
    assert forall|i: int, j: int|
        0 <= i < b.len() && 0 <= j < a.len() && (#[trigger] b[i]).user_data > 0 implies b[i].user_data != (
    #[trigger] a[j]).user_data by {
        if a[j].user_data == b[i].user_data {
            assert(a[j].user_data > 0);
        }
    }
}

/// A request that was not under way is in no queue.
proof fn lemma_fresh(ring: &Ring, sources: Map<usize, InnerSource>, id: usize)
    requires
        ring.wf(sources),
        !sources.contains_key(id),
        id < usize::MAX,
    ensures
        !queues(ring.queue.submissions@, user_data_of(id) as u64),
{
    let own = ring.queue.submissions@;
    if queues(own, user_data_of(id) as u64) {
        let i = choose|i: int| 0 <= i < own.len() && (#[trigger] own[i]).user_data == user_data_of(id) as u64;
        assert(sources.contains_key((own[i].user_data - 1) as usize));
    }
}

/// A timer the reactor wanted, once these completions were taken in.
pub open spec fn left_timer(timer: Option<usize>, cqes: Seq<Cqe>) -> Option<usize> {
    match timer {
        Some(id) if completed_ids(cqes).contains(id) => None,
        other => other,
    }
}

/// A wake from another thread is among the completions.
pub open spec fn woken(kind: RingKind, sources: Map<usize, InnerSource>, cqes: Seq<Cqe>) -> bool {
    !(kind is Poll) && exists|i: int|
        0 <= i < cqes.len() && (#[trigger] cqes[i]).user_data > 0 && sources[(cqes[i].user_data - 1) as usize].source_type
            is ForeignNotifier
}

/// A wake from another thread is among what completions came to.
pub open spec fn notifies(reaped: Seq<Reaped>) -> bool {
    exists|i: int|
        0 <= i < reaped.len() && ((#[trigger] reaped[i]).source matches Some(source) && source.source_type is ForeignNotifier)
}

fn timer_after(timer: Option<usize>, cqes: &Vec<Cqe>) -> (left: Option<usize>)
    requires
        timer matches Some(id) ==> id < usize::MAX,
    ensures
        left == left_timer(timer, cqes@),
{
    let id: usize = match timer {
        Some(id) => id,
        None => {
            return None;
        },
    };
    let user_data: u64 = to_user_data(id);
    let mut i: usize = 0;
    while i < cqes.len()
        invariant
            i <= cqes@.len(),
            user_data == user_data_of(id),
            timer == Some(id),
            forall|j: int| 0 <= j < i ==> (#[trigger] cqes@[j]).user_data != user_data,
        decreases cqes@.len() - i,
    {
        if cqes[i].user_data == user_data {
            assert(cqes@[i as int].user_data == user_data_of(id));
            assert(completed_ids(cqes@).contains(id));
            return None;
        }
        i = i + 1;
    }
    timer
}

fn any_notifier(reaped: &Vec<Reaped>) -> (any: bool)
    ensures
        any == notifies(reaped@),
{
    let mut i: usize = 0;
    while i < reaped.len()
        invariant
            i <= reaped@.len(),
            forall|j: int|
                0 <= j < i ==> !((#[trigger] reaped@[j]).source matches Some(source) && source.source_type is ForeignNotifier),
        decreases reaped@.len() - i,
    {
        if let Some(source) = reaped[i].source {
            if let SourceType::ForeignNotifier(_, _) = source.source_type {
                assert(reaped@[i as int].source == Some(source));
                return true;
            }
        }
        i = i + 1;
    }
    false
}

/// The requests once a timer is not wanted any more, if there is one.
pub open spec fn without_timer(timer: Option<usize>, sources: Map<usize, InnerSource>) -> Map<usize, InnerSource> {
    match timer {
        Some(id) => disowned(sources, id),
        None => sources,
    }
}

/// The cancellation of a timer, if there is one and the kernel has it.
pub open spec fn timer_cancellation(timer: Option<usize>, sources: Map<usize, InnerSource>) -> Seq<UringDescriptor> {
    match timer {
        Some(id) if sources[id].enqueued->0.status is Dispatched => seq![cancellation(id)],
        _ => Seq::empty(),
    }
}

/// What a ring counted for a task queue.
pub open spec fn counted_for(ring: Ring, queue: usize) -> RingIoStats {
    if ring.task_queue_stats@.contains_key(queue) {
        ring.task_queue_stats@[queue]
    } else {
        no_stats()
    }
}

impl Reactor {
    /// One of the rings.
    pub open spec fn ring(&self, kind: RingKind) -> Ring {
        match kind {
            RingKind::Main => self.main_ring,
            RingKind::Latency => self.latency_ring,
            RingKind::Poll => self.poll_ring,
        }
    }

    /// What waits to be submitted to one of the rings.
    pub open spec fn queue(&self, kind: RingKind) -> Seq<UringDescriptor> {
        self.ring(kind).queue.submissions@
    }

    /// Every request under way knows its place, what is queued for each ring
    /// can be submitted, and no request is queued twice.
    pub open spec fn wf(&self) -> bool {
        &&& self.sources.wf()
        &&& all_enqueued(self.sources@)
        &&& self.main_ring.kind is Main && self.main_ring.wf(self.sources@)
        &&& self.latency_ring.kind is Latency && self.latency_ring.wf(self.sources@)
        &&& self.poll_ring.kind is Poll && self.poll_ring.wf(self.sources@)
        &&& apart(self.queue(RingKind::Main), self.queue(RingKind::Latency))
        &&& apart(self.queue(RingKind::Main), self.queue(RingKind::Poll))
        &&& apart(self.queue(RingKind::Latency), self.queue(RingKind::Poll))
        &&& wanted(self.latency_timer, self.sources@)
        &&& wanted(self.throughput_timer, self.sources@)
        &&& self.latency_timer is Some ==> self.latency_timer != self.throughput_timer
    }

    /// Everything but one ring and the requests is as it was.
    pub open spec fn only_ring(&self, before: &Self, kind: RingKind) -> bool {
        &&& !(kind is Main) ==> self.main_ring == before.main_ring
        &&& !(kind is Latency) ==> self.latency_ring == before.latency_ring
        &&& !(kind is Poll) ==> self.poll_ring == before.poll_ring
        &&& self.latency_timer == before.latency_timer
        &&& self.throughput_timer == before.throughput_timer
        &&& self.link_fd == before.link_fd
        &&& self.eventfd == before.eventfd
        &&& self.eventfd_at == before.eventfd_at
        &&& self.installed == before.installed
    }

    /// The request is queued at `id`, on the ring it goes to, behind what was
    /// there.
    pub open spec fn queued(
        &self,
        before: &Self,
        source: InnerSource,
        op: UringOpDescriptor,
        now: Instant,
        id: usize,
    ) -> bool {
        let kind = ring_of(source.source_type);
        &&& !before.sources@.contains_key(id)
        &&& self.sources@ == before.sources@.insert(
            id,
            enqueued(
                InnerSource { wakers: Wakers { queued_at: Some(now), ..source.wakers }, ..source },
                id,
            ),
        )
        &&& self.queue(kind) == before.queue(kind) + request_chain(source, op, id)
        &&& self.ring(kind).queue.cancellations@ == before.ring(kind).queue.cancellations@
        &&& self.ring(kind).same_but_queue(&before.ring(kind))
        &&& self.only_ring(before, kind)
    }

    /// Three rings of a depth with nothing in them.
    pub fn new(depth: usize, link_fd: i32, eventfd: i32, eventfd_at: u64) -> (reactor: Self)
        requires
            2 <= depth <= usize::MAX / 4,
        ensures
            reactor.wf(),
            reactor.sources@ == Map::<usize, InnerSource>::empty(),
            forall|kind: RingKind| #[trigger] reactor.queue(kind) == Seq::<UringDescriptor>::empty(),
            forall|kind: RingKind| #[trigger] reactor.ring(kind).kind == kind && reactor.ring(kind).size == depth
                && reactor.ring(kind).in_kernel == 0,
            forall|kind: RingKind|
                (#[trigger] reactor.ring(kind)).queue.cancellations@ == Seq::<UringDescriptor>::empty() && reactor.ring(
                    kind,
                ).stats == no_stats() && reactor.ring(kind).task_queue_stats@ == Map::<usize, RingIoStats>::empty(),
            reactor.latency_timer is None,
            reactor.throughput_timer is None,
            reactor.link_fd == link_fd,
            reactor.eventfd == eventfd,
            reactor.eventfd_at == eventfd_at,
            !reactor.installed,
    {
        Reactor {
            main_ring: Ring::new(RingKind::Main, depth),
            latency_ring: Ring::new(RingKind::Latency, depth),
            poll_ring: Ring::new(RingKind::Poll, depth),
            sources: SourceMap::new(),
            latency_timer: None,
            throughput_timer: None,
            link_fd,
            eventfd,
            eventfd_at,
            installed: false,
        }
    }

    /// How many entries each ring takes.
    pub fn ring_depth(&self) -> (depth: usize)
        ensures
            depth == self.main_ring.size,
    {
        self.main_ring.size
    }

    /// The other rings stay well-formed when one more request joins the
    /// queue of one.
    proof fn lemma_one_more(
        &self,
        before: &Self,
        kind: RingKind,
        new: Seq<UringDescriptor>,
        behind: bool,
        id: usize,
        source: InnerSource,
    )
        requires
            before.wf(),
            !before.sources@.contains_key(id),
            id < usize::MAX,
            self.sources.wf(),
            all_enqueued(self.sources@),
            self.sources@ == before.sources@.insert(id, source),
            self.queue(kind) == if behind {
                before.queue(kind) + new
            } else {
                new + before.queue(kind)
            },
            self.ring(kind).kind == kind,
            self.ring(kind).wf(self.sources@),
            self.only_ring(before, kind),
            forall|i: int|
                0 <= i < new.len() ==> (#[trigger] new[i]).user_data == 0 || new[i].user_data == user_data_of(id),
        ensures
            self.wf(),
    {
        lemma_fresh(&before.main_ring, before.sources@, id);
        lemma_fresh(&before.latency_ring, before.sources@, id);
        lemma_fresh(&before.poll_ring, before.sources@, id);
        lemma_ring_keeps(&before.main_ring, before.sources@, self.sources@);
        lemma_ring_keeps(&before.latency_ring, before.sources@, self.sources@);
        lemma_ring_keeps(&before.poll_ring, before.sources@, self.sources@);
        let old_queue = before.queue(kind);
        let queue = self.queue(kind);
        assert forall|i: int| 0 <= i < queue.len() implies {
            ||| (#[trigger] queue[i]).user_data == 0
            ||| queue[i].user_data == user_data_of(id)
            ||| queues(old_queue, queue[i].user_data)
        } by {
            if behind {
                if i < old_queue.len() {
                    assert(queue[i] == old_queue[i]);
                } else {
                    assert(queue[i] == new[i - old_queue.len()]);
                }
            } else {
                if i < new.len() {
                    assert(queue[i] == new[i]);
                } else {
                    assert(queue[i] == old_queue[i - new.len()]);
                }
            }
        }
        before.lemma_apart_all();
        assert forall|other: RingKind| other != kind implies apart(#[trigger] self.queue(other), queue) by {
            let own = self.queue(other);
            assert(own == before.queue(other));
            assert(apart(before.queue(other), old_queue));
            assert forall|i: int, j: int|
                0 <= i < own.len() && 0 <= j < queue.len() && (#[trigger] own[i]).user_data > 0 implies own[i].user_data
                != (#[trigger] queue[j]).user_data by {
                if queues(old_queue, queue[j].user_data) {
                    let k = choose|k: int|
                        0 <= k < old_queue.len() && (#[trigger] old_queue[k]).user_data == queue[j].user_data;
                    assert(old_queue[k].user_data == queue[j].user_data);
                }
                if queue[j].user_data == user_data_of(id) {
                    assert(!queues(own, user_data_of(id) as u64));
                }
            }
        }
        self.lemma_apart_from(before, kind);
    }

    /// Queues are apart in either order.
    proof fn lemma_apart_all(&self)
        requires
            self.wf(),
        ensures
            forall|a: RingKind, b: RingKind| a != b ==> apart(#[trigger] self.queue(a), #[trigger] self.queue(b)),
    {
        lemma_apart_sym(self.queue(RingKind::Main), self.queue(RingKind::Latency));
        lemma_apart_sym(self.queue(RingKind::Main), self.queue(RingKind::Poll));
        lemma_apart_sym(self.queue(RingKind::Latency), self.queue(RingKind::Poll));
    }

    /// Where only one queue changed, it is enough that the others are apart
    /// from it.
    proof fn lemma_apart_from(&self, before: &Self, kind: RingKind)
        requires
            before.wf(),
            self.only_ring(before, kind),
            forall|other: RingKind| other != kind ==> apart(#[trigger] self.queue(other), self.queue(kind)),
        ensures
            apart(self.queue(RingKind::Main), self.queue(RingKind::Latency)),
            apart(self.queue(RingKind::Main), self.queue(RingKind::Poll)),
            apart(self.queue(RingKind::Latency), self.queue(RingKind::Poll)),
    {
        match kind {
            RingKind::Main => {
                assert(apart(self.queue(RingKind::Latency), self.queue(kind)));
                assert(apart(self.queue(RingKind::Poll), self.queue(kind)));
                lemma_apart_sym(self.queue(RingKind::Latency), self.queue(kind));
                lemma_apart_sym(self.queue(RingKind::Poll), self.queue(kind));
            },
            RingKind::Latency => {
                assert(apart(self.queue(RingKind::Main), self.queue(kind)));
                assert(apart(self.queue(RingKind::Poll), self.queue(kind)));
                lemma_apart_sym(self.queue(RingKind::Poll), self.queue(kind));
            },
            RingKind::Poll => {
                assert(apart(self.queue(RingKind::Main), self.queue(kind)));
                assert(apart(self.queue(RingKind::Latency), self.queue(kind)));
            },
        }
    }

    /// Queues a request on the ring it goes to, and gives it a place among
    /// those under way.
    pub fn queue_request(&mut self, source: InnerSource, op: UringOpDescriptor, now: Instant) -> (id: usize)
        requires
            old(self).wf(),
            !(source.source_type is Invalid),
        ensures
            final(self).wf(),
            final(self).queued(old(self), source, op, now, id),
    {
        let kind: RingKind = ring_for_source(&source.source_type);
        let id: usize = match kind {
            RingKind::Main => self.main_ring.queue.queue_request(source, op, &mut self.sources, now),
            RingKind::Latency => self.latency_ring.queue.queue_request(source, op, &mut self.sources, now),
            RingKind::Poll => self.poll_ring.queue.queue_request(source, op, &mut self.sources, now),
        };
        proof {
            assert(self.sources@.contains_key(id));
            self.lemma_one_more(old(self), kind, request_chain(source, op, id), true, id, self.sources@[id]);
        }
        id
    }

    /// Takes what is to be submitted to a ring next, as far as the `room` it
    /// has left goes.
    pub fn consume_submission_queue(&mut self, kind: RingKind, room: usize, now: Instant) -> (ops: Vec<UringDescriptor>)
        requires
            old(self).wf(),
        ensures
            final(self).wf(),
            final(self).only_ring(old(self), kind),
            final(self).ring(kind).same_but_queue(&old(self).ring(kind)),
            final(self).ring(kind).queue.cancellations@ == old(self).ring(kind).queue.cancellations@,
            ops@.len() <= room,
            ({
                let queue = old(self).queue(kind);
                let taken = taken_len(queue, old(self).sources@, room as int) as int;
                &&& taken <= queue.len()
                &&& ops@ == kept(queue.take(taken), old(self).sources@)
                &&& final(self).queue(kind) == queue.skip(taken)
                &&& final(self).sources@ == taken_off(queue.take(taken), old(self).sources@, now)
            }),
    {
        let ops: Vec<UringDescriptor> = match kind {
            RingKind::Main => self.main_ring.consume_submission_queue(&mut self.sources, room, now),
            RingKind::Latency => self.latency_ring.consume_submission_queue(&mut self.sources, room, now),
            RingKind::Poll => self.poll_ring.consume_submission_queue(&mut self.sources, room, now),
        };
        proof {
            let queue = old(self).queue(kind);
            let before = old(self).sources@;
            let taken = taken_len(queue, before, room as int) as int;
            old(self).lemma_apart_all();
            assert forall|other: RingKind| other != kind implies apart(#[trigger] self.queue(other), self.queue(kind)) by {
                assert(apart(old(self).queue(other), queue));
                lemma_apart_part(old(self).queue(other), queue, taken);
            }
            self.lemma_apart_from(old(self), kind);
            assert forall|other: RingKind| other != kind implies #[trigger] self.ring(other).wf(self.sources@) by {
                assert(apart(old(self).queue(other), queue));
                lemma_taken_off_elsewhere(&old(self).ring(other), queue, taken, before, now);
            }
            assert(self.ring(RingKind::Main).wf(self.sources@));
            assert(self.ring(RingKind::Latency).wf(self.sources@));
            assert(self.ring(RingKind::Poll).wf(self.sources@));
            lemma_taken_off_keeps(queue.take(taken), before, now, self.latency_timer);
            lemma_taken_off_keeps(queue.take(taken), before, now, self.throughput_timer);
        }
        ops
    }

    /// Takes the cancellations to submit to a ring next, as far as the `room`
    /// it has left goes.
    pub fn consume_cancellation_queue(&mut self, kind: RingKind, room: usize, now: Instant) -> (ops: Vec<
        UringDescriptor,
    >)
        requires
            old(self).wf(),
        ensures
            final(self).wf(),
            final(self).only_ring(old(self), kind),
            final(self).sources@ == old(self).sources@,
            final(self).ring(kind).same_but_queue(&old(self).ring(kind)),
            final(self).queue(kind) == old(self).queue(kind),
            ops@.len() <= room,
            ({
                let queue = old(self).ring(kind).queue.cancellations@;
                let taken = taken_len(queue, old(self).sources@, room as int) as int;
                &&& taken <= queue.len()
                &&& ops@ == queue.take(taken)
                &&& final(self).ring(kind).queue.cancellations@ == queue.skip(taken)
            }),
    {
        match kind {
            RingKind::Main => self.main_ring.consume_cancellation_queue(&mut self.sources, room, now),
            RingKind::Latency => self.latency_ring.consume_cancellation_queue(&mut self.sources, room, now),
            RingKind::Poll => self.poll_ring.consume_cancellation_queue(&mut self.sources, room, now),
        }
    }

    /// Builds the entry for a descriptor that was taken off a queue, with the
    /// memory it asked for.
    pub fn fill_sqe(&mut self, op: &UringDescriptor, buffer: Option<Buffer>) -> (entry: Entry)
        requires
            old(self).wf(),
            op.args.needs_source() ==> 0 < op.user_data <= usize::MAX && old(self).sources@.contains_key(
                (op.user_data - 1) as usize,
            ) && op.args.suits(old(self).sources@[(op.user_data - 1) as usize].source_type, buffer),
        ensures
            final(self).wf(),
            *final(self) == (Reactor { sources: final(self).sources, ..*old(self) }),
            final(self).sources@ == sources_after(*op, old(self).sources@, buffer),
            entry == (Entry {
                sqe: asked(*op, old(self).sources@[(op.user_data - 1) as usize].source_type, buffer),
                user_data: carried(*op),
                flags: op.flags,
            }),
    {
        let entry: Entry = fill_sqe(op, buffer, &mut self.sources);
        proof {
            let before = old(self).sources@;
            law_filling_moves_no_request(*op, before, buffer);
            assert forall|id: usize| before.contains_key(id) implies self.sources@.contains_key(id)
                && self.sources@[id].enqueued == #[trigger] before[id].enqueued by {
            }
            lemma_ring_keeps(&self.main_ring, before, self.sources@);
            lemma_ring_keeps(&self.latency_ring, before, self.sources@);
            lemma_ring_keeps(&self.poll_ring, before, self.sources@);
        }
        entry
    }

    /// Takes note of how many entries of a ring the kernel took.
    pub fn submitted(&mut self, kind: RingKind, count: usize)
        requires
            old(self).wf(),
            old(self).ring(kind).in_kernel + count <= usize::MAX,
        ensures
            final(self).wf(),
            final(self).only_ring(old(self), kind),
            final(self).sources@ == old(self).sources@,
            final(self).ring(kind) == (Ring {
                in_kernel: (old(self).ring(kind).in_kernel + count) as usize,
                ..old(self).ring(kind)
            }),
    {
        match kind {
            RingKind::Main => self.main_ring.submitted(count),
            RingKind::Latency => self.latency_ring.submitted(count),
            RingKind::Poll => self.poll_ring.submitted(count),
        }
    }

    /// Completions that can come from the kernel: of requests under way that
    /// wait in no queue any more.
    pub open spec fn can_complete(&self, cqes: Seq<Cqe>) -> bool {
        &&& are_completions(cqes, self.sources@)
        &&& forall|i: int, kind: RingKind|
            0 <= i < cqes.len() && (#[trigger] cqes[i]).user_data > 0 ==> !queues(
                #[trigger] self.queue(kind),
                cqes[i].user_data,
            )
    }

    /// Takes in the completions of a ring. A timer that fired is not wanted
    /// any more, and a wake from another thread has to be waited for anew.
    ///
    /// Whoever keeps count of a request is told of its completion by a call of
    /// `record`.
    pub fn consume_completion_queue<F: Fn(Report) -> RingIoStats + Copy>(
        &mut self,
        kind: RingKind,
        cqes: &Vec<Cqe>,
        now: Instant,
        record: F,
    ) -> (reaped: Vec<Reaped>)
        requires
            forall|report: Report| call_requires(record, (report,)),
            old(self).wf(),
            cqes@.len() <= old(self).ring(kind).in_kernel,
            old(self).can_complete(cqes@),
        ensures
            final(self).wf(),
            final(self).latency_timer == left_timer(old(self).latency_timer, cqes@),
            final(self).throughput_timer == left_timer(old(self).throughput_timer, cqes@),
            final(self).installed == (old(self).installed && !woken(kind, old(self).sources@, cqes@)),
            final(self).only_ring(
                &(Reactor {
                    latency_timer: final(self).latency_timer,
                    throughput_timer: final(self).throughput_timer,
                    installed: final(self).installed,
                    ..*old(self)
                }),
                kind,
            ),
            final(self).ring(kind).same_but_counts(&old(self).ring(kind)),
            reaped@ == cqes@.map_values(|cqe: Cqe| reaped_one(kind, old(self).sources@, cqe, now)),
            books_after(
                record,
                kind,
                old(self).ring(kind).books(old(self).sources@),
                cqes@,
                final(self).ring(kind).books(final(self).sources@),
            ),
            final(self).sources@ == old(self).sources@.remove_keys(completed_ids(cqes@)),
    {
        let reaped: Vec<Reaped> = match kind {
            RingKind::Main => self.main_ring.consume_completion_queue(cqes, &mut self.sources, now, record),
            RingKind::Latency => self.latency_ring.consume_completion_queue(cqes, &mut self.sources, now, record),
            RingKind::Poll => self.poll_ring.consume_completion_queue(cqes, &mut self.sources, now, record),
        };
        self.latency_timer = timer_after(self.latency_timer, cqes);
        self.throughput_timer = timer_after(self.throughput_timer, cqes);
        let sleepable: bool = match kind {
            RingKind::Poll => false,
            _ => true,
        };
        if sleepable && any_notifier(&reaped) {
            self.installed = false;
        }
        proof {
            let before = old(self).sources@;
            assert forall|other: RingKind| #[trigger] self.ring(other).wf(self.sources@) by {
                let own = old(self).ring(other);
                let ops = own.queue.submissions@;
                assert(own.wf(before));
                assert forall|i: int| 0 <= i < ops.len() && (#[trigger] ops[i]).user_data > 0 implies {
                    let id = (ops[i].user_data - 1) as usize;
                    self.sources@.contains_key(id) && self.sources@[id].enqueued is Some
                        && !(self.sources@[id].enqueued->0.status is Dispatched)
                } by {
                    let id = (ops[i].user_data - 1) as usize;
                    assert(stand_for_requests(ops, before));
                    if completed_ids(cqes@).contains(id) {
                        let j = choose|j: int|
                            0 <= j < cqes@.len() && (#[trigger] cqes@[j]).user_data == user_data_of(id);
                        assert(!queues(old(self).queue(other), cqes@[j].user_data));
                    }
                }
                lemma_ring_keeps(&own, before, self.sources@);
                assert(self.ring(other).queue == own.queue);
                assert(self.ring(other).size == own.size);
            }
            assert(self.ring(RingKind::Main).wf(self.sources@));
            assert(self.ring(RingKind::Latency).wf(self.sources@));
            assert(self.ring(RingKind::Poll).wf(self.sources@));
            assert forall|id: usize| #[trigger] self.sources@.contains_key(id) implies id < usize::MAX && (
            self.sources@[id].enqueued matches Some(enqueued) && enqueued.id == id) by {
                assert(before.contains_key(id));
            }
            self.lemma_notified(kind, before, cqes@, reaped@, now);
        }
        reaped
    }

    proof fn lemma_notified(
        &self,
        kind: RingKind,
        sources: Map<usize, InnerSource>,
        cqes: Seq<Cqe>,
        reaped: Seq<Reaped>,
        now: Instant,
    )
        requires
            reaped == cqes.map_values(|cqe: Cqe| reaped_one(kind, sources, cqe, now)),
        ensures
            !(kind is Poll) ==> (woken(kind, sources, cqes) <==> notifies(reaped)),
            kind is Poll ==> !woken(kind, sources, cqes),
    {
        if !(kind is Poll) {
            if woken(kind, sources, cqes) {
                let i = choose|i: int|
                    0 <= i < cqes.len() && (#[trigger] cqes[i]).user_data > 0 && sources[(cqes[i].user_data - 1) as usize].source_type
                        is ForeignNotifier;
                assert(reaped[i].source->0.source_type is ForeignNotifier);
                assert(notifies(reaped));
            }
            if notifies(reaped) {
                let i = choose|i: int|
                    0 <= i < reaped.len() && ((#[trigger] reaped[i]).source matches Some(source) && source.source_type is ForeignNotifier);
                assert(reaped[i] == reaped_one(kind, sources, cqes[i], now));
                assert(cqes[i].user_data > 0);
            }
        }
    }

    /// Nobody wants the request at `id` any more. One that still waits to be
    /// submitted never will be; one that the kernel has is to be cancelled on
    /// the ring that has it.
    pub fn cancel(&mut self, id: usize, kind: RingKind)
        requires
            old(self).wf(),
            old(self).sources@.contains_key(id),
            old(self).latency_timer != Some(id),
            old(self).throughput_timer != Some(id),
        ensures
            final(self).wf(),
            final(self).only_ring(old(self), kind),
            final(self).ring(kind).same_but_queue(&old(self).ring(kind)),
            final(self).queue(kind) == old(self).queue(kind),
            final(self).sources@ == disowned(old(self).sources@, id),
            final(self).ring(kind).queue.cancellations@ == if old(self).sources@[id].enqueued->0.status is Dispatched {
                old(self).ring(kind).queue.cancellations@.push(cancellation(id))
            } else {
                old(self).ring(kind).queue.cancellations@
            },
    {
        let mut source: InnerSource = lookup(&self.sources, id);
        let current: EnqueuedSource = match source.enqueued {
            Some(current) => current,
            None => vstd::pervasive::unreached(),
        };
        if let EnqueuedStatus::Dispatched = current.status {
            match kind {
                RingKind::Main => self.main_ring.queue.cancel_request(id),
                RingKind::Latency => self.latency_ring.queue.cancel_request(id),
                RingKind::Poll => self.poll_ring.queue.cancel_request(id),
            }
        } else {
            source.enqueued = Some(EnqueuedSource { id: current.id, status: EnqueuedStatus::Canceled });
            self.sources.replace(id, source);
            proof {
                let before = old(self).sources@;
                assert(self.sources@ =~= disowned(before, id));
                lemma_ring_keeps(&self.main_ring, before, self.sources@);
                lemma_ring_keeps(&self.latency_ring, before, self.sources@);
                lemma_ring_keeps(&self.poll_ring, before, self.sources@);
            }
        }
    }

    /// Prepares the timer that makes the latency ring fire after the time at
    /// `timespec`, at the front of that ring's queue. The timer before it, if
    /// it is still wanted, is cancelled.
    pub fn arm_latency_timer(&mut self, timespec: u64) -> (id: usize)
        requires
            old(self).wf(),
        ensures
            final(self).wf(),
            !old(self).sources@.contains_key(id),
            final(self).latency_timer == Some(id),
            final(self).only_ring(&(Reactor { latency_timer: Some(id), ..*old(self) }), RingKind::Latency),
            final(self).latency_ring.same_but_queue(&old(self).latency_ring),
            final(self).sources@ == without_timer(
                old(self).latency_timer,
                old(self).sources@.insert(id, enqueued(timer_source(timespec, 0), id)),
            ),
            final(self).latency_ring.queue.cancellations@ == old(self).latency_ring.queue.cancellations@
                + timer_cancellation(old(self).latency_timer, old(self).sources@),
            final(self).queue(RingKind::Latency) == seq![
                (UringDescriptor {
                    fd: NO_FD,
                    flags: 0,
                    user_data: user_data_of(id) as u64,
                    args: UringOpDescriptor::Timeout(timespec, 0),
                }),
            ] + old(self).queue(RingKind::Latency),
    {
        let before: Option<usize> = self.latency_timer;
        let id: usize = self.latency_ring.queue.prepare_latency_preemption_timer(timespec, &mut self.sources);
        proof {
            assert(self.sources@.contains_key(id));
            let new = seq![
                UringDescriptor {
                    fd: NO_FD,
                    flags: 0,
                    user_data: user_data_of(id) as u64,
                    args: UringOpDescriptor::Timeout(timespec, 0),
                },
            ];
            self.lemma_one_more(old(self), RingKind::Latency, new, false, id, self.sources@[id]);
        }
        self.latency_timer = Some(id);
        if let Some(before) = before {
            self.cancel(before, RingKind::Latency);
        }
        assert(self.latency_ring.queue.cancellations@ =~= old(self).latency_ring.queue.cancellations@
            + timer_cancellation(old(self).latency_timer, old(self).sources@));
        id
    }

    /// Cancels the timer on the latency ring, if it is still wanted.
    pub fn disarm_latency_timer(&mut self)
        requires
            old(self).wf(),
        ensures
            final(self).wf(),
            final(self).latency_timer is None,
            final(self).only_ring(&(Reactor { latency_timer: None, ..*old(self) }), RingKind::Latency),
            final(self).latency_ring.same_but_queue(&old(self).latency_ring),
            final(self).queue(RingKind::Latency) == old(self).queue(RingKind::Latency),
            final(self).sources@ == without_timer(old(self).latency_timer, old(self).sources@),
            final(self).latency_ring.queue.cancellations@ == old(self).latency_ring.queue.cancellations@
                + timer_cancellation(old(self).latency_timer, old(self).sources@),
    {
        if let Some(id) = self.latency_timer {
            self.latency_timer = None;
            self.cancel(id, RingKind::Latency);
        }
        assert(self.latency_ring.queue.cancellations@ =~= old(self).latency_ring.queue.cancellations@
            + timer_cancellation(old(self).latency_timer, old(self).sources@));
    }

    /// Prepares the timer that fires once `min_events` completions are
    /// available on the main ring, and with it the write that makes the
    /// latency ring fire. The timer before it, if it is still wanted, is
    /// cancelled.
    pub fn arm_throughput_timer(&mut self, timespec: u64, min_events: u32, wakeup: u64) -> (id: usize)
        requires
            old(self).wf(),
            min_events >= 1,
        ensures
            final(self).wf(),
            !old(self).sources@.contains_key(id),
            final(self).throughput_timer == Some(id),
            final(self).only_ring(&(Reactor { throughput_timer: Some(id), ..*old(self) }), RingKind::Main),
            final(self).main_ring.same_but_queue(&old(self).main_ring),
            final(self).sources@ == without_timer(
                old(self).throughput_timer,
                old(self).sources@.insert(id, enqueued(timer_source(timespec, min_events), id)),
            ),
            final(self).main_ring.queue.cancellations@ == old(self).main_ring.queue.cancellations@
                + timer_cancellation(old(self).throughput_timer, old(self).sources@),
            final(self).queue(RingKind::Main) == seq![
                (UringDescriptor {
                    fd: NO_FD,
                    flags: IO_LINK,
                    user_data: user_data_of(id) as u64,
                    args: UringOpDescriptor::Timeout(timespec, min_events),
                }),
                (UringDescriptor {
                    fd: old(self).eventfd,
                    flags: 0,
                    user_data: 0,
                    args: UringOpDescriptor::Write(wakeup, 8, 0),
                }),
            ] + old(self).queue(RingKind::Main),
    {
        let before: Option<usize> = self.throughput_timer;
        let id: usize = self.main_ring.queue.prepare_throughput_preemption_timer(
            timespec,
            min_events,
            self.eventfd,
            wakeup,
            &mut self.sources,
        );
        proof {
            assert(self.sources@.contains_key(id));
            let new = seq![
                UringDescriptor {
                    fd: NO_FD,
                    flags: IO_LINK,
                    user_data: user_data_of(id) as u64,
                    args: UringOpDescriptor::Timeout(timespec, min_events),
                },
                UringDescriptor {
                    fd: self.eventfd,
                    flags: 0,
                    user_data: 0,
                    args: UringOpDescriptor::Write(wakeup, 8, 0),
                },
            ];
            self.lemma_one_more(old(self), RingKind::Main, new, false, id, self.sources@[id]);
        }
        self.throughput_timer = Some(id);
        if let Some(before) = before {
            self.cancel(before, RingKind::Main);
        }
        assert(self.main_ring.queue.cancellations@ =~= old(self).main_ring.queue.cancellations@
            + timer_cancellation(old(self).throughput_timer, old(self).sources@));
        id
    }

    /// Queues the closing of a descriptor that nobody waits for, on the main
    /// ring.
    pub fn async_close(&mut self, fd: i32)
        requires
            old(self).wf(),
        ensures
            final(self).wf(),
            final(self).only_ring(old(self), RingKind::Main),
            final(self).sources@ == old(self).sources@,
            final(self).main_ring.same_but_queue(&old(self).main_ring),
            final(self).main_ring.queue.cancellations@ == old(self).main_ring.queue.cancellations@,
            final(self).queue(RingKind::Main) == old(self).queue(RingKind::Main).push(
                (UringDescriptor { fd, flags: 0, user_data: 0, args: UringOpDescriptor::Close }),
            ),
    {
        self.main_ring.queue.async_close(fd);
        proof {
            let queue = self.queue(RingKind::Main);
            let before = old(self).queue(RingKind::Main);
            assert forall|i: int| 0 <= i < queue.len() && (#[trigger] queue[i]).user_data > 0 implies i < before.len()
                && queue[i] == before[i] by {
            }
        }
    }

    /// A request of the reactor's own that goes straight to the kernel: the
    /// entry for it, and the request in its place.
    pub open spec fn pushed(
        &self,
        before: &Self,
        fd: i32,
        source_type: SourceType,
        args: UringOpDescriptor,
        op: UringDescriptor,
    ) -> bool {
        exists|id: usize| #![trigger user_data_of(id)]
            {
                &&& !before.sources@.contains_key(id)
                &&& self.sources@ == before.sources@.insert(id, enqueued(own_source(fd, source_type), id))
                &&& op == UringDescriptor { fd, flags: 0, user_data: user_data_of(id) as u64, args }
                &&& *self == Reactor { sources: self.sources, ..*before }
            }
    }

    fn push_own(&mut self, fd: i32, source_type: SourceType, args: UringOpDescriptor) -> (op: UringDescriptor)
        requires
            old(self).wf(),
        ensures
            final(self).wf(),
            final(self).pushed(old(self), fd, source_type, args, op),
    {
        let id: usize = add_source(&mut self.sources, new_source(fd, source_type));
        proof {
            let before = old(self).sources@;
            lemma_ring_keeps(&self.main_ring, before, self.sources@);
            lemma_ring_keeps(&self.latency_ring, before, self.sources@);
            lemma_ring_keeps(&self.poll_ring, before, self.sources@);
            assert(user_data_of(id) > 0);
        }
        UringDescriptor { fd, flags: 0, user_data: to_user_data(id), args }
    }

    /// Now must wait for a wake from another thread in case someone wants to
    /// wake us up: the entry that does, if there is none yet and the latency
    /// ring is not full. If there is none we can't sleep.
    pub fn install_eventfd(&mut self, full: bool) -> (op: Option<UringDescriptor>)
        requires
            old(self).wf(),
        ensures
            final(self).wf(),
            op is None <==> old(self).installed || full,
            match op {
                None => *final(self) == *old(self),
                Some(op) => final(self).pushed(
                    old(self),
                    old(self).eventfd,
                    SourceType::ForeignNotifier(old(self).eventfd_at, false),
                    UringOpDescriptor::Read(0, 8),
                    op,
                ),
            },
    {
        if self.installed || full {
            return None;
        }
        let op: UringDescriptor = self.push_own(
            self.eventfd,
            SourceType::ForeignNotifier(self.eventfd_at, false),
            UringOpDescriptor::Read(0, 8),
        );
        Some(op)
    }

    /// Takes note of whether the entry that waits for a wake went out.
    pub fn eventfd_installed(&mut self, ok: bool)
        requires
            old(self).wf(),
        ensures
            final(self).wf(),
            *final(self) == (Reactor { installed: ok, ..*old(self) }),
    {
        self.installed = ok;
    }

    /// We want to go to sleep, but can only go to sleep in one of the rings,
    /// as there is only one thread. A ring's own descriptor can be polled, so
    /// this is the entry that makes the main ring wake up for the latency
    /// ring, if the main ring is not full.
    pub fn link_rings(&mut self, full: bool) -> (op: Option<UringDescriptor>)
        requires
            old(self).wf(),
        ensures
            final(self).wf(),
            op is None <==> full,
            match op {
                None => *final(self) == *old(self),
                Some(op) => final(self).pushed(
                    old(self),
                    old(self).link_fd,
                    SourceType::LinkRings,
                    UringOpDescriptor::PollAdd(COMMON_FLAGS | READ_FLAGS),
                    op,
                ),
            },
    {
        if full {
            return None;
        }
        let op: UringDescriptor = self.push_own(
            self.link_fd,
            SourceType::LinkRings,
            UringOpDescriptor::PollAdd(COMMON_FLAGS | READ_FLAGS),
        );
        Some(op)
    }

    /// Whether nothing about the rings keeps the reactor awake, given how many
    /// entries of each were not yet submitted and how many completions of each
    /// were not yet collected.
    pub fn can_sleep(&self, main: (usize, usize), latency: (usize, usize), poll: (usize, usize)) -> (sleep: bool)
        requires
            self.wf(),
        ensures
            sleep <==> {
                &&& forall|kind: RingKind|
                    #[trigger] self.queue(kind).len() == 0 && self.ring(kind).queue.cancellations@.len() == 0
                &&& main.0 == 0 && latency.0 == 0 && poll.0 == 0
                &&& main.1 == 0 && latency.1 == 0
                &&& self.poll_ring.in_kernel == 0
            },
    {
        let sleep: bool = self.poll_ring.can_sleep(poll.0, poll.1) && self.main_ring.can_sleep(main.0, main.1)
            && self.latency_ring.can_sleep(latency.0, latency.1);
        proof {
            assert(self.queue(RingKind::Main).len() == self.main_ring.queue.submissions@.len());
            assert(self.queue(RingKind::Latency).len() == self.latency_ring.queue.submissions@.len());
            assert(self.queue(RingKind::Poll).len() == self.poll_ring.queue.submissions@.len());
        }
        sleep
    }

    /// Hands out what the rings counted and starts again from nothing.
    pub fn io_stats(&mut self) -> (stats: IoStats)
        requires
            old(self).wf(),
        ensures
            final(self).wf(),
            stats == (IoStats {
                main: old(self).main_ring.stats,
                latency: old(self).latency_ring.stats,
                poll: old(self).poll_ring.stats,
            }),
            *final(self) == (Reactor {
                main_ring: (Ring { stats: no_stats(), ..old(self).main_ring }),
                latency_ring: (Ring { stats: no_stats(), ..old(self).latency_ring }),
                poll_ring: (Ring { stats: no_stats(), ..old(self).poll_ring }),
                ..*old(self)
            }),
    {
        IoStats {
            main: self.main_ring.take_stats(),
            latency: self.latency_ring.take_stats(),
            poll: self.poll_ring.take_stats(),
        }
    }

    /// Hands out what the rings counted for a task queue and starts again from
    /// nothing. `None` where no ring ever counted anything for it.
    pub fn task_queue_io_stats(&mut self, queue: usize) -> (stats: Option<IoStats>)
        requires
            old(self).wf(),
        ensures
            final(self).wf(),
            stats is None <==> forall|kind: RingKind|
                !(#[trigger] old(self).ring(kind)).task_queue_stats@.contains_key(queue),
            stats matches Some(stats) ==> {
                &&& stats.main == counted_for(old(self).main_ring, queue)
                &&& stats.latency == counted_for(old(self).latency_ring, queue)
                &&& stats.poll == counted_for(old(self).poll_ring, queue)
            },
            final(self).only_ring(
                &(Reactor {
                    main_ring: final(self).main_ring,
                    latency_ring: final(self).latency_ring,
                    poll_ring: final(self).poll_ring,
                    ..*old(self)
                }),
                RingKind::Main,
            ),
            final(self).sources == old(self).sources,
            forall|kind: RingKind|
                {
                    let before = old(self).ring(kind);
                    let after = #[trigger] final(self).ring(kind);
                    &&& after == (Ring { task_queue_stats: after.task_queue_stats, ..before })
                    &&& after.task_queue_stats@ == if before.task_queue_stats@.contains_key(queue) {
                        before.task_queue_stats@.insert(queue, no_stats())
                    } else {
                        before.task_queue_stats@
                    }
                },
    {
        let main: Option<RingIoStats> = self.main_ring.task_queue_stats.take(queue);
        let latency: Option<RingIoStats> = self.latency_ring.task_queue_stats.take(queue);
        let poll: Option<RingIoStats> = self.poll_ring.task_queue_stats.take(queue);
        proof {
            assert(old(self).ring(RingKind::Main) == old(self).main_ring);
            assert(old(self).ring(RingKind::Latency) == old(self).latency_ring);
            assert(old(self).ring(RingKind::Poll) == old(self).poll_ring);
        }
        combine(main, latency, poll)
    }
}

/// What giving up a request comes to. One that still waits to be submitted is
/// marked as cancelled, keeps its place and never goes out; one that the
/// kernel has is left as it is; and no other request is touched.
pub proof fn law_giving_up_a_request(sources: Map<usize, InnerSource>, id: usize, other: usize)
    requires
        sources.contains_key(id),
        sources[id].enqueued is Some,
    ensures
        ({
            let after = disowned(sources, id);
            &&& after.dom() == sources.dom()
            &&& sources[id].enqueued->0.status is Dispatched ==> after == sources
            &&& !(sources[id].enqueued->0.status is Dispatched) ==> (after[id].enqueued matches Some(enqueued) && enqueued.status
                is Canceled && enqueued.id == sources[id].enqueued->0.id)
            &&& after[id].source_type == sources[id].source_type && after[id].wakers == sources[id].wakers && after[id].fd
                == sources[id].fd
            &&& other != id && sources.contains_key(other) ==> after[other] == sources[other]
        }),
{
    assert(disowned(sources, id).dom() =~= sources.dom());
}

/// What giving up a timer comes to: it is given up as any request is, and the
/// kernel is asked to stop it exactly where the kernel has it.
pub proof fn law_giving_up_a_timer(timer: Option<usize>, sources: Map<usize, InnerSource>)
    ensures
        timer is None ==> without_timer(timer, sources) == sources && timer_cancellation(timer, sources).len() == 0,
        timer matches Some(id) ==> without_timer(timer, sources) == disowned(sources, id),
        timer matches Some(id) ==> timer_cancellation(timer, sources) == if sources[id].enqueued->0.status is Dispatched {
            seq![cancellation(id)]
        } else {
            Seq::empty()
        },
{
}

/// A timer is wanted until it completes, and no longer.
pub proof fn law_a_timer_is_wanted_until_it_fires(id: usize, cqes: Seq<Cqe>)
    ensures
        left_timer(None, cqes) is None,
        (exists|i: int| 0 <= i < cqes.len() && (#[trigger] cqes[i]).user_data == user_data_of(id)) ==> left_timer(
            Some(id),
            cqes,
        ) is None,
        (forall|i: int| 0 <= i < cqes.len() ==> (#[trigger] cqes[i]).user_data != user_data_of(id)) ==> left_timer(
            Some(id),
            cqes,
        ) == Some(id),
{
}

/// What queuing a request comes to: it is under way, untouched but for the time
/// it was queued at and its place; its entries are the last of the ring it goes
/// to; and no other request, and nothing in the other rings, is touched.
pub proof fn law_a_request_is_queued_untouched(
    before: &Reactor,
    after: &Reactor,
    source: InnerSource,
    op: UringOpDescriptor,
    now: Instant,
    id: usize,
    other: usize,
    kind: RingKind,
)
    requires
        after.queued(before, source, op, now, id),
        id < u64::MAX,
    ensures
        ({
            let under_way = after.sources@[id];
            let at = ring_of(source.source_type);
            let count = if source.timeout is Some {
                2int
            } else {
                1
            };
            &&& after.sources@.contains_key(id) && !before.sources@.contains_key(id)
            &&& under_way.enqueued matches Some(enqueued) && enqueued.id == id && enqueued.status is Enqueued
            &&& under_way.fd == source.fd && under_way.source_type == source.source_type && under_way.timeout
                == source.timeout && under_way.stats_collection == source.stats_collection && under_way.task_queue
                == source.task_queue
            &&& under_way.wakers.queued_at == Some(now) && under_way.wakers.waiters == source.wakers.waiters
                && under_way.wakers.result == source.wakers.result
            &&& after.queue(at).len() == before.queue(at).len() + count
            &&& after.queue(at).take(before.queue(at).len() as int) == before.queue(at)
            &&& after.queue(at)[before.queue(at).len() as int].user_data == user_data_of(id)
            &&& after.queue(at)[before.queue(at).len() as int].args == op
            &&& after.queue(at)[before.queue(at).len() as int].fd == source.fd
            &&& kind != at ==> after.queue(kind) == before.queue(kind)
            &&& other != id ==> after.sources@.contains_key(other) == before.sources@.contains_key(other)
            &&& other != id && before.sources@.contains_key(other) ==> after.sources@[other] == before.sources@[other]
        }),
{
    let at = ring_of(source.source_type);
    let was = before.queue(at);
    assert((was + request_chain(source, op, id)).take(was.len() as int) =~= was);
}

/// A wake from another thread is noticed wherever it is among the completions,
/// on the rings that wait for one, and is not made up.
pub proof fn law_wakes_are_noticed(kind: RingKind, sources: Map<usize, InnerSource>, cqes: Seq<Cqe>, at: int)
    requires
        0 <= at < cqes.len(),
    ensures
        kind is Poll ==> !woken(kind, sources, cqes),
        !(kind is Poll) && cqes[at].user_data > 0 && sources[(cqes[at].user_data - 1) as usize].source_type
            is ForeignNotifier ==> woken(kind, sources, cqes),
        (forall|i: int|
            0 <= i < cqes.len() && (#[trigger] cqes[i]).user_data > 0 ==> !(sources[(cqes[i].user_data
                - 1) as usize].source_type is ForeignNotifier)) ==> !woken(kind, sources, cqes),
{
}

/// What belongs to the reactor itself is waited for by nobody, limited by
/// nothing and counted for nobody, and is about what it was made for.
pub proof fn law_own_requests_are_nobodys(fd: i32, source_type: SourceType)
    ensures
        own_source(fd, source_type).fd == fd,
        own_source(fd, source_type).source_type == source_type,
        own_source(fd, source_type).wakers.waiters == 0,
        own_source(fd, source_type).wakers.result is None,
        own_source(fd, source_type).timeout is None,
        own_source(fd, source_type).stats_collection is None,
        own_source(fd, source_type).task_queue is None,
{
}

} // verus!
