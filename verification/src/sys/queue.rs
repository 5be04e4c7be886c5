//! Requests waiting to be submitted, and the chains they form.

use super::source::{
    consume_source, from_user_data, user_data_of, EnqueuedSource, EnqueuedStatus, InnerSource, SourceMap,
    Wakers,
};
use super::sqe::{lookup, UringDescriptor, IO_HARDLINK, IO_LINK};
use crate::timer::time::Instant;
use smallvec::SmallVec;
use std::collections::VecDeque;
use vstd::prelude::*;

verus! {

/// The descriptors of one chain, held in a `smallvec::SmallVec`: most chains
/// are one long.
#[verifier::external_body]
pub struct Chain {
    items: SmallVec<[UringDescriptor; 1]>,
}

/// The descriptors of a chain, in order.
pub uninterp spec fn chain_items(chain: Chain) -> Seq<UringDescriptor>;

/// Calls `smallvec::SmallVec::new`, which makes a list that holds nothing.
#[verifier::external_body]
fn new_chain() -> (chain: Chain)
    ensures
        chain_items(chain) == Seq::<UringDescriptor>::empty(),
{
    Chain { items: SmallVec::new() }
}

/// Calls `smallvec::SmallVec::push`, which puts an item behind the others.
#[verifier::external_body]
fn push_to_chain(chain: &mut Chain, op: UringDescriptor)
    ensures
        chain_items(*final(chain)) == chain_items(*old(chain)).push(op),
{
    chain.items.push(op)
}

/// Calls `smallvec::SmallVec::len`, which counts the items.
#[verifier::external_body]
fn chain_len_of(chain: &Chain) -> (len: usize)
    ensures
        len == chain_items(*chain).len(),
{
    chain.items.len()
}

/// Calls `smallvec::SmallVec::into_vec`, which hands the items over in order.
#[verifier::external_body]
fn chain_into_vec(chain: Chain) -> (items: Vec<UringDescriptor>)
    ensures
        items@ == chain_items(chain),
{
    chain.items.into_vec()
}

impl Chain {
    /// The descriptors, in order.
    pub open spec fn spec_items(&self) -> Seq<UringDescriptor> {
        chain_items(*self)
    }

    /// How many descriptors there are.
    pub fn len(&self) -> (len: usize)
        ensures
            len == self.spec_items().len(),
    {
        chain_len_of(self)
    }

    /// The descriptors, in order.
    pub fn into_vec(self) -> (items: Vec<UringDescriptor>)
        ensures
            items@ == self.spec_items(),
    {
        chain_into_vec(self)
    }
}

/// Whether an entry with these flags is tied to the next.
pub open spec fn is_linked(flags: u8) -> bool {
    flags & (IO_LINK | IO_HARDLINK) != 0
}

/// The first `len` descriptors are a chain: each is tied to the next, and the
/// last to none.
pub open spec fn is_chain(queue: Seq<UringDescriptor>, len: int) -> bool {
    &&& 0 < len <= queue.len()
    &&& forall|i: int| 0 <= i < len - 1 ==> is_linked((#[trigger] queue[i]).flags)
    &&& !is_linked(queue[len - 1].flags)
}

/// A chain at the front of a queue has one length.
pub proof fn lemma_one_chain(queue: Seq<UringDescriptor>, a: int, b: int)
    requires
        is_chain(queue, a),
        is_chain(queue, b),
    ensures
        a == b,
{
    if a < b {
        assert(is_linked(queue[a - 1].flags));
    }
    if b < a {
        assert(is_linked(queue[b - 1].flags));
    }
}

/// How long the chain at the front of a queue is, or zero where it has no end.
pub open spec fn chain_len(queue: Seq<UringDescriptor>) -> nat
    decreases queue.len(),
{
    if queue.len() == 0 {
        0
    } else if !is_linked(queue[0].flags) {
        1
    } else {
        let rest = chain_len(queue.skip(1));
        if rest == 0 {
            0
        } else {
            rest + 1
        }
    }
}

/// A queue is a row of chains, each of which fits in a ring of `ring_size`.
pub open spec fn chains_fit(queue: Seq<UringDescriptor>, ring_size: nat) -> bool
    decreases queue.len(),
{
    queue.len() == 0 || {
        &&& 0 < chain_len(queue) <= ring_size
        &&& chain_len(queue) <= queue.len()
        &&& chains_fit(queue.skip(chain_len(queue) as int), ring_size)
    }
}

/// The length of the chain at the front is that of a chain.
pub proof fn lemma_chain_len(queue: Seq<UringDescriptor>)
    ensures
        chain_len(queue) <= queue.len(),
        chain_len(queue) > 0 ==> is_chain(queue, chain_len(queue) as int),
        chain_len(queue) == 0 ==> forall|i: int| 0 <= i < queue.len() ==> is_linked((#[trigger] queue[i]).flags),
    decreases queue.len(),
{
    if queue.len() > 0 && is_linked(queue[0].flags) {
        let rest = queue.skip(1);
        lemma_chain_len(rest);
        let n = chain_len(rest) as int;
        if n > 0 {
            assert forall|i: int| 0 <= i < n implies is_linked((#[trigger] queue[i]).flags) by {
                if i > 0 {
                    assert(queue[i] == rest[i - 1]);
                }
            }
            assert(queue[n] == rest[n - 1]);
        } else {
            assert forall|i: int| 0 <= i < queue.len() implies is_linked((#[trigger] queue[i]).flags) by {
                if i > 0 {
                    assert(queue[i] == rest[i - 1]);
                }
            }
        }
    }
}

/// The length of a chain is that of the chain at the front.
pub proof fn lemma_chain_len_of_chain(queue: Seq<UringDescriptor>, len: int)
    requires
        is_chain(queue, len),
    ensures
        chain_len(queue) == len,
{
    lemma_chain_len(queue);
    if chain_len(queue) > 0 {
        lemma_one_chain(queue, chain_len(queue) as int, len);
    } else {
        assert(is_linked(queue[len - 1].flags));
    }
}

fn linked(flags: u8) -> (linked: bool)
    ensures
        linked == is_linked(flags),
{
    flags & (IO_LINK | IO_HARDLINK) != 0
}

/// Finds the next complete chain in the queue: how many descriptors it takes.
/// Returns None if the queue is empty.
pub fn peek_one_chain(queue: &VecDeque<UringDescriptor>, ring_size: usize) -> (chain: Option<usize>)
    requires
        queue@.len() > 0 ==> 0 < chain_len(queue@) <= ring_size,
    ensures
        chain is None <==> queue@.len() == 0,
        chain matches Some(len) ==> len == chain_len(queue@) && is_chain(queue@, len as int),
{
    let count: usize = queue.len();
    if count == 0 {
        return None;
    }
    proof {
        lemma_chain_len(queue@);
    }
    let mut at: usize = 0;
    while linked(queue[at].flags)
        invariant
            is_chain(queue@, chain_len(queue@) as int),
            at < chain_len(queue@) <= count,
            count == queue@.len(),
            forall|i: int| 0 <= i < at ==> is_linked((#[trigger] queue@[i]).flags),
        decreases queue@.len() - at,
    {
        at = at + 1;
    }
    proof {
        lemma_one_chain(queue@, at + 1, chain_len(queue@) as int);
    }
    Some(at + 1)
}

/// A request once it is handed to the kernel at `now`.
pub open spec fn dispatched(source: InnerSource, now: Instant) -> InnerSource {
    InnerSource {
        enqueued: Some(
            EnqueuedSource { status: EnqueuedStatus::Dispatched, ..source.enqueued->0 },
        ),
        wakers: Wakers { submitted_at: Some(now), ..source.wakers },
        ..source
    }
}

/// A descriptor stands for a request that nobody wants any more.
pub open spec fn is_dropped(op: UringDescriptor, sources: Map<usize, InnerSource>) -> bool {
    op.user_data > 0 && sources[(op.user_data - 1) as usize].enqueued->0.status is Canceled
}

/// What is left of a run of descriptors once those nobody wants are left out.
pub open spec fn kept(ops: Seq<UringDescriptor>, sources: Map<usize, InnerSource>) -> Seq<UringDescriptor> {
    ops.filter(|op: UringDescriptor| !is_dropped(op, sources))
}

/// The requests once a run of descriptors is taken off the queue at `now`:
/// those nobody wants are gone, the others are handed to the kernel.
pub open spec fn taken_off(
    ops: Seq<UringDescriptor>,
    sources: Map<usize, InnerSource>,
    now: Instant,
) -> Map<usize, InnerSource> {
    Map::new(
        |id: usize|
            sources.contains_key(id) && !(exists|i: int|
                0 <= i < ops.len() && (#[trigger] ops[i]).user_data == user_data_of(id) && is_dropped(ops[i], sources)),
        |id: usize|
            if exists|i: int| 0 <= i < ops.len() && (#[trigger] ops[i]).user_data == user_data_of(id) {
                dispatched(sources[id], now)
            } else {
                sources[id]
            },
    )
}

/// Every descriptor that carries a number stands for a request that waits to
/// be submitted, and no two for the same.
pub open spec fn stand_for_requests(ops: Seq<UringDescriptor>, sources: Map<usize, InnerSource>) -> bool {
    &&& forall|i: int|
        0 <= i < ops.len() && (#[trigger] ops[i]).user_data > 0 ==> {
            &&& ops[i].user_data <= usize::MAX
            &&& sources.contains_key((ops[i].user_data - 1) as usize)
            &&& sources[(ops[i].user_data - 1) as usize].enqueued is Some
            &&& !(sources[(ops[i].user_data - 1) as usize].enqueued->0.status is Dispatched)
        }
    &&& forall|i: int, j: int|
        0 <= i < ops.len() && 0 <= j < ops.len() && i != j && (#[trigger] ops[i]).user_data > 0 ==> ops[i].user_data
            != (#[trigger] ops[j]).user_data
}

/// Extracts a chain of descriptors from the queue. The chain may come out
/// empty if the requests were cancelled.
pub fn extract_one_chain(
    sources: &mut SourceMap,
    queue: &mut VecDeque<UringDescriptor>,
    chain: usize,
    now: Instant,
) -> (ops: Chain)
    requires
        old(sources).wf(),
        chain <= old(queue)@.len(),
        stand_for_requests(old(queue)@.take(chain as int), old(sources)@),
    ensures
        final(sources).wf(),
        final(queue)@ == old(queue)@.skip(chain as int),
        ops.spec_items() == kept(old(queue)@.take(chain as int), old(sources)@),
        final(sources)@ == taken_off(old(queue)@.take(chain as int), old(sources)@, now),
{
    let ghost all = queue@.take(chain as int);
    let ghost before = sources@;
    let mut ops: Chain = new_chain();
    let mut i: usize = 0;
    proof {
        reveal(Seq::filter);
        assert(all.take(0) =~= Seq::<UringDescriptor>::empty());
        assert(kept(all.take(0), before) =~= Seq::<UringDescriptor>::empty());
        assert(taken_off(all.take(0), before, now) =~= before);
    }
    while i < chain
        invariant
            i <= chain,
            chain <= old(queue)@.len(),
            all == old(queue)@.take(chain as int),
            before == old(sources)@,
            stand_for_requests(all, before),
            sources.wf(),
            queue@ == old(queue)@.skip(i as int),
            chain_items(ops) == kept(all.take(i as int), before),
            sources@ == taken_off(all.take(i as int), before, now),
        decreases chain - i,
    {
        match queue.pop_front() {
            Some(op) => {
                proof {
                    assert(op == all[i as int]);
                    assert(old(queue)@.skip(i as int).skip(1) =~= old(queue)@.skip(i + 1));
                    assert(all.take(i + 1) =~= all.take(i as int).push(op));
                    lemma_kept_push(all.take(i as int), op, before);
                    lemma_taken_off_push(all, i as int, before, now);
                }
                let mut keep: bool = true;
                if op.user_data > 0 {
                    let id: usize = from_user_data(op.user_data);
                    let mut source: InnerSource = lookup(sources, id);
                    match source.enqueued {
                        Some(mut current) => match current.status {
                            EnqueuedStatus::Canceled => {
                                consume_source(sources, id);
                                keep = false;
                            },
                            _ => {
                                current.status = EnqueuedStatus::Dispatched;
                                source.enqueued = Some(current);
                                source.wakers.submitted_at = Some(now);
                                sources.replace(id, source);
                            },
                        },
                        None => {},
                    }
                }
                if keep {
                    push_to_chain(&mut ops, op);
                }
            },
            None => {},
        }
        i = i + 1;
    }
    assert(all.take(chain as int) =~= all);
    ops
}

proof fn lemma_kept_push(ops: Seq<UringDescriptor>, op: UringDescriptor, sources: Map<usize, InnerSource>)
    ensures
        kept(ops.push(op), sources) == if is_dropped(op, sources) {
            kept(ops, sources)
        } else {
            kept(ops, sources).push(op)
        },
{
    reveal(Seq::filter);
    assert(ops.push(op).drop_last() =~= ops);
}

/// Taking one more descriptor off touches only its own request.
proof fn lemma_taken_off_push(
    all: Seq<UringDescriptor>,
    i: int,
    sources: Map<usize, InnerSource>,
    now: Instant,
)
    requires
        0 <= i < all.len(),
        stand_for_requests(all, sources),
    ensures
        ({
            let before = taken_off(all.take(i), sources, now);
            let op = all[i];
            let id = (op.user_data - 1) as usize;
            &&& op.user_data > 0 ==> before.contains_key(id) && before[id] == sources[id]
            &&& taken_off(all.take(i + 1), sources, now) == if op.user_data == 0 {
                before
            } else if is_dropped(op, sources) {
                before.remove(id)
            } else {
                before.insert(id, dispatched(sources[id], now))
            }
        }),
{
    let earlier = all.take(i);
    let later = all.take(i + 1);
    let op = all[i];
    let id = (op.user_data - 1) as usize;
    let before = taken_off(earlier, sources, now);
    assert(later[i] == op);
    assert forall|j: int| 0 <= j < i implies #[trigger] later[j] == earlier[j] && earlier[j] == all[j] by {
    }
    if op.user_data > 0 {
        assert forall|j: int| 0 <= j < earlier.len() implies (#[trigger] earlier[j]).user_data != op.user_data by {
            assert(earlier[j] == all[j]);
            assert(all[i].user_data > 0);
        }
    }
    let after = taken_off(later, sources, now);
    let expected = if op.user_data == 0 {
        before
    } else if is_dropped(op, sources) {
        before.remove(id)
    } else {
        before.insert(id, dispatched(sources[id], now))
    };
    assert forall|other: usize| #[trigger] after.contains_key(other) == expected.contains_key(other) by {
        if exists|j: int|
            0 <= j < later.len() && (#[trigger] later[j]).user_data == user_data_of(other) && is_dropped(later[j], sources) {
            let j = choose|j: int|
                0 <= j < later.len() && (#[trigger] later[j]).user_data == user_data_of(other) && is_dropped(
                    later[j],
                    sources,
                );
            if j < i {
                assert(earlier[j] == later[j]);
            }
        }
        if exists|j: int|
            0 <= j < earlier.len() && (#[trigger] earlier[j]).user_data == user_data_of(other) && is_dropped(
                earlier[j],
                sources,
            ) {
            let j = choose|j: int|
                0 <= j < earlier.len() && (#[trigger] earlier[j]).user_data == user_data_of(other) && is_dropped(
                    earlier[j],
                    sources,
                );
            assert(later[j] == earlier[j]);
        }
    }
    assert forall|other: usize| #[trigger] after.contains_key(other) implies after[other] == expected[other] by {
        if exists|j: int| 0 <= j < later.len() && (#[trigger] later[j]).user_data == user_data_of(other) {
            let j = choose|j: int| 0 <= j < later.len() && (#[trigger] later[j]).user_data == user_data_of(other);
            if j < i {
                assert(earlier[j] == later[j]);
            }
        }
        if exists|j: int| 0 <= j < earlier.len() && (#[trigger] earlier[j]).user_data == user_data_of(other) {
            let j = choose|j: int| 0 <= j < earlier.len() && (#[trigger] earlier[j]).user_data == user_data_of(other);
            assert(later[j] == earlier[j]);
        }
    }
    assert(after =~= expected);
}

/// What the queue gives to submit next.
pub enum NextChain {
    /// The next chain does not fit in what the ring has left. Half of one is
    /// a link timeout with no operation to guard, so it waits.
    NoRoom,
    /// Nothing is queued.
    Idle,
    /// These descriptors, together.
    Ready(Chain),
}

/// How many descriptors at the front of the queue are chains nobody wants any
/// more that fit in what the ring has left.
pub open spec fn cleared(queue: Seq<UringDescriptor>, sources: Map<usize, InnerSource>, room: nat) -> nat
    decreases queue.len(),
{
    let len = chain_len(queue);
    if queue.len() == 0 || len == 0 || len > queue.len() || room < len || kept(queue.take(len as int), sources).len()
        > 0 {
        0
    } else {
        len + cleared(queue.skip(len as int), sources, room)
    }
}

/// Takes the next complete chain off the queue, if it fits in the `room` the
/// ring has left. Chains whose requests were all cancelled are dropped on the
/// way.
pub fn next_chain(
    sources: &mut SourceMap,
    queue: &mut VecDeque<UringDescriptor>,
    ring_size: usize,
    room: usize,
    now: Instant,
) -> (next: NextChain)
    requires
        old(sources).wf(),
        chains_fit(old(queue)@, ring_size as nat),
        stand_for_requests(old(queue)@, old(sources)@),
    ensures
        final(sources).wf(),
        chains_fit(final(queue)@, ring_size as nat),
        stand_for_requests(final(queue)@, final(sources)@),
        ({
            let gone = cleared(old(queue)@, old(sources)@, room as nat) as int;
            let rest = old(queue)@.skip(gone);
            let len = chain_len(rest) as int;
            match next {
                NextChain::Idle => rest.len() == 0 && final(queue)@ == rest && final(sources)@ == taken_off(
                    old(queue)@.take(gone),
                    old(sources)@,
                    now,
                ),
                NextChain::NoRoom => rest.len() > 0 && room < len && final(queue)@ == rest && final(sources)@
                    == taken_off(old(queue)@.take(gone), old(sources)@, now),
                NextChain::Ready(ops) => rest.len() > 0 && room >= len && ops.spec_items() == kept(
                    rest.take(len),
                    old(sources)@,
                ) && ops.spec_items().len() > 0 && final(queue)@ == rest.skip(len) && final(sources)@ == taken_off(
                    old(queue)@.take(gone + len),
                    old(sources)@,
                    now,
                ),
            }
        }),
{
    let ghost all = queue@;
    let ghost before = sources@;
    let ghost mut done: int = 0;
    proof {
        assert(all.skip(0) =~= all);
        assert(all.take(0) =~= Seq::<UringDescriptor>::empty());
        assert(taken_off(all.take(0), before, now) =~= before);
    }
    loop
        invariant
            all == old(queue)@,
            before == old(sources)@,
            0 <= done <= all.len(),
            sources.wf(),
            queue@ == all.skip(done),
            sources@ == taken_off(all.take(done), before, now),
            chains_fit(queue@, ring_size as nat),
            stand_for_requests(all, before),
            stand_for_requests(queue@, sources@),
            cleared(all, before, room as nat) == done + cleared(queue@, before, room as nat),
        decreases queue@.len(),
    {
        let len: usize = match peek_one_chain(queue, ring_size) {
            None => {
                return NextChain::Idle;
            },
            Some(len) => len,
        };
        if room < len {
            return NextChain::NoRoom;
        }
        let ghost rest = queue@;
        let ghost mid = sources@;
        proof {
            lemma_stands_within(rest, mid, len as int);
        }
        let ops: Chain = extract_one_chain(sources, queue, len, now);
        proof {
            assert(all.skip(done).skip(len as int) =~= all.skip(done + len));
            assert(all.take(done + len) =~= all.take(done) + rest.take(len as int));
            lemma_taken_off_joins(all, done, len as int, before, now);
            lemma_stands_after(rest, mid, len as int, now);
        }
        if ops.len() > 0 {
            return NextChain::Ready(ops);
        }
        proof {
            done = done + len;
        }
    }
}

/// How many descriptors leave a queue when chain after chain is taken off, as
/// long as the next one fits in what the ring has left.
pub open spec fn taken_len(queue: Seq<UringDescriptor>, sources: Map<usize, InnerSource>, room: int) -> nat
    decreases queue.len(),
{
    let len = chain_len(queue);
    if queue.len() == 0 || len == 0 || len > queue.len() || room < len {
        0
    } else {
        len + taken_len(
            queue.skip(len as int),
            sources,
            room - kept(queue.take(len as int), sources).len(),
        )
    }
}

/// Takes chain after chain off the queue until it is empty or the next one
/// does not fit in the `room` the ring has left. Returns what is to be
/// submitted, in order.
pub fn next_chains(
    sources: &mut SourceMap,
    queue: &mut VecDeque<UringDescriptor>,
    ring_size: usize,
    room: usize,
    now: Instant,
) -> (ops: Vec<UringDescriptor>)
    requires
        old(sources).wf(),
        chains_fit(old(queue)@, ring_size as nat),
        stand_for_requests(old(queue)@, old(sources)@),
    ensures
        final(sources).wf(),
        chains_fit(final(queue)@, ring_size as nat),
        stand_for_requests(final(queue)@, final(sources)@),
        ops@.len() <= room,
        ({
            let taken = taken_len(old(queue)@, old(sources)@, room as int) as int;
            &&& taken <= old(queue)@.len()
            &&& ops@ == kept(old(queue)@.take(taken), old(sources)@)
            &&& final(queue)@ == old(queue)@.skip(taken)
            &&& final(sources)@ == taken_off(old(queue)@.take(taken), old(sources)@, now)
        }),
{
    let ghost all = queue@;
    let ghost before = sources@;
    let ghost mut done: int = 0;
    let mut ops: Vec<UringDescriptor> = Vec::new();
    proof {
        reveal(Seq::filter);
        assert(all.skip(0) =~= all);
        assert(all.take(0) =~= Seq::<UringDescriptor>::empty());
        assert(kept(all.take(0), before) =~= Seq::<UringDescriptor>::empty());
        assert(taken_off(all.take(0), before, now) =~= before);
    }
    loop
        invariant
            all == old(queue)@,
            before == old(sources)@,
            0 <= done <= all.len(),
            sources.wf(),
            queue@ == all.skip(done),
            sources@ == taken_off(all.take(done), before, now),
            ops@ == kept(all.take(done), before),
            ops@.len() <= room,
            chains_fit(queue@, ring_size as nat),
            stand_for_requests(all, before),
            stand_for_requests(queue@, sources@),
            taken_len(all, before, room as int) == done + taken_len(queue@, before, room - ops@.len()),
        decreases queue@.len(),
    {
        let len: usize = match peek_one_chain(queue, ring_size) {
            None => {
                return ops;
            },
            Some(len) => len,
        };
        if room - ops.len() < len {
            return ops;
        }
        let ghost rest = queue@;
        let ghost mid = sources@;
        proof {
            lemma_stands_within(rest, mid, len as int);
        }
        let chain: Chain = extract_one_chain(sources, queue, len, now);
        proof {
            let run = rest.take(len as int);
            assert(all.skip(done).skip(len as int) =~= all.skip(done + len));
            assert(all.take(done + len) =~= all.take(done) + run);
            lemma_taken_off_joins(all, done, len as int, before, now);
            lemma_stands_after(rest, mid, len as int, now);
            lemma_kept_len(run, before);
            Seq::filter_distributes_over_add(
                all.take(done),
                run,
                |op: UringDescriptor| !is_dropped(op, before),
            );
            done = done + len;
        }
        let mut chain: Vec<UringDescriptor> = chain.into_vec();
        ops.append(&mut chain);
    }
}

proof fn lemma_kept_len(ops: Seq<UringDescriptor>, sources: Map<usize, InnerSource>)
    ensures
        kept(ops, sources).len() <= ops.len(),
    decreases ops.len(),
{
    reveal(Seq::filter);
    if ops.len() > 0 {
        lemma_kept_len(ops.drop_last(), sources);
    }
}

proof fn lemma_stands_within(ops: Seq<UringDescriptor>, sources: Map<usize, InnerSource>, len: int)
    requires
        stand_for_requests(ops, sources),
        0 <= len <= ops.len(),
    ensures
        stand_for_requests(ops.take(len), sources),
{
    let part = ops.take(len);
    assert forall|i: int, j: int|
        0 <= i < part.len() && 0 <= j < part.len() && i != j && (#[trigger] part[i]).user_data > 0 implies part[i].user_data
        != (#[trigger] part[j]).user_data by {
        assert(part[i] == ops[i] && part[j] == ops[j]);
    }
    assert forall|i: int| 0 <= i < part.len() && (#[trigger] part[i]).user_data > 0 implies {
        &&& part[i].user_data <= usize::MAX
        &&& sources.contains_key((part[i].user_data - 1) as usize)
        &&& sources[(part[i].user_data - 1) as usize].enqueued is Some
        &&& !(sources[(part[i].user_data - 1) as usize].enqueued->0.status is Dispatched)
    } by {
        assert(part[i] == ops[i]);
    }
}

/// What is behind a run that was taken off is untouched by it.
proof fn lemma_untouched(
    ops: Seq<UringDescriptor>,
    sources: Map<usize, InnerSource>,
    len: int,
    now: Instant,
    i: int,
)
    requires
        stand_for_requests(ops, sources),
        0 <= len <= i < ops.len(),
        ops[i].user_data > 0,
    ensures
        ({
            let id = (ops[i].user_data - 1) as usize;
            &&& taken_off(ops.take(len), sources, now).contains_key(id)
            &&& taken_off(ops.take(len), sources, now)[id] == sources[id]
        }),
{
    let part = ops.take(len);
    assert forall|j: int| 0 <= j < part.len() implies (#[trigger] part[j]).user_data != ops[i].user_data by {
        assert(part[j] == ops[j]);
        assert(ops[i].user_data > 0);
    }
}

proof fn lemma_stands_after(
    ops: Seq<UringDescriptor>,
    sources: Map<usize, InnerSource>,
    len: int,
    now: Instant,
)
    requires
        stand_for_requests(ops, sources),
        0 <= len <= ops.len(),
    ensures
        stand_for_requests(ops.skip(len), taken_off(ops.take(len), sources, now)),
{
    let rest = ops.skip(len);
    let after = taken_off(ops.take(len), sources, now);
    assert forall|i: int| 0 <= i < rest.len() && (#[trigger] rest[i]).user_data > 0 implies {
        &&& rest[i].user_data <= usize::MAX
        &&& after.contains_key((rest[i].user_data - 1) as usize)
        &&& after[(rest[i].user_data - 1) as usize].enqueued is Some
        &&& !(after[(rest[i].user_data - 1) as usize].enqueued->0.status is Dispatched)
    } by {
        assert(rest[i] == ops[len + i]);
        lemma_untouched(ops, sources, len, now, len + i);
    }
    assert forall|i: int, j: int|
        0 <= i < rest.len() && 0 <= j < rest.len() && i != j && (#[trigger] rest[i]).user_data > 0 implies rest[i].user_data
        != (#[trigger] rest[j]).user_data by {
        assert(rest[i] == ops[len + i] && rest[j] == ops[len + j]);
    }
}

/// Taking two runs off one after the other is taking both off.
proof fn lemma_taken_off_joins(
    all: Seq<UringDescriptor>,
    done: int,
    len: int,
    sources: Map<usize, InnerSource>,
    now: Instant,
)
    requires
        stand_for_requests(all, sources),
        0 <= done <= done + len <= all.len(),
    ensures
        ({
            let mid = taken_off(all.take(done), sources, now);
            let run = all.skip(done).take(len);
            &&& taken_off(run, mid, now) == taken_off(all.take(done + len), sources, now)
            &&& kept(run, mid) == kept(run, sources)
        }),
{
    let first = all.take(done);
    let mid = taken_off(first, sources, now);
    let run = all.skip(done).take(len);
    let both = all.take(done + len);
    assert forall|i: int| 0 <= i < run.len() implies #[trigger] run[i] == all[done + i] && run[i] == both[done + i] by {
    }
    assert forall|i: int| 0 <= i < first.len() implies #[trigger] first[i] == both[i] && first[i] == all[i] by {
    }
    assert forall|i: int| 0 <= i < run.len() implies is_dropped(#[trigger] run[i], mid) == is_dropped(run[i], sources) by {
        if run[i].user_data > 0 {
            lemma_untouched(all, sources, done, now, done + i);
        }
    }
    lemma_filter_agrees(run, mid, sources);
    let after = taken_off(run, mid, now);
    let whole = taken_off(both, sources, now);
    assert forall|id: usize| #[trigger] after.contains_key(id) == whole.contains_key(id) by {
        if whole.contains_key(id) {
            assert forall|i: int| 0 <= i < first.len() implies !((#[trigger] first[i]).user_data == user_data_of(id) && is_dropped(
                first[i],
                sources,
            )) by {
                assert(both[i] == first[i]);
            }
            assert(mid.contains_key(id));
            assert forall|i: int| 0 <= i < run.len() implies !((#[trigger] run[i]).user_data == user_data_of(id) && is_dropped(
                run[i],
                mid,
            )) by {
                assert(both[done + i] == run[i]);
            }
        }
        if after.contains_key(id) {
            assert forall|i: int| 0 <= i < both.len() implies !((#[trigger] both[i]).user_data == user_data_of(id) && is_dropped(
                both[i],
                sources,
            )) by {
                if i < done {
                    assert(first[i] == both[i]);
                } else {
                    assert(run[i - done] == both[i]);
                }
            }
        }
    }
    assert forall|id: usize| #[trigger] after.contains_key(id) implies after[id] == whole[id] by {
        if exists|i: int| 0 <= i < run.len() && (#[trigger] run[i]).user_data == user_data_of(id) {
            let i = choose|i: int| 0 <= i < run.len() && (#[trigger] run[i]).user_data == user_data_of(id);
            assert(both[done + i] == run[i]);
            lemma_untouched(all, sources, done, now, done + i);
        } else if exists|i: int| 0 <= i < first.len() && (#[trigger] first[i]).user_data == user_data_of(id) {
            let i = choose|i: int| 0 <= i < first.len() && (#[trigger] first[i]).user_data == user_data_of(id);
            assert(both[i] == first[i]);
        } else {
            assert forall|i: int| 0 <= i < both.len() implies (#[trigger] both[i]).user_data != user_data_of(id) by {
                if i < done {
                    assert(first[i] == both[i]);
                } else {
                    assert(run[i - done] == both[i]);
                }
            }
        }
    }
    assert(after =~= whole);
}

proof fn lemma_filter_agrees(
    ops: Seq<UringDescriptor>,
    a: Map<usize, InnerSource>,
    b: Map<usize, InnerSource>,
)
    requires
        forall|i: int| 0 <= i < ops.len() ==> is_dropped(#[trigger] ops[i], a) == is_dropped(ops[i], b),
    ensures
        kept(ops, a) == kept(ops, b),
    decreases ops.len(),
{
    reveal(Seq::filter);
    if ops.len() > 0 {
        let shorter = ops.drop_last();
        assert forall|i: int| 0 <= i < shorter.len() implies is_dropped(#[trigger] shorter[i], a) == is_dropped(
            shorter[i],
            b,
        ) by {
            assert(shorter[i] == ops[i]);
        }
        lemma_filter_agrees(shorter, a, b);
        assert(ops.last() == ops[ops.len() - 1]);
    }
}

/// A request that was cancelled while it waited is never handed to the
/// kernel, and is no longer under way once its turn came; every other one is.
pub proof fn law_cancelled_never_goes_out(ops: Seq<UringDescriptor>, sources: Map<usize, InnerSource>, now: Instant)
    ensures
        forall|i: int| 0 <= i < kept(ops, sources).len() ==> !is_dropped(#[trigger] kept(ops, sources)[i], sources),
        forall|i: int|
            0 <= i < ops.len() && (#[trigger] ops[i]).user_data > 0 && ops[i].user_data <= usize::MAX ==> {
                let id = (ops[i].user_data - 1) as usize;
                is_dropped(ops[i], sources) ==> !taken_off(ops, sources, now).contains_key(id)
            },
        forall|i: int| 0 <= i < ops.len() && !is_dropped(#[trigger] ops[i], sources) ==> kept(ops, sources).contains(ops[i]),
{
    broadcast use {vstd::seq_lib::group_seq_properties, vstd::seq_lib::group_filter_ensures};

    let wanted = |op: UringDescriptor| !is_dropped(op, sources);
    assert forall|i: int| 0 <= i < ops.len() && !is_dropped(#[trigger] ops[i], sources) implies kept(ops, sources).contains(
        ops[i],
    ) by {
        assert(wanted(ops[i]));
    }
    assert forall|i: int|
        0 <= i < ops.len() && (#[trigger] ops[i]).user_data > 0 && ops[i].user_data <= usize::MAX implies {
        let id = (ops[i].user_data - 1) as usize;
        is_dropped(ops[i], sources) ==> !taken_off(ops, sources, now).contains_key(id)
    } by {
        let id = (ops[i].user_data - 1) as usize;
        assert(ops[i].user_data == user_data_of(id));
    }
}

/// A row of chains behind another row of chains is a row of chains.
pub proof fn law_chains_stay_whole(a: Seq<UringDescriptor>, b: Seq<UringDescriptor>, ring_size: nat)
    requires
        chains_fit(a, ring_size),
        chains_fit(b, ring_size),
    ensures
        chains_fit(a + b, ring_size),
    decreases a.len(),
{
    if a.len() == 0 {
        assert(a + b =~= b);
    } else {
        let len = chain_len(a) as int;
        let both = a + b;
        lemma_chain_len(a);
        assert(is_chain(both, len)) by {
            assert forall|i: int| 0 <= i < len - 1 implies is_linked((#[trigger] both[i]).flags) by {
                assert(both[i] == a[i]);
            }
            assert(both[len - 1] == a[len - 1]);
        }
        lemma_chain_len_of_chain(both, len);
        law_chains_stay_whole(a.skip(len), b, ring_size);
        assert(both.skip(len) =~= a.skip(len) + b);
    }
}

/// An entry is tied to the next exactly where it has one of the two links,
/// whatever else its flags say.
pub proof fn law_what_ties_entries_together(flags: u8)
    ensures
        is_linked(flags) <==> (flags as int / 4) % 2 == 1 || (flags as int / 8) % 2 == 1,
{
    assert(flags & (4u8 | 8u8) != 0 <==> (flags / 4u8) % 2u8 == 1 || (flags / 8u8) % 2u8 == 1) by (bit_vector);
}

/// What goes out is what was queued, in order and each once, without what
/// nobody wants any more: of a single descriptor nothing goes out where its
/// request was cancelled, and else the descriptor itself; and what goes out of
/// one run and then of another is what goes out of both.
pub proof fn law_what_goes_out(
    op: UringDescriptor,
    a: Seq<UringDescriptor>,
    b: Seq<UringDescriptor>,
    sources: Map<usize, InnerSource>,
)
    ensures
        kept(Seq::empty(), sources) == Seq::<UringDescriptor>::empty(),
        op.user_data == 0 ==> kept(seq![op], sources) == seq![op],
        op.user_data > 0 && !(sources[(op.user_data - 1) as usize].enqueued->0.status is Canceled) ==> kept(
            seq![op],
            sources,
        ) == seq![op],
        op.user_data > 0 && sources[(op.user_data - 1) as usize].enqueued->0.status is Canceled ==> kept(
            seq![op],
            sources,
        ) == Seq::<UringDescriptor>::empty(),
        kept(a + b, sources) == kept(a, sources) + kept(b, sources),
{
    let wanted = |op: UringDescriptor| !is_dropped(op, sources);
    reveal(Seq::filter);
    Seq::filter_distributes_over_add(a, b, wanted);
    assert(kept(Seq::empty(), sources) =~= Seq::<UringDescriptor>::empty());
    let none = seq![op].drop_last();
    assert(none =~= Seq::<UringDescriptor>::empty());
    assert(none.filter(wanted) =~= Seq::<UringDescriptor>::empty());
    if !is_dropped(op, sources) {
        assert(seq![op].filter(wanted) =~= seq![op]);
    } else {
        assert(seq![op].filter(wanted) =~= Seq::<UringDescriptor>::empty());
    }
}

/// What becomes of the requests whose turn came. One that is still wanted is
/// noted as handed to the kernel at that time and is otherwise as it was; one
/// that is not is no longer under way; and a request whose turn did not come
/// is as it was.
pub proof fn law_what_becomes_of_requests(ops: Seq<UringDescriptor>, sources: Map<usize, InnerSource>, now: Instant, id: usize)
    requires
        sources.contains_key(id),
        id < u64::MAX,
    ensures
        ({
            let after = taken_off(ops, sources, now);
            let turn = exists|i: int| 0 <= i < ops.len() && (#[trigger] ops[i]).user_data == user_data_of(id);
            let cancelled = sources[id].enqueued->0.status is Canceled;
            &&& !turn ==> after.contains_key(id) && after[id] == sources[id]
            &&& turn && cancelled ==> !after.contains_key(id)
            &&& turn && !cancelled ==> {
                let gone = after[id];
                &&& after.contains_key(id)
                &&& gone.enqueued matches Some(enqueued) && enqueued.status is Dispatched && enqueued.id
                    == sources[id].enqueued->0.id
                &&& gone.wakers.submitted_at == Some(now)
                &&& gone.wakers.queued_at == sources[id].wakers.queued_at && gone.wakers.waiters
                    == sources[id].wakers.waiters && gone.wakers.result == sources[id].wakers.result
                    && gone.wakers.fulfilled_at == sources[id].wakers.fulfilled_at
                &&& gone.fd == sources[id].fd && gone.source_type == sources[id].source_type && gone.timeout
                    == sources[id].timeout && gone.stats_collection == sources[id].stats_collection && gone.task_queue
                    == sources[id].task_queue
            }
        }),
{
    let after = taken_off(ops, sources, now);
    if exists|i: int| 0 <= i < ops.len() && (#[trigger] ops[i]).user_data == user_data_of(id) {
        let i = choose|i: int| 0 <= i < ops.len() && (#[trigger] ops[i]).user_data == user_data_of(id);
        assert((ops[i].user_data - 1) as usize == id);
        assert forall|j: int| 0 <= j < ops.len() && (#[trigger] ops[j]).user_data == user_data_of(id) implies (is_dropped(
            ops[j],
            sources,
        ) <==> sources[id].enqueued->0.status is Canceled) by {
            assert((ops[j].user_data - 1) as usize == id);
        }
    }
}

/// As much goes out as fits, and no more: what is taken off a queue takes up
/// no more room than there is, and stops only at the queue's end or before a
/// chain that is longer than the room that is left.
pub proof fn law_as_much_goes_out_as_fits(
    queue: Seq<UringDescriptor>,
    sources: Map<usize, InnerSource>,
    room: int,
    ring_size: nat,
)
    requires
        chains_fit(queue, ring_size),
        room >= 0,
    ensures
        ({
            let taken = taken_len(queue, sources, room) as int;
            let used = kept(queue.take(taken), sources).len();
            &&& taken <= queue.len()
            &&& used <= room
            &&& taken < queue.len() ==> room - used < chain_len(queue.skip(taken))
            &&& chains_fit(queue.skip(taken), ring_size)
        }),
    decreases queue.len(),
{
    reveal(Seq::filter);
    let len = chain_len(queue) as int;
    let taken = taken_len(queue, sources, room) as int;
    if queue.len() == 0 || room < len {
        assert(queue.take(0) =~= Seq::<UringDescriptor>::empty());
        assert(kept(queue.take(0), sources) =~= Seq::<UringDescriptor>::empty());
        assert(queue.skip(0) =~= queue);
        if queue.len() > 0 {
            assert(len > 0);
        }
    } else {
        let front = queue.take(len);
        let rest = queue.skip(len);
        lemma_kept_len(front, sources);
        let left = room - kept(front, sources).len();
        law_as_much_goes_out_as_fits(rest, sources, left, ring_size);
        let more = taken_len(rest, sources, left) as int;
        assert(taken == len + more);
        assert(queue.take(taken) =~= front + rest.take(more));
        law_what_goes_out(arbitrary(), front, rest.take(more), sources);
        assert(queue.skip(taken) =~= rest.skip(more));
    }
}

/// Chains that nobody wants any more are passed over, and only those.
pub proof fn law_only_the_unwanted_is_passed_over(
    queue: Seq<UringDescriptor>,
    sources: Map<usize, InnerSource>,
    room: nat,
    ring_size: nat,
)
    requires
        chains_fit(queue, ring_size),
    ensures
        ({
            let gone = cleared(queue, sources, room) as int;
            let rest = queue.skip(gone);
            &&& gone <= queue.len()
            &&& kept(queue.take(gone), sources).len() == 0
            &&& rest.len() > 0 ==> room < chain_len(rest) || kept(rest.take(chain_len(rest) as int), sources).len() > 0
        }),
    decreases queue.len(),
{
    reveal(Seq::filter);
    let len = chain_len(queue) as int;
    let gone = cleared(queue, sources, room) as int;
    if gone == 0 {
        assert(queue.take(0) =~= Seq::<UringDescriptor>::empty());
        assert(kept(queue.take(0), sources) =~= Seq::<UringDescriptor>::empty());
        assert(queue.skip(0) =~= queue);
    } else {
        let front = queue.take(len);
        let rest = queue.skip(len);
        law_only_the_unwanted_is_passed_over(rest, sources, room, ring_size);
        let more = cleared(rest, sources, room) as int;
        assert(queue.take(gone) =~= front + rest.take(more));
        law_what_goes_out(arbitrary(), front, rest.take(more), sources);
        assert(queue.skip(gone) =~= rest.skip(more));
    }
}

} // verus!
