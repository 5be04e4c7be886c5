//! The wheel itself.

use super::level::{earlier, Level};
use super::overflow::Parked;
use super::mask::slots_ahead;
use super::placing::{finest_from, finest_level, sunk};
use super::policy::{
    layout_reach, lemma_covers_within_reach, level_fits, tiles, CoarseQuery, Overflow, Policy,
};
use super::ticks::{countable, stored_tick, tick_for};
use crate::timer::slab::{SlotIndex, TimerId, TimerSlab};
use crate::timer::time::Instant;
use core::marker::PhantomData;
use vstd::prelude::*;

mod advance;
mod entries;
pub mod laws;
pub mod query;

verus! {

/// A handle to an entry of a wheel.
pub type Key = TimerId;

/// Where an entry currently sits, so that cancelling it goes straight there.
#[derive(Debug, Clone, Copy, PartialEq, Eq, Structural)]
pub enum Position {
    /// In a wheel slot, waiting for its level to come round.
    Slot {
        /// The level.
        level: usize,
        /// The slot of that level.
        slot: usize,
        /// The place in that slot.
        index: usize,
    },
    /// Due, and waiting to be drained.
    Expired {
        /// The place in the list of what is due.
        index: usize,
    },
    /// Too far out for the wheel; parked under its deadline.
    Overflow {
        /// The deadline, in nanoseconds.
        key: u128,
        /// The place among what is parked under it.
        index: usize,
    },
    /// Constructed but not yet given a place. Exists so "nowhere yet" is a
    /// value rather than an index that happens to be out of bounds.
    Unplaced,
}

/// What the slab holds for one timer.
pub struct Entry<T> {
    expires_at: Instant,
    payload: T,
    at: Position,
}

/// A hierarchical timing wheel with stable handles.
///
/// Entries live in a slab and the slots hold indices into it, so cascading
/// moves four-byte indices rather than whole entries, and a handle stays valid
/// for an entry's entire life however many times it moves between slots.
pub struct TimingWheel<T, P: Policy> {
    current_tick: u64,
    start: Instant,
    /// The instant last handed to [`TimingWheel::advance_to`].
    ///
    /// `start + current_tick` is only accurate to a whole tick, and a bound
    /// can legitimately fall between that and the caller's real time. Sleeping
    /// on such an answer wakes immediately and asks the same question again, so
    /// the wheel keeps what it was actually told.
    advanced_to: Instant,
    slab: TimerSlab<Entry<T>>,
    expired: Vec<SlotIndex>,
    levels: Vec<Level>,
    overflow: Parked,
    reach: u64,
    /// Ticks actually stepped through. The point of the masks is that this
    /// stays unrelated to elapsed time, which is only assertable by counting.
    ticks_processed: u64,
    policy: PhantomData<P>,
}

/// One entry of a wheel as its owner sees it.
pub ghost struct Held<T> {
    /// When it is due.
    pub deadline: Instant,
    /// What it carries.
    pub payload: T,
}

/// `list` without one occurrence of `item`, its place taken by the last.
pub open spec fn swap_removed<A>(list: Seq<A>, shorter: Seq<A>, item: A) -> bool {
    exists|i: int|
        0 <= i < list.len() && #[trigger] list[i] == item && shorter == list.update(i, list.last()).drop_last()
}

/// A tick of a level's window: not yet passed when the cursor is at `base`,
/// and at most one revolution ahead of it.
spec fn in_window(span: nat, count: nat, base: int, tick: int, slot: int) -> bool {
    &&& base / (span as int) < tick / (span as int) <= base / (span as int) + count
    &&& tick < base + span * count
    &&& slot == (tick / (span as int)) % (count as int)
}

/// A tick at least one span ahead and less than a revolution ahead is in the
/// window.
proof fn lemma_lands_in_window(span: nat, count: nat, cursor: int, tick: int)
    requires
        span >= 1,
        count >= 1,
        cursor >= 0,
        span <= tick - cursor < span * count,
    ensures
        in_window(span, count, cursor, tick, (tick / (span as int)) % (count as int)),
{
    let d = span as int;
    vstd::arithmetic::div_mod::lemma_hoist_over_denominator(cursor, 1, span);
    vstd::arithmetic::div_mod::lemma_hoist_over_denominator(cursor, count as int, span);
    vstd::arithmetic::div_mod::lemma_div_is_ordered(cursor + d, tick, d);
    assert(count * d == span * count) by (nonlinear_arith)
        requires
            d == span,
    ;
    vstd::arithmetic::div_mod::lemma_div_is_ordered(tick, cursor + count * d, d);
}

/// Two ticks of one window in the same slot are in the same span.
proof fn lemma_one_span_per_slot(base: int, count: int, a: int, b: int)
    requires
        count >= 1,
        base < a <= base + count,
        base < b <= base + count,
        a % count == b % count,
    ensures
        a == b,
{
    vstd::arithmetic::div_mod::lemma_fundamental_div_mod(a, count);
    vstd::arithmetic::div_mod::lemma_fundamental_div_mod(b, count);
    let (qa, qb) = (a / count, b / count);
    assert(a - b == count * (qa - qb)) by (nonlinear_arith)
        requires
            a == count * qa + a % count,
            b == count * qb + b % count,
            a % count == b % count,
    ;
    assert(qa == qb) by (nonlinear_arith)
        requires
            a - b == count * (qa - qb),
            -count < a - b < count,
            count >= 1,
    ;
}

/// Counted in slots, a span less than a revolution ahead is as far ahead as it
/// is in spans.
proof fn lemma_slots_ahead(from: int, to: int, count: int)
    requires
        count >= 1,
        0 <= from <= to < from + count,
    ensures
        slots_ahead(from % count, to % count, count) == to - from,
        (from % count + (to - from)) % count == to % count,
{
    vstd::arithmetic::div_mod::lemma_fundamental_div_mod(from, count);
    vstd::arithmetic::div_mod::lemma_mod_bound(from, count);
    let q = from / count;
    let r = from % count;
    let k = to - from;
    assert(from == q * count + r) by (nonlinear_arith)
        requires
            from == count * q + r,
    ;
    if r + k < count {
        vstd::arithmetic::div_mod::lemma_fundamental_div_mod_converse(to, count, q, r + k);
        vstd::arithmetic::div_mod::lemma_small_mod((r + k) as nat, count as nat);
    } else {
        assert(to == (q + 1) * count + (r + k - count)) by (nonlinear_arith)
            requires
                from == q * count + r,
                k == to - from,
        ;
        vstd::arithmetic::div_mod::lemma_fundamental_div_mod_converse(to, count, q + 1, r + k - count);
        vstd::arithmetic::div_mod::lemma_fundamental_div_mod_converse(r + k, count, 1, r + k - count);
    }
}

/// What is left of a list of entries from its `i`-th on.
spec fn pending(moving: Seq<SlotIndex>, i: int) -> Set<SlotIndex> {
    Set::new(|slot: SlotIndex| exists|j: int| i <= j < moving.len() && moving[j] == slot)
}

/// Dealing with one entry leaves the ones behind it.
proof fn lemma_pending_step(moving: Seq<SlotIndex>, i: int)
    requires
        moving.no_duplicates(),
        0 <= i < moving.len(),
    ensures
        pending(moving, i).contains(moving[i]),
        pending(moving, i).remove(moving[i]) == pending(moving, i + 1),
{
    assert forall|slot: SlotIndex| pending(moving, i).remove(moving[i]).contains(slot) == pending(
        moving,
        i + 1,
    ).contains(slot) by {
        if pending(moving, i).contains(slot) && slot != moving[i] {
            let j = choose|j: int| i <= j < moving.len() && moving[j] == slot;
            assert(i + 1 <= j);
        }
    }
    assert(pending(moving, i).remove(moving[i]) =~= pending(moving, i + 1));
}

/// Past the last entry nothing is left.
proof fn lemma_pending_done(moving: Seq<SlotIndex>)
    ensures
        pending(moving, moving.len() as int) == Set::<SlotIndex>::empty(),
{
    assert(pending(moving, moving.len() as int) =~= Set::<SlotIndex>::empty());
}

/// What is filed under a position, or nothing.
impl<T, P: Policy> TimingWheel<T, P> {
    /// The entry sitting at a position.
    spec fn occupant(&self, at: Position) -> Option<SlotIndex> {
        match at {
            Position::Slot { level, slot, index } => if level < self.levels@.len() && slot
                < self.levels@[level as int].count() && index < self.levels@[level as int].bucket(
                slot as int,
            ).len() {
                Some(self.levels@[level as int].bucket(slot as int)[index as int])
            } else {
                None
            },
            Position::Expired { index } => if index < self.expired@.len() {
                Some(self.expired@[index as int])
            } else {
                None
            },
            Position::Overflow { key, index } => if index < self.overflow.bucket(key).len() {
                Some(self.overflow.bucket(key)[index as int])
            } else {
                None
            },
            Position::Unplaced => None,
        }
    }

    spec fn at_of(&self, slot: SlotIndex) -> Position {
        self.slab.value_at(slot).at
    }

    spec fn deadline_of(&self, slot: SlotIndex) -> Instant {
        self.slab.value_at(slot).expires_at
    }

    spec fn tick_of(&self, slot: SlotIndex) -> int {
        stored_tick(self.start, self.deadline_of(slot), P::ROUNDING)
    }

    /// The tick level `level` was last brought up to. While a tick is being
    /// processed the levels from `lag` on are still where the tick before left
    /// them.
    spec fn base(&self, level: int, lag: int) -> int {
        if level < lag {
            self.current_tick as int
        } else {
            self.current_tick - 1
        }
    }

    /// An entry sits where its deadline says it belongs.
    spec fn placed_right(&self, slot: SlotIndex, lag: int) -> bool {
        match self.at_of(slot) {
            Position::Slot { level, slot: ring, index } => in_window(
                self.levels@[level as int].span(),
                self.levels@[level as int].count(),
                self.base(level as int, lag),
                self.tick_of(slot),
                ring as int,
            ),
            Position::Expired { .. } => self.tick_of(slot) <= self.current_tick || self.deadline_of(
                slot,
            ).nanos <= self.advanced_to.nanos,
            Position::Overflow { key, .. } => key == self.deadline_of(slot).nanos,
            Position::Unplaced => false,
        }
    }

    /// `minimum` is the earliest deadline in a slot.
    spec fn is_minimum(&self, bucket: Seq<SlotIndex>, minimum: Instant) -> bool {
        &&& exists|i: int| 0 <= i < bucket.len() && self.deadline_of(#[trigger] bucket[i]) == minimum
        &&& forall|i: int| 0 <= i < bucket.len() ==> minimum.nanos <= self.deadline_of(#[trigger] bucket[i]).nanos
    }

    /// Every minimum a level knows is the earliest deadline of its slot.
    spec fn minima_hold(&self) -> bool {
        forall|level: int, slot: int|
            0 <= level < self.levels@.len() && 0 <= slot < self.levels@[level].count() && (
            #[trigger] self.levels@[level].known(slot)) is Some ==> self.is_minimum(
                self.levels@[level].bucket(slot),
                self.levels@[level].known(slot)->0,
            )
    }

    /// Every live entry outside `flight` is where it says it is, and nothing
    /// else is filed anywhere.
    spec fn filed(&self, flight: Set<SlotIndex>, lag: int) -> bool {
        &&& forall|slot: SlotIndex| #[trigger] flight.contains(slot) ==> self.slab.holds(slot)
        &&& forall|slot: SlotIndex| #[trigger]
            self.slab.holds(slot) && !flight.contains(slot) ==> self.occupant(self.at_of(slot)) == Some(slot)
                && self.placed_right(slot, lag)
        &&& forall|at: Position| (#[trigger] self.occupant(at)) matches Some(slot) ==> {
            &&& self.slab.holds(slot)
            &&& !flight.contains(slot)
            &&& self.at_of(slot) == at
        }
    }

    /// The levels are the ones the policy asks for, and every count fits the
    /// machine.
    spec fn shaped(&self) -> bool {
        &&& tiles(P::slots_model(), P::resolution_model())
        &&& self.levels@.len() == P::slots_model().len()
        &&& forall|level: int|
            #![trigger self.level_shaped(level)]
            #![trigger self.levels@[level]]
            0 <= level < self.levels@.len() ==> self.level_shaped(level)
        &&& self.reach == layout_reach(P::slots_model(), P::resolution_model())
        &&& self.current_tick + self.reach <= u64::MAX
        &&& self.ticks_processed <= self.current_tick
        &&& countable(self.start)
        &&& self.start.nanos + self.current_tick * 1_000_000 <= self.advanced_to.nanos
        &&& self.overflow.wf()
        &&& self.slab.wf()
    }

    spec fn level_shaped(&self, level: int) -> bool {
        &&& self.levels@[level].wf()
        &&& self.levels@[level].count() == P::slots_model()[level]
        &&& self.levels@[level].span() == P::resolution_model()[level]
        &&& self.levels@[level].keeps_minima() == (level == 0 || P::COARSE_QUERY
            == CoarseQuery::ExactMinimum)
    }

    /// The tick a parking deadline is stored at.
    spec fn key_tick(&self, key: u128) -> int {
        stored_tick(self.start, Instant { nanos: key }, P::ROUNDING)
    }

    /// Everything parked is beyond the wheel's reach.
    spec fn parked_is_far(&self) -> bool {
        forall|key: u128|
            (#[trigger] self.overflow.bucket(key)).len() > 0 ==> self.key_tick(key) >= self.current_tick
                + self.reach
    }

    /// The wheel between two calls: everything live is filed where its
    /// deadline says it belongs.
    pub closed spec fn wf(&self) -> bool {
        &&& self.shaped()
        &&& self.filed(Set::empty(), self.levels@.len() as int)
        &&& self.minima_hold()
        &&& self.parked_is_far()
        &&& self.up_to_date()
    }

    /// The cursor is at the tick that the time last told falls in.
    spec fn up_to_date(&self) -> bool {
        self.advanced_to.nanos < self.start.nanos + (self.current_tick + 1) * 1_000_000
    }

    /// The instant the wheel counts from.
    pub closed spec fn spec_start(&self) -> Instant {
        self.start
    }

    /// How many whole ticks have passed.
    pub closed spec fn spec_tick(&self) -> nat {
        self.current_tick as nat
    }

    /// The latest instant the wheel was told of.
    pub closed spec fn spec_advanced(&self) -> Instant {
        self.advanced_to
    }

    /// Everything held, due or not, under its handle.
    pub closed spec fn entries(&self) -> Map<Key, Held<T>> {
        Map::new(
            |key: Key| self.slab@.contains_key(key),
            |key: Key| Held { deadline: self.slab@[key].expires_at, payload: self.slab@[key].payload },
        )
    }

    /// What has come due and was not yet taken, in the order it will be.
    pub closed spec fn due(&self) -> Seq<Key> {
        Seq::new(self.expired@.len(), |i: int| self.slab.id_of(self.expired@[i]))
    }

    /// The level whose slots hold an entry. `None` for one that is due, parked
    /// or not held.
    pub closed spec fn level_of(&self, key: Key) -> Option<int> {
        if self.slab@.contains_key(key) {
            self.slot_level(key.spec_slot())
        } else {
            None
        }
    }

    spec fn slot_level(&self, slot: SlotIndex) -> Option<int> {
        match self.at_of(slot) {
            Position::Slot { level, .. } => Some(level as int),
            _ => None,
        }
    }

    /// The finest level that covers `ahead` ticks.
    pub open spec fn finest(ahead: int) -> int {
        finest_level(P::slots_model(), P::resolution_model(), ahead)
    }

    /// The level an entry stored at `tick` has moved down to from `level` when
    /// the cursor is at `cursor`.
    pub open spec fn sinks(level: int, tick: int, cursor: int) -> int {
        sunk(P::slots_model(), P::resolution_model(), level, tick, cursor)
    }

    /// The level an entry with this deadline goes to: the finest one that
    /// covers it, and none where it is due already or beyond the wheel's
    /// reach.
    pub open spec fn level_for(&self, deadline: Instant) -> Option<int> {
        let ahead = self.tick_at(deadline) - self.spec_tick();
        if 0 < ahead < Self::spec_reach() {
            Some(Self::finest(ahead))
        } else {
            None
        }
    }

    /// Whether the wheel ever handed out this handle.
    pub closed spec fn issued(&self, key: Key) -> bool {
        self.slab.issued(key)
    }

    /// How many ticks the wheel has stepped through.
    pub closed spec fn spec_ticks_processed(&self) -> nat {
        self.ticks_processed as nat
    }

    /// How many entries are held.
    pub closed spec fn spec_len(&self) -> nat {
        self.slab.spec_len()
    }

    /// How many entries were ever registered.
    pub closed spec fn insertions(&self) -> nat {
        self.slab.insertions()
    }

    /// The storage the next entry takes has an identity left to give.
    pub closed spec fn next_position_usable(&self) -> bool {
        self.slab.next_position_usable()
    }

    /// Another entry can be stored: at most `u32::MAX` are held, and the
    /// storage to be reused has not used up its identities, which takes more
    /// insertions than a `u64` counts.
    pub open spec fn has_room(&self) -> bool {
        ||| self.spec_len() <= u32::MAX && self.insertions() < u64::MAX
        ||| self.next_position_usable()
    }

    /// How many ticks ahead the wheel's slots reach.
    pub open spec fn spec_reach() -> nat {
        layout_reach(P::slots_model(), P::resolution_model())
    }

    /// The tick a deadline is stored at.
    pub open spec fn tick_at(&self, deadline: Instant) -> int {
        stored_tick(self.spec_start(), deadline, P::ROUNDING)
    }

    /// A deadline is beyond the wheel's furthest slot and the policy refuses
    /// those.
    pub open spec fn refuses(&self, deadline: Instant) -> bool {
        P::OVERFLOW == Overflow::Reject && self.tick_at(deadline) - self.spec_tick() >= Self::spec_reach()
    }

    /// The wheel's clock has not moved.
    pub open spec fn same_time(&self, before: &Self) -> bool {
        &&& self.spec_start() == before.spec_start()
        &&& self.spec_tick() == before.spec_tick()
        &&& self.spec_advanced() == before.spec_advanced()
        &&& self.spec_ticks_processed() == before.spec_ticks_processed()
    }

    /// Time, shape and entries are untouched; only where entries sit may
    /// differ.
    spec fn refiled(&self, before: &Self) -> bool {
        &&& self.current_tick == before.current_tick
        &&& self.same_but_time(before)
    }

    spec fn same_but_time(&self, before: &Self) -> bool {
        &&& self.start == before.start
        &&& self.advanced_to == before.advanced_to
        &&& self.reach == before.reach
        &&& self.levels@.len() == before.levels@.len()
        &&& self.slab.spec_len() == before.slab.spec_len()
        &&& self.slab.insertions() == before.slab.insertions()
        &&& self.slab.positions() == before.slab.positions()
        &&& self.slab.next_position_usable() == before.slab.next_position_usable()
        &&& forall|id: TimerId| #[trigger] self.slab.issued(id) == before.slab.issued(id)
        &&& forall|slot: SlotIndex| #[trigger] self.slab.holds(slot) == before.slab.holds(slot)
        &&& forall|slot: SlotIndex| #[trigger]
            self.slab.holds(slot) ==> {
                &&& self.slab.id_of(slot) == before.slab.id_of(slot)
                &&& self.slab.value_at(slot).expires_at == before.slab.value_at(slot).expires_at
                &&& self.slab.value_at(slot).payload == before.slab.value_at(slot).payload
            }
    }

    /// Corrects where an entry says it sits.
    fn record(&mut self, key: Key, at: Position)
        requires
            old(self).slab.wf(),
            old(self).slab@.contains_key(key),
        ensures
            final(self).slab.wf(),
            final(self).refiled(old(self)),
            final(self).ticks_processed == old(self).ticks_processed,
            final(self).levels == old(self).levels,
            final(self).expired == old(self).expired,
            final(self).overflow == old(self).overflow,
            final(self).at_of(key.spec_slot()) == at,
            forall|slot: SlotIndex|
                slot != key.spec_slot() && #[trigger] old(self).slab.holds(slot) ==> final(self).slab.value_at(slot)
                    == old(self).slab.value_at(slot),
    {
        proof {
            self.slab.lemma_handles();
        }
        if let Some(entry) = self.slab.get_mut(key) {
            entry.at = at;
        }
    }

    /// A position in the wheel names a level and a slot that exist.
    proof fn lemma_in_bounds(&self, slot: SlotIndex, lag: int)
        requires
            self.shaped(),
            self.filed(Set::empty(), lag),
            self.slab.holds(slot),
        ensures
            self.at_of(slot) matches Position::Slot { level, slot: ring, index } ==> {
                &&& level < self.levels@.len()
                &&& ring < self.levels@[level as int].count()
                &&& index < self.levels@[level as int].bucket(ring as int).len()
                &&& self.levels@[level as int].bucket(ring as int)[index as int] == slot
            },
    {
        assert(self.occupant(self.at_of(slot)) == Some(slot));
    }

    /// The list of what is due names each handle once, and exactly those whose
    /// entry sits there.
    proof fn lemma_due_list(&self)
        requires
            self.wf(),
        ensures
            self.due().no_duplicates(),
            self.due().len() == self.expired@.len(),
            forall|key: Key| #[trigger]
                self.due().contains(key) <==> self.slab@.contains_key(key) && self.at_of(key.spec_slot()) is Expired,
    {
        let lag = self.levels@.len() as int;
        self.slab.lemma_handles();
        assert forall|i: int| 0 <= i < self.expired@.len() implies {
            &&& self.slab.holds(#[trigger] self.expired@[i])
            &&& self.at_of(self.expired@[i]) == (Position::Expired { index: i as usize })
            &&& i <= usize::MAX
            &&& self.due()[i] == self.slab.id_of(self.expired@[i])
            &&& self.due()[i].spec_slot() == self.expired@[i]
        } by {
            self.lemma_expired_entry(Set::empty(), lag, i);
        }
        assert forall|i: int, j: int|
            0 <= i < self.due().len() && 0 <= j < self.due().len() && i != j implies self.due()[i]
            != self.due()[j] by {
            assert(self.due()[i].spec_slot() == self.expired@[i]);
            assert(self.due()[j].spec_slot() == self.expired@[j]);
        }
        assert forall|key: Key| #[trigger]
            self.due().contains(key) <==> self.slab@.contains_key(key) && self.at_of(key.spec_slot()) is Expired by {
            if self.due().contains(key) {
                let i = choose|i: int| 0 <= i < self.due().len() && self.due()[i] == key;
                assert(self.due()[i].spec_slot() == self.expired@[i]);
            }
            if self.slab@.contains_key(key) && self.at_of(key.spec_slot()) is Expired {
                let slot = key.spec_slot();
                assert(self.occupant(self.at_of(slot)) == Some(slot));
                let i = self.at_of(slot)->Expired_index as int;
                assert(self.expired@[i] == slot);
                assert(self.due()[i] == key);
            }
        }
    }

    /// What sits in a slot is stored past the cursor.
    proof fn lemma_after_cursor(&self, slot: SlotIndex)
        requires
            self.shaped(),
            self.filed(Set::empty(), self.levels@.len() as int),
            self.slab.holds(slot),
            self.at_of(slot) is Slot,
        ensures
            self.current_tick < self.tick_of(slot) < self.current_tick + self.reach,
    {
        let lag = self.levels@.len() as int;
        self.lemma_in_bounds(slot, lag);
        assert(self.placed_right(slot, lag));
        if let Position::Slot { level, .. } = self.at_of(slot) {
            self.lemma_level_covers(level as int);
            let span = self.levels@[level as int].span() as int;
            if self.tick_of(slot) <= self.current_tick {
                vstd::arithmetic::div_mod::lemma_div_is_ordered(
                    self.tick_of(slot),
                    self.current_tick as int,
                    span,
                );
            }
        }
    }

    /// What a slot holds is live and knows where it sits.
    proof fn lemma_bucket_entry(&self, flight: Set<SlotIndex>, lag: int, level: int, ring: int, i: int)
        requires
            self.shaped(),
            self.filed(flight, lag),
            0 <= level < self.levels@.len(),
            0 <= ring < self.levels@[level].count(),
            0 <= i < self.levels@[level].bucket(ring).len(),
        ensures
            self.slab.holds(self.levels@[level].bucket(ring)[i]),
            !flight.contains(self.levels@[level].bucket(ring)[i]),
            self.at_of(self.levels@[level].bucket(ring)[i]) == (Position::Slot {
                level: level as usize,
                slot: ring as usize,
                index: i as usize,
            }),
            i <= usize::MAX,
    {
        assert(self.level_shaped(level));
        assert(self.levels.len() == self.levels@.len());
        self.levels@[level].lemma_shape();
        self.levels@[level].lemma_bucket_fits(ring);
        let at = Position::Slot { level: level as usize, slot: ring as usize, index: i as usize };
        assert(self.occupant(at) == Some(self.levels@[level].bucket(ring)[i]));
    }

    /// What is parked is live and knows where it sits.
    proof fn lemma_parked_entry(&self, flight: Set<SlotIndex>, lag: int, key: u128, i: int)
        requires
            self.filed(flight, lag),
            0 <= i < self.overflow.bucket(key).len(),
        ensures
            self.slab.holds(self.overflow.bucket(key)[i]),
            !flight.contains(self.overflow.bucket(key)[i]),
            self.at_of(self.overflow.bucket(key)[i]) == (Position::Overflow { key, index: i as usize }),
            i <= usize::MAX,
    {
        self.overflow.lemma_bucket_fits(key);
        let at = Position::Overflow { key, index: i as usize };
        assert(self.occupant(at) == Some(self.overflow.bucket(key)[i]));
    }

    /// What is due is live and knows where it sits.
    proof fn lemma_expired_entry(&self, flight: Set<SlotIndex>, lag: int, i: int)
        requires
            self.filed(flight, lag),
            0 <= i < self.expired@.len(),
        ensures
            self.slab.holds(self.expired@[i]),
            !flight.contains(self.expired@[i]),
            self.at_of(self.expired@[i]) == (Position::Expired { index: i as usize }),
            i <= usize::MAX,
    {
        assert(self.expired.len() == self.expired@.len());
        let at = Position::Expired { index: i as usize };
        assert(self.occupant(at) == Some(self.expired@[i]));
    }

    /// Filing an entry in a free position takes it out of flight.
    proof fn lemma_attach(
        &self,
        before: &Self,
        slot: SlotIndex,
        at: Position,
        flight: Set<SlotIndex>,
        lag: int,
    )
        requires
            before.filed(flight, lag),
            flight.contains(slot),
            self.refiled(before),
            forall|other: SlotIndex|
                other != slot && #[trigger] before.slab.holds(other) ==> self.slab.value_at(other)
                    == before.slab.value_at(other),
            self.at_of(slot) == at,
            before.occupant(at) is None,
            self.occupant(at) == Some(slot),
            forall|other: Position|
                other != at ==> #[trigger] self.occupant(other) == before.occupant(other),
            self.same_levels(before),
            self.placed_right(slot, lag),
        ensures
            self.filed(flight.remove(slot), lag),
    {
        let rest = flight.remove(slot);
        assert forall|other: SlotIndex| #[trigger]
            self.slab.holds(other) && !rest.contains(other) implies self.occupant(self.at_of(other)) == Some(other)
            && self.placed_right(other, lag) by {
            if other != slot {
                assert(before.slab.holds(other));
                assert(before.occupant(before.at_of(other)) == Some(other));
                assert(before.placed_right(other, lag));
            }
        }
        assert forall|place: Position| (#[trigger] self.occupant(place)) is Some implies ({
            let found = self.occupant(place)->0;
            &&& self.slab.holds(found)
            &&& !rest.contains(found)
            &&& self.at_of(found) == place
        }) by {
            if place != at {
                assert(before.occupant(place) == self.occupant(place));
            }
        }
    }

    spec fn same_levels(&self, before: &Self) -> bool {
        &&& self.levels@.len() == before.levels@.len()
        &&& forall|level: int|
            0 <= level < before.levels@.len() ==> (#[trigger] self.levels@[level]).same_shape(
                &before.levels@[level],
            )
    }

    /// Minima survive where their slot is unchanged.
    proof fn lemma_minima_kept(&self, before: &Self, flight: Set<SlotIndex>, lag: int)
        requires
            before.shaped(),
            before.filed(flight, lag),
            before.minima_hold(),
            self.same_but_time(before),
            self.same_levels(before),
            forall|level: int, ring: int|
                #![trigger self.levels@[level].known(ring)]
                0 <= level < self.levels@.len() && 0 <= ring < self.levels@[level].count()
                    && self.levels@[level].known(ring) is Some ==> {
                    &&& self.levels@[level].known(ring) == before.levels@[level].known(ring)
                    &&& self.levels@[level].bucket(ring) == before.levels@[level].bucket(ring)
                },
        ensures
            self.minima_hold(),
    {
        assert forall|level: int, ring: int|
            0 <= level < self.levels@.len() && 0 <= ring < self.levels@[level].count() && (
            #[trigger] self.levels@[level].known(ring)) is Some implies self.is_minimum(
            self.levels@[level].bucket(ring),
            self.levels@[level].known(ring)->0,
        ) by {
            self.lemma_minimum_kept(before, flight, lag, level, ring, self.levels@[level].known(ring)->0);
        }
    }

    /// An earliest deadline stays the earliest while nobody's deadline moves.
    proof fn lemma_minimum_kept(
        &self,
        before: &Self,
        flight: Set<SlotIndex>,
        lag: int,
        level: int,
        ring: int,
        minimum: Instant,
    )
        requires
            before.shaped(),
            before.filed(flight, lag),
            self.same_but_time(before),
            0 <= level < before.levels@.len(),
            0 <= ring < before.levels@[level].count(),
            before.is_minimum(before.levels@[level].bucket(ring), minimum),
        ensures
            self.is_minimum(before.levels@[level].bucket(ring), minimum),
    {
        let bucket = before.levels@[level].bucket(ring);
        assert forall|i: int| 0 <= i < bucket.len() implies self.deadline_of(#[trigger] bucket[i])
            == before.deadline_of(bucket[i]) by {
            before.lemma_bucket_entry(flight, lag, level, ring, i);
            assert(self.slab.holds(bucket[i]));
        }
        let i = choose|i: int| 0 <= i < bucket.len() && before.deadline_of(#[trigger] bucket[i]) == minimum;
        assert(self.deadline_of(bucket[i]) == minimum);
    }

    /// Puts an entry on the list of what is due.
    fn mark_expired(&mut self, key: Key, Ghost(flight): Ghost<Set<SlotIndex>>, Ghost(lag): Ghost<int>)
        requires
            old(self).shaped(),
            old(self).filed(flight, lag),
            old(self).minima_hold(),
            old(self).slab@.contains_key(key),
            flight.contains(key.spec_slot()),
            old(self).tick_of(key.spec_slot()) <= old(self).current_tick || old(self).deadline_of(
                key.spec_slot(),
            ).nanos <= old(self).advanced_to.nanos,
        ensures
            final(self).shaped(),
            final(self).filed(flight.remove(key.spec_slot()), lag),
            final(self).minima_hold(),
            final(self).refiled(old(self)),
            final(self).ticks_processed == old(self).ticks_processed,
            final(self).levels == old(self).levels,
            final(self).overflow == old(self).overflow,
            final(self).expired@ == old(self).expired@.push(key.spec_slot()),
            final(self).at_of(key.spec_slot()) is Expired,
            final(self).others_stay(old(self), key.spec_slot()),
    {
        let index: usize = self.expired.len();
        self.expired.push(key.slot());
        let at = Position::Expired { index };
        self.record(key, at);
        proof {
            self.slab.lemma_handles();
            assert(self.slab.holds(key.spec_slot()));
            self.lemma_attach(old(self), key.spec_slot(), at, flight, lag);
            self.lemma_minima_kept(old(self), flight, lag);
            self.lemma_shaped_kept(old(self));
        }
    }

    /// Everything but one entry sits where it sat.
    spec fn others_stay(&self, before: &Self, slot: SlotIndex) -> bool {
        forall|other: SlotIndex|
            other != slot && #[trigger] before.slab.holds(other) ==> self.at_of(other) == before.at_of(other)
    }

    proof fn lemma_shaped_kept(&self, before: &Self)
        requires
            before.shaped(),
            self.refiled(before),
            self.same_levels(before),
            self.ticks_processed == before.ticks_processed,
            forall|level: int| 0 <= level < self.levels@.len() ==> (#[trigger] self.levels@[level]).wf(),
            self.overflow.wf(),
            self.slab.wf(),
        ensures
            self.shaped(),
    {
        assert forall|level: int| 0 <= level < self.levels@.len() implies self.level_shaped(level) by {
            assert(before.level_shaped(level));
        }
    }

    /// Adds an entry to a slot of a level.
    fn file_in_slot(
        &mut self,
        key: Key,
        level: usize,
        ring: usize,
        Ghost(flight): Ghost<Set<SlotIndex>>,
        Ghost(lag): Ghost<int>,
    )
        requires
            old(self).shaped(),
            old(self).filed(flight, lag),
            old(self).minima_hold(),
            old(self).slab@.contains_key(key),
            flight.contains(key.spec_slot()),
            level < old(self).levels@.len(),
            ring < old(self).levels@[level as int].count(),
            in_window(
                old(self).levels@[level as int].span(),
                old(self).levels@[level as int].count(),
                old(self).base(level as int, lag),
                old(self).tick_of(key.spec_slot()),
                ring as int,
            ),
        ensures
            final(self).shaped(),
            final(self).filed(flight.remove(key.spec_slot()), lag),
            final(self).minima_hold(),
            final(self).refiled(old(self)),
            final(self).ticks_processed == old(self).ticks_processed,
            final(self).same_levels(old(self)),
            final(self).overflow == old(self).overflow,
            final(self).expired == old(self).expired,
            forall|other: int|
                0 <= other < old(self).levels@.len() && other != level ==> #[trigger] final(self).levels@[other]
                    == old(self).levels@[other],
            final(self).levels@[level as int].bucket(ring as int) == old(self).levels@[level as int].bucket(
                ring as int,
            ).push(key.spec_slot()),
            old(self).levels@[level as int].known(ring as int) is None ==> final(self).levels@[level as int].known(
                ring as int,
            ) is None,
            final(self).at_of(key.spec_slot()) == (Position::Slot {
                level,
                slot: ring,
                index: old(self).levels@[level as int].bucket(ring as int).len() as usize,
            }),
            final(self).others_stay(old(self), key.spec_slot()),
    {
        let ghost slot = key.spec_slot();
        proof {
            self.slab.lemma_handles();
        }
        let expires_at: Instant = match self.slab.get(key) {
            Some(entry) => entry.expires_at,
            None => self.start,
        };
        let index: usize = level_push(&mut self.levels, level, ring, key.slot(), expires_at);
        let at = Position::Slot { level, slot: ring, index };
        self.record(key, at);
        proof {
            let l = level as int;
            let r = ring as int;
            self.slab.lemma_handles();
            assert(self.slab.holds(slot));
            assert(self.same_levels(old(self)));
            assert(old(self).level_shaped(l));
            assert forall|other: Position| other != at implies #[trigger] self.occupant(other) == old(
                self,
            ).occupant(other) by {
                if let Position::Slot { level: l2, slot: r2, index: i2 } = other {
                    if l2 < self.levels@.len() && r2 < self.levels@[l2 as int].count() {
                        if l2 == level && r2 != ring {
                            assert(self.levels@[l].bucket(r2 as int) == old(self).levels@[l].bucket(r2 as int));
                        }
                    }
                }
            }
            self.lemma_attach(old(self), slot, at, flight, lag);
            assert forall|l2: int, r2: int|
                0 <= l2 < self.levels@.len() && 0 <= r2 < self.levels@[l2].count() && (
                #[trigger] self.levels@[l2].known(r2)) is Some implies self.is_minimum(
                self.levels@[l2].bucket(r2),
                self.levels@[l2].known(r2)->0,
            ) by {
                if l2 == l && r2 == r {
                    let m = old(self).levels@[l].known(r)->0;
                    assert(old(self).is_minimum(old(self).levels@[l].bucket(r), m));
                    self.lemma_minimum_kept(old(self), flight, lag, l, r, m);
                    self.lemma_minimum_pushed(old(self).levels@[l].bucket(r), m, slot);
                } else {
                    if l2 == l {
                        assert(self.levels@[l].known(r2) == old(self).levels@[l].known(r2));
                        assert(self.levels@[l].bucket(r2) == old(self).levels@[l].bucket(r2));
                    }
                    self.lemma_minimum_kept(old(self), flight, lag, l2, r2, old(self).levels@[l2].known(r2)->0);
                }
            }
            self.lemma_shaped_kept(old(self));
        }
    }

    /// One more entry leaves the earlier of its deadline and the minimum.
    proof fn lemma_minimum_pushed(&self, bucket: Seq<SlotIndex>, minimum: Instant, slot: SlotIndex)
        requires
            self.is_minimum(bucket, minimum),
        ensures
            self.is_minimum(bucket.push(slot), earlier(minimum, self.deadline_of(slot))),
    {
        let longer = bucket.push(slot);
        let i = choose|i: int| 0 <= i < bucket.len() && self.deadline_of(#[trigger] bucket[i]) == minimum;
        assert(self.deadline_of(longer[i]) == minimum);
        assert(longer[bucket.len() as int] == slot);
        assert forall|j: int| 0 <= j < longer.len() implies earlier(minimum, self.deadline_of(slot)).nanos
            <= self.deadline_of(#[trigger] longer[j]).nanos by {
            if j < bucket.len() {
                assert(longer[j] == bucket[j]);
            }
        }
    }

    /// Parks an entry beyond the wheel's reach.
    fn park(&mut self, key: Key, Ghost(flight): Ghost<Set<SlotIndex>>, Ghost(lag): Ghost<int>)
        requires
            old(self).shaped(),
            old(self).filed(flight, lag),
            old(self).minima_hold(),
            old(self).slab@.contains_key(key),
            flight.contains(key.spec_slot()),
        ensures
            final(self).shaped(),
            final(self).filed(flight.remove(key.spec_slot()), lag),
            final(self).minima_hold(),
            final(self).refiled(old(self)),
            final(self).ticks_processed == old(self).ticks_processed,
            final(self).levels == old(self).levels,
            final(self).expired == old(self).expired,
            final(self).at_of(key.spec_slot()) is Overflow,
            final(self).others_stay(old(self), key.spec_slot()),
            forall|other: u128|
                other != old(self).deadline_of(key.spec_slot()).nanos ==> #[trigger] final(self).overflow.bucket(
                    other,
                ) == old(self).overflow.bucket(other),
    {
        let ghost slot = key.spec_slot();
        proof {
            self.slab.lemma_handles();
        }
        let expires_at: Instant = match self.slab.get(key) {
            Some(entry) => entry.expires_at,
            None => self.start,
        };
        let index: usize = self.overflow.push(expires_at.nanos, key.slot());
        let at = Position::Overflow { key: expires_at.nanos, index };
        self.record(key, at);
        proof {
            self.slab.lemma_handles();
            assert(self.slab.holds(slot));
            assert forall|other: Position| other != at implies #[trigger] self.occupant(other) == old(
                self,
            ).occupant(other) by {
                if let Position::Overflow { key: k2, index: i2 } = other {
                    if k2 != expires_at.nanos {
                        assert(self.overflow.bucket(k2) == old(self).overflow.bucket(k2));
                    }
                }
            }
            self.lemma_attach(old(self), slot, at, flight, lag);
            self.lemma_minima_kept(old(self), flight, lag);
            self.lemma_shaped_kept(old(self));
        }
    }

    /// One slot of a level spans what the level below covers, and none covers
    /// more than the wheel reaches.
    proof fn lemma_level_covers(&self, level: int)
        requires
            self.shaped(),
            0 <= level < self.levels@.len(),
        ensures
            self.levels@[level].wf(),
            self.levels@[level].count() >= 1,
            1 <= self.levels@[level].span() <= self.levels@[level].span() * self.levels@[level].count()
                <= self.reach,
            level == 0 ==> self.levels@[level].span() == 1,
            level > 0 ==> self.levels@[level].span() == self.levels@[level - 1].span() * self.levels@[level
                - 1].count(),
            level == self.levels@.len() - 1 ==> self.levels@[level].span() * self.levels@[level].count()
                == self.reach,
    {
        let slots = P::slots_model();
        let resolution = P::resolution_model();
        lemma_covers_within_reach(slots, resolution, level);
        assert(level_fits(slots, resolution, level));
        assert(self.level_shaped(level));
        if level > 0 {
            assert(self.level_shaped(level - 1));
        }
    }

    /// What became of an entry that was just given a place.
    spec fn settled(&self, before: &Self, slot: SlotIndex) -> bool {
        let tick = before.tick_of(slot);
        let cursor = before.current_tick as int;
        if tick <= cursor {
            &&& self.at_of(slot) is Expired
            &&& self.expired@ == before.expired@.push(slot)
            &&& self.overflow == before.overflow
        } else if tick - cursor >= before.reach {
            &&& self.at_of(slot) is Overflow
            &&& self.expired@ == before.expired@
            &&& forall|other: u128|
                other != before.deadline_of(slot).nanos ==> #[trigger] self.overflow.bucket(other)
                    == before.overflow.bucket(other)
        } else {
            &&& self.slot_level(slot) == Some(Self::finest(tick - cursor))
            &&& self.expired@ == before.expired@
            &&& self.overflow == before.overflow
        }
    }

    /// Places an entry whose tick the caller has already worked out.
    fn place_at(
        &mut self,
        key: Key,
        deadline: Option<u64>,
        Ghost(flight): Ghost<Set<SlotIndex>>,
        Ghost(lag): Ghost<int>,
    )
        requires
            old(self).shaped(),
            old(self).filed(flight, lag),
            old(self).minima_hold(),
            old(self).slab@.contains_key(key),
            flight.contains(key.spec_slot()),
            deadline is None ==> old(self).tick_of(key.spec_slot()) == 0,
            deadline matches Some(tick) ==> tick == old(self).tick_of(key.spec_slot()),
            0 <= lag <= old(self).levels@.len(),
            lag < old(self).levels@.len() ==> lag > 0 && old(self).tick_of(key.spec_slot()) < old(
                self,
            ).current_tick + old(self).levels@[lag].span(),
        ensures
            final(self).shaped(),
            final(self).filed(flight.remove(key.spec_slot()), lag),
            final(self).minima_hold(),
            final(self).refiled(old(self)),
            final(self).ticks_processed == old(self).ticks_processed,
            final(self).same_levels(old(self)),
            final(self).others_stay(old(self), key.spec_slot()),
            final(self).settled(old(self), key.spec_slot()),
            forall|level: int|
                lag <= level < old(self).levels@.len() ==> #[trigger] final(self).levels@[level] == old(
                    self,
                ).levels@[level],
    {
        let ghost slot = key.spec_slot();
        let tick: u64 = match deadline {
            None => {
                self.mark_expired(key, Ghost(flight), Ghost(lag));
                return;
            },
            Some(tick) => tick,
        };
        if tick <= self.current_tick {
            self.mark_expired(key, Ghost(flight), Ghost(lag));
            return;
        }
        let remaining: u64 = tick - self.current_tick;
        if remaining >= self.reach {
            self.park(key, Ghost(flight), Ghost(lag));
            return;
        }
        // The finest level whose reach still covers the deadline.

        let mut level: usize = 0;
        proof {
            self.lemma_level_covers(0);
        }
        loop
            invariant
                *self == *old(self),
                self.shaped(),
                level < self.levels@.len(),
                0 < remaining < self.reach,
                self.levels@[level as int].span() <= remaining,
                0 <= lag <= self.levels@.len(),
                lag < self.levels@.len() ==> lag > 0 && remaining < self.levels@[lag].span(),
                level < lag,
                finest_from(P::slots_model(), P::resolution_model(), level as int, remaining as int) == Self::finest(
                    remaining as int,
                ),
            ensures
                level == Self::finest(remaining as int),
                level < self.levels@.len(),
                level < lag,
                self.levels@[level as int].span() <= remaining < self.levels@[level as int].span()
                    * self.levels@[level as int].count(),
            decreases self.levels@.len() - level,
        {
            proof {
                self.lemma_level_covers(level as int);
                if level + 1 < self.levels@.len() {
                    self.lemma_level_covers(level + 1);
                }
            }
            if remaining < self.levels[level].coverage() {
                break ;
            }
            assert(level + 1 < self.levels.len());
            level = level + 1;
        }
        proof {
            self.lemma_level_covers(level as int);
            lemma_lands_in_window(
                self.levels@[level as int].span(),
                self.levels@[level as int].count(),
                self.current_tick as int,
                tick as int,
            );
        }
        let ring: usize = self.levels[level].slot_for(tick);
        self.file_in_slot(key, level, ring, Ghost(flight), Ghost(lag));
    }

    /// Puts an already-stored entry wherever its deadline says it belongs, and
    /// records where that was.
    fn place(&mut self, key: Key, Ghost(flight): Ghost<Set<SlotIndex>>, Ghost(lag): Ghost<int>)
        requires
            old(self).shaped(),
            old(self).filed(flight, lag),
            old(self).minima_hold(),
            old(self).slab@.contains_key(key),
            flight.contains(key.spec_slot()),
            0 <= lag <= old(self).levels@.len(),
            lag < old(self).levels@.len() ==> lag > 0 && old(self).tick_of(key.spec_slot()) < old(
                self,
            ).current_tick + old(self).levels@[lag].span(),
        ensures
            final(self).shaped(),
            final(self).filed(flight.remove(key.spec_slot()), lag),
            final(self).minima_hold(),
            final(self).refiled(old(self)),
            final(self).ticks_processed == old(self).ticks_processed,
            final(self).same_levels(old(self)),
            final(self).others_stay(old(self), key.spec_slot()),
            final(self).settled(old(self), key.spec_slot()),
            forall|level: int|
                lag <= level < old(self).levels@.len() ==> #[trigger] final(self).levels@[level] == old(
                    self,
                ).levels@[level],
    {
        proof {
            self.slab.lemma_handles();
        }
        let expires_at: Instant = match self.slab.get(key) {
            Some(entry) => entry.expires_at,
            None => self.start,
        };
        let deadline: Option<u64> = tick_for(self.start, expires_at, P::ROUNDING);
        self.place_at(key, deadline, Ghost(flight), Ghost(lag));
    }

    /// Recording a slot's minimum moves nothing.
    proof fn lemma_minimum_set(&self, before: &Self, level: int, ring: int, minimum: Option<Instant>)
        requires
            before.shaped(),
            before.filed(Set::empty(), before.levels@.len() as int),
            before.minima_hold(),
            0 <= level < before.levels@.len(),
            0 <= ring < before.levels@[level].count(),
            minimum matches Some(m) ==> before.is_minimum(before.levels@[level].bucket(ring), m),
            self.current_tick == before.current_tick,
            self.ticks_processed == before.ticks_processed,
            self.start == before.start,
            self.advanced_to == before.advanced_to,
            self.slab == before.slab,
            self.expired == before.expired,
            self.overflow == before.overflow,
            self.reach == before.reach,
            self.levels@.len() == before.levels@.len(),
            self.same_levels(before),
            forall|l: int| 0 <= l < before.levels@.len() ==> (#[trigger] self.levels@[l]).wf(),
            forall|l: int|
                0 <= l < before.levels@.len() && l != level ==> #[trigger] self.levels@[l] == before.levels@[l],
            forall|r: int| #[trigger] self.levels@[level].bucket(r) == before.levels@[level].bucket(r),
            forall|r: int|
                0 <= r < before.levels@[level].count() ==> (#[trigger] self.levels@[level].known(r)
                    == before.levels@[level].known(r) || r == ring && self.levels@[level].known(r) == minimum),
        ensures
            self.shaped(),
            self.filed(Set::empty(), self.levels@.len() as int),
            self.minima_hold(),
            self.progressed(before, -1),
            self.refiled(before),
    {
        let lag = before.levels@.len() as int;
        assert(self.refiled(before));
        self.lemma_shaped_kept(before);
        assert forall|at: Position| #[trigger] self.occupant(at) == before.occupant(at) by {
            if let Position::Slot { level: l2, slot: r2, .. } = at {
                if l2 == level {
                    assert(self.levels@[level].bucket(r2 as int) == before.levels@[level].bucket(r2 as int));
                }
            }
        }
        assert forall|slot: SlotIndex| #[trigger]
            self.slab.holds(slot) && !Set::<SlotIndex>::empty().contains(slot) implies self.occupant(self.at_of(slot))
            == Some(slot) && self.placed_right(slot, lag) by {
            assert(before.placed_right(slot, lag));
            assert(before.occupant(before.at_of(slot)) == Some(slot));
            before.lemma_in_bounds(slot, lag);
        }
        assert forall|l: int, r: int|
            0 <= l < self.levels@.len() && 0 <= r < self.levels@[l].count() && (#[trigger] self.levels@[l].known(r)) is Some implies self.is_minimum(
            self.levels@[l].bucket(r),
            self.levels@[l].known(r)->0,
        ) by {
            let m = self.levels@[l].known(r)->0;
            if l == level {
                assert(self.levels@[level].bucket(r) == before.levels@[level].bucket(r));
                if self.levels@[l].known(r) == before.levels@[l].known(r) {
                    self.lemma_minimum_kept(before, Set::empty(), lag, l, r, m);
                } else {
                    self.lemma_minimum_kept(before, Set::empty(), lag, l, r, m);
                }
            } else {
                self.lemma_minimum_kept(before, Set::empty(), lag, l, r, m);
            }
        }
    }

    /// Time has moved on from `before`, and all that happened to its entries
    /// is that some came due: by their tick, or by a deadline up to `limit`.
    spec fn progressed(&self, before: &Self, limit: int) -> bool {
        &&& self.same_but_time(before)
        &&& self.same_levels(before)
        &&& before.current_tick <= self.current_tick
        &&& before.expired@.len() <= self.expired@.len()
        &&& forall|i: int| 0 <= i < before.expired@.len() ==> #[trigger] self.expired@[i] == before.expired@[i]
        &&& forall|i: int|
            before.expired@.len() <= i < self.expired@.len() ==> self.due_by(#[trigger] self.expired@[i], limit)
    }

    /// An entry's tick has been reached, or its deadline is at or before
    /// `limit`.
    spec fn due_by(&self, slot: SlotIndex, limit: int) -> bool {
        &&& self.slab.holds(slot)
        &&& self.tick_of(slot) <= self.current_tick || self.deadline_of(slot).nanos <= limit
    }

    /// Takes everything a slot holds, to be filed again.
    fn take_slot(&mut self, level: usize, ring: usize, Ghost(lag): Ghost<int>) -> (moving: Vec<SlotIndex>)
        requires
            old(self).shaped(),
            old(self).filed(Set::empty(), lag),
            old(self).minima_hold(),
            level < old(self).levels@.len(),
            ring < old(self).levels@[level as int].count(),
        ensures
            final(self).shaped(),
            final(self).filed(pending(moving@, 0), lag),
            final(self).minima_hold(),
            final(self).refiled(old(self)),
            final(self).ticks_processed == old(self).ticks_processed,
            final(self).same_levels(old(self)),
            final(self).slab == old(self).slab,
            final(self).expired == old(self).expired,
            final(self).overflow == old(self).overflow,
            moving@ == old(self).levels@[level as int].bucket(ring as int),
            moving@.no_duplicates(),
            final(self).levels@[level as int].bucket(ring as int).len() == 0,
            final(self).levels@[level as int].known(ring as int) is None,
            forall|i: int|
                0 <= i < moving@.len() ==> {
                    &&& old(self).slab.holds(#[trigger] moving@[i])
                    &&& old(self).at_of(moving@[i]) == (Position::Slot {
                        level,
                        slot: ring,
                        index: i as usize,
                    })
                    &&& old(self).placed_right(moving@[i], lag)
                },
    {
        proof {
            assert(self.level_shaped(level as int));
            self.levels@[level as int].lemma_bucket_fits(ring as int);
        }
        let moving: Vec<SlotIndex> = level_take(&mut self.levels, level, ring);
        proof {
            let l = level as int;
            let r = ring as int;
            assert forall|i: int| 0 <= i < moving@.len() implies {
                &&& old(self).slab.holds(#[trigger] moving@[i])
                &&& old(self).at_of(moving@[i]) == (Position::Slot { level, slot: ring, index: i as usize })
                &&& old(self).placed_right(moving@[i], lag)
            } by {
                old(self).lemma_bucket_entry(Set::empty(), lag, l, r, i);
            }
            assert forall|at: Position| #[trigger] self.occupant(at) == (match at {
                Position::Slot { level: l2, slot: r2, .. } => if l2 == level && r2 == ring {
                    None
                } else {
                    old(self).occupant(at)
                },
                _ => old(self).occupant(at),
            }) by {
                if let Position::Slot { level: l2, slot: r2, index: i2 } = at {
                    if l2 == level && r2 != ring && r2 < self.levels@[l].count() {
                        assert(self.levels@[l].bucket(r2 as int) == old(self).levels@[l].bucket(r2 as int));
                    }
                }
            }
            let flight = pending(moving@, 0);
            assert forall|slot: SlotIndex| #[trigger]
                self.slab.holds(slot) && !flight.contains(slot) implies self.occupant(self.at_of(slot)) == Some(slot)
                && self.placed_right(slot, lag) by {
                assert(old(self).occupant(old(self).at_of(slot)) == Some(slot));
                assert(old(self).placed_right(slot, lag));
                if let Position::Slot { level: l2, slot: r2, index: i2 } = self.at_of(slot) {
                    if l2 == level && r2 == ring {
                        assert(moving@[i2 as int] == slot);
                    }
                }
            }
            assert forall|at: Position| (#[trigger] self.occupant(at)) is Some implies ({
                let slot = self.occupant(at)->0;
                &&& self.slab.holds(slot)
                &&& !flight.contains(slot)
                &&& self.at_of(slot) == at
            }) by {
                assert(old(self).occupant(at) == self.occupant(at));
            }
            assert forall|level2: int, ring2: int|
                #![trigger self.levels@[level2].known(ring2)]
                0 <= level2 < self.levels@.len() && 0 <= ring2 < self.levels@[level2].count()
                    && self.levels@[level2].known(ring2) is Some implies {
                &&& self.levels@[level2].known(ring2) == old(self).levels@[level2].known(ring2)
                &&& self.levels@[level2].bucket(ring2) == old(self).levels@[level2].bucket(ring2)
            } by {
                if level2 == l && ring2 != r {
                    assert(self.levels@[l].bucket(ring2) == old(self).levels@[l].bucket(ring2));
                }
            }
            self.lemma_minima_kept(old(self), Set::empty(), lag);
            self.lemma_shaped_kept(old(self));
        }
        moving
    }

    /// Takes everything parked under one deadline, to be filed again.
    fn take_parked(&mut self, key: u128) -> (moving: Vec<SlotIndex>)
        requires
            old(self).shaped(),
            old(self).filed(Set::empty(), old(self).levels@.len() as int),
            old(self).minima_hold(),
        ensures
            final(self).shaped(),
            final(self).filed(pending(moving@, 0), final(self).levels@.len() as int),
            final(self).minima_hold(),
            final(self).refiled(old(self)),
            final(self).ticks_processed == old(self).ticks_processed,
            final(self).slab == old(self).slab,
            final(self).levels == old(self).levels,
            final(self).expired == old(self).expired,
            moving@ == old(self).overflow.bucket(key),
            moving@.no_duplicates(),
            final(self).overflow.bucket(key).len() == 0,
            forall|other: u128|
                other != key ==> #[trigger] final(self).overflow.bucket(other) == old(self).overflow.bucket(other),
            forall|i: int|
                0 <= i < moving@.len() ==> {
                    &&& old(self).slab.holds(#[trigger] moving@[i])
                    &&& old(self).deadline_of(moving@[i]).nanos == key
                },
    {
        let ghost lag = self.levels@.len() as int;
        let moving: Vec<SlotIndex> = self.overflow.take(key);
        proof {
            assert forall|i: int| 0 <= i < moving@.len() implies {
                &&& old(self).slab.holds(#[trigger] moving@[i])
                &&& old(self).deadline_of(moving@[i]).nanos == key
                &&& old(self).at_of(moving@[i]) == (Position::Overflow { key, index: i as usize })
                &&& i <= usize::MAX
            } by {
                old(self).lemma_parked_entry(Set::empty(), lag, key, i);
                assert(old(self).placed_right(moving@[i], lag));
            }
            assert forall|at: Position| #[trigger] self.occupant(at) == (match at {
                Position::Overflow { key: k2, .. } => if k2 == key {
                    None
                } else {
                    old(self).occupant(at)
                },
                _ => old(self).occupant(at),
            }) by {
                if let Position::Overflow { key: k2, index: i2 } = at {
                    if k2 != key {
                        assert(self.overflow.bucket(k2) == old(self).overflow.bucket(k2));
                    }
                }
            }
            let flight = pending(moving@, 0);
            assert forall|slot: SlotIndex| #[trigger]
                self.slab.holds(slot) && !flight.contains(slot) implies self.occupant(self.at_of(slot)) == Some(slot)
                && self.placed_right(slot, lag) by {
                assert(old(self).occupant(old(self).at_of(slot)) == Some(slot));
                assert(old(self).placed_right(slot, lag));
                if let Position::Overflow { key: k2, index: i2 } = self.at_of(slot) {
                    if k2 == key {
                        assert(moving@[i2 as int] == slot);
                    }
                }
            }
            assert forall|at: Position| (#[trigger] self.occupant(at)) is Some implies ({
                let slot = self.occupant(at)->0;
                &&& self.slab.holds(slot)
                &&& !flight.contains(slot)
                &&& self.at_of(slot) == at
            }) by {
                assert(old(self).occupant(at) == self.occupant(at));
            }
            self.lemma_minima_kept(old(self), Set::empty(), lag);
            self.lemma_shaped_kept(old(self));
        }
        moving
    }
}

fn level_swap_remove(levels: &mut Vec<Level>, level: usize, ring: usize, index: usize) -> (moved: Option<
    SlotIndex,
>)
    requires
        level < old(levels)@.len(),
        old(levels)@[level as int].wf(),
        ring < old(levels)@[level as int].count(),
        index < old(levels)@[level as int].bucket(ring as int).len(),
    ensures
        final(levels)@.len() == old(levels)@.len(),
        forall|other: int|
            0 <= other < old(levels)@.len() && other != level ==> #[trigger] final(levels)@[other] == old(
                levels,
            )@[other],
        final(levels)@[level as int].wf(),
        final(levels)@[level as int].same_shape(&old(levels)@[level as int]),
        final(levels)@[level as int].bucket(ring as int) == old(levels)@[level as int].bucket(
            ring as int,
        ).update(index as int, old(levels)@[level as int].bucket(ring as int).last()).drop_last(),
        moved == if index < old(levels)@[level as int].bucket(ring as int).len() - 1 {
            Some(old(levels)@[level as int].bucket(ring as int).last())
        } else {
            None
        },
        forall|s: int|
            0 <= s < old(levels)@[level as int].count() && s != ring ==> #[trigger] final(levels)@[level as int].bucket(
                s,
            ) == old(levels)@[level as int].bucket(s),
        forall|s: int|
            0 <= s < old(levels)@[level as int].count() && s != ring ==> #[trigger] final(levels)@[level as int].known(
                s,
            ) == old(levels)@[level as int].known(s),
        final(levels)@[level as int].known(ring as int) == if old(levels)@[level as int].bucket(
            ring as int,
        ).len() == 1 {
            None
        } else {
            old(levels)@[level as int].known(ring as int)
        },
{
    levels[level].swap_remove(ring, index)
}

fn level_set_minimum(levels: &mut Vec<Level>, level: usize, ring: usize, minimum: Option<Instant>)
    requires
        level < old(levels)@.len(),
        old(levels)@[level as int].wf(),
        ring < old(levels)@[level as int].count(),
        minimum is Some ==> old(levels)@[level as int].bucket(ring as int).len() > 0,
    ensures
        final(levels)@.len() == old(levels)@.len(),
        forall|other: int|
            0 <= other < old(levels)@.len() && other != level ==> #[trigger] final(levels)@[other] == old(
                levels,
            )@[other],
        final(levels)@[level as int].wf(),
        final(levels)@[level as int].same_shape(&old(levels)@[level as int]),
        forall|s: int| #[trigger]
            final(levels)@[level as int].bucket(s) == old(levels)@[level as int].bucket(s),
        forall|s: int|
            0 <= s < old(levels)@[level as int].count() ==> #[trigger] final(levels)@[level as int].known(s)
                == if s == ring && old(levels)@[level as int].keeps_minima() {
                minimum
            } else {
                old(levels)@[level as int].known(s)
            },
{
    levels[level].set_minimum(ring, minimum)
}

fn level_take(levels: &mut Vec<Level>, level: usize, ring: usize) -> (bucket: Vec<SlotIndex>)
    requires
        level < old(levels)@.len(),
        old(levels)@[level as int].wf(),
        ring < old(levels)@[level as int].count(),
    ensures
        final(levels)@.len() == old(levels)@.len(),
        forall|other: int|
            0 <= other < old(levels)@.len() && other != level ==> #[trigger] final(levels)@[other] == old(
                levels,
            )@[other],
        final(levels)@[level as int].wf(),
        final(levels)@[level as int].same_shape(&old(levels)@[level as int]),
        bucket@ == old(levels)@[level as int].bucket(ring as int),
        final(levels)@[level as int].bucket(ring as int).len() == 0,
        final(levels)@[level as int].known(ring as int) is None,
        forall|s: int|
            0 <= s < old(levels)@[level as int].count() && s != ring ==> #[trigger] final(levels)@[level as int].bucket(
                s,
            ) == old(levels)@[level as int].bucket(s),
        forall|s: int|
            0 <= s < old(levels)@[level as int].count() && s != ring ==> #[trigger] final(levels)@[level as int].known(
                s,
            ) == old(levels)@[level as int].known(s),
{
    levels[level].take(ring)
}

fn level_push(
    levels: &mut Vec<Level>,
    level: usize,
    ring: usize,
    entry: SlotIndex,
    expires_at: Instant,
) -> (index: usize)
    requires
        level < old(levels)@.len(),
        old(levels)@[level as int].wf(),
        ring < old(levels)@[level as int].count(),
    ensures
        final(levels)@.len() == old(levels)@.len(),
        forall|other: int|
            0 <= other < old(levels)@.len() && other != level ==> #[trigger] final(levels)@[other] == old(
                levels,
            )@[other],
        final(levels)@[level as int].wf(),
        final(levels)@[level as int].same_shape(&old(levels)@[level as int]),
        index == old(levels)@[level as int].bucket(ring as int).len(),
        final(levels)@[level as int].bucket(ring as int) == old(levels)@[level as int].bucket(ring as int).push(
            entry,
        ),
        forall|s: int|
            0 <= s < old(levels)@[level as int].count() && s != ring ==> #[trigger] final(levels)@[level as int].bucket(
                s,
            ) == old(levels)@[level as int].bucket(s),
        forall|s: int|
            0 <= s < old(levels)@[level as int].count() && s != ring ==> #[trigger] final(levels)@[level as int].known(
                s,
            ) == old(levels)@[level as int].known(s),
        final(levels)@[level as int].known(ring as int) == match old(levels)@[level as int].known(ring as int) {
            Some(current) => Some(earlier(current, expires_at)),
            None => None,
        },
{
    levels[level].push(ring, entry, expires_at)
}

} // verus!
