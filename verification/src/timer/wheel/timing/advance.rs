//! Moving time forward.

use super::{
    in_window, lemma_one_span_per_slot, lemma_slots_ahead, lemma_pending_done, lemma_pending_step, level_set_minimum, pending, Key,
    Position, TimingWheel,
};
use crate::timer::slab::{SlotIndex, TimerId};
use crate::timer::time::Instant;
use crate::timer::wheel::level::min_instant;
use crate::timer::wheel::placing::{lemma_finer, lemma_finest, lemma_sunk_chains};
use crate::timer::wheel::policy::{covers, Policy};
use crate::timer::wheel::ticks::{
    elapsed_ticks, lemma_rounding_adds_at_most_one, lemma_ticks_monotone, stored_tick, tick_for,
    tick_start, whole_ticks,
};
use vstd::prelude::*;

verus! {

/// A cursor moves into a new span exactly at the span's boundaries.
proof fn lemma_span_boundary(tick: int, span: int)
    requires
        tick >= 1,
        span >= 1,
    ensures
        (tick - 1) / span == if tick % span == 0 {
            tick / span - 1
        } else {
            tick / span
        },
        tick % span == 0 ==> tick == (tick / span) * span,
{
    vstd::arithmetic::div_mod::lemma_fundamental_div_mod(tick, span);
    vstd::arithmetic::div_mod::lemma_mod_bound(tick, span);
    let q = tick / span;
    let r = tick % span;
    assert(tick == q * span + r) by (nonlinear_arith)
        requires
            tick == span * q + r,
    ;
    if r == 0 {
        assert(tick - 1 == (q - 1) * span + (span - 1)) by (nonlinear_arith)
            requires
                tick == q * span,
        ;
        vstd::arithmetic::div_mod::lemma_fundamental_div_mod_converse(tick - 1, span, q - 1, span - 1);
    } else {
        vstd::arithmetic::div_mod::lemma_fundamental_div_mod_converse(tick - 1, span, q, r - 1);
    }
}

/// A tick short of a span's end is still in that span.
proof fn lemma_within_span(cursor: int, span: int, tick: int)
    requires
        span >= 1,
        cursor >= 0,
        cursor <= tick < (cursor / span + 1) * span,
    ensures
        tick / span == cursor / span,
        cursor < (cursor / span + 1) * span <= cursor + span,
{
    vstd::arithmetic::div_mod::lemma_fundamental_div_mod(cursor, span);
    vstd::arithmetic::div_mod::lemma_mod_bound(cursor, span);
    let q = cursor / span;
    assert((q + 1) * span == q * span + span) by (nonlinear_arith);
    assert(span * q == q * span) by (nonlinear_arith);
    vstd::arithmetic::div_mod::lemma_fundamental_div_mod_converse(tick, span, q, tick - q * span);
}

impl<T, P: Policy> TimingWheel<T, P> {
    /// While the cursor stands still, an entry leaves its slot only when the
    /// cursor has just reached the span it is in, and then goes to the finest
    /// level that covers what is left; one that was parked may come within
    /// reach; and nothing due or filed becomes parked.
    spec fn shifted(&self, before: &Self) -> bool {
        forall|slot: SlotIndex| #[trigger]
            self.slab.holds(slot) ==> match self.at_of(slot) {
                Position::Slot { level, .. } => match before.at_of(slot) {
                    Position::Slot { level: was, .. } => was == level || self.lands(slot, was as int, level as int),
                    Position::Overflow { .. } => {
                        &&& 0 < self.tick_of(slot) - self.current_tick < self.reach
                        &&& level == Self::finest(self.tick_of(slot) - self.current_tick)
                    },
                    _ => false,
                },
                Position::Overflow { .. } => before.at_of(slot) is Overflow,
                _ => true,
            }
    }

    /// The cursor is at the first tick of the span of level `was` that an
    /// entry is in, and `level` covers what is left of it.
    spec fn lands(&self, slot: SlotIndex, was: int, level: int) -> bool {
        let span = P::resolution_model()[was] as int;
        &&& 0 < was < P::slots_model().len()
        &&& self.tick_of(slot) / span == self.current_tick as int / span
        &&& self.tick_of(slot) - self.current_tick == self.tick_of(slot) % span
        &&& 0 < self.tick_of(slot) - self.current_tick
        &&& level == Self::finest(self.tick_of(slot) - self.current_tick)
    }

    /// Every entry is where the passing of time has moved it to.
    spec fn sank(&self, before: &Self) -> bool {
        forall|slot: SlotIndex| #[trigger]
            self.slab.holds(slot) ==> match self.at_of(slot) {
                Position::Slot { level, .. } => match before.at_of(slot) {
                    Position::Slot { level: was, .. } => level == Self::sinks(
                        was as int,
                        self.tick_of(slot),
                        self.current_tick as int,
                    ),
                    Position::Overflow { .. } => exists|at: int|
                        before.current_tick <= at <= self.current_tick && #[trigger] self.reclaimed(slot, at, level as int),
                    _ => false,
                },
                Position::Overflow { .. } => before.at_of(slot) is Overflow,
                _ => true,
            }
    }

    /// An entry came within reach when the cursor was at `at`, and has moved
    /// down to `level` since.
    spec fn reclaimed(&self, slot: SlotIndex, at: int, level: int) -> bool {
        let tick = self.tick_of(slot);
        &&& 0 < tick - at < self.reach
        &&& level == Self::sinks(Self::finest(tick - at), tick, self.current_tick as int)
    }

    proof fn lemma_shifts_chain(&self, middle: &Self, before: &Self)
        requires
            self.shaped(),
            self.shifted(middle),
            middle.shifted(before),
            self.refiled(middle),
            self.same_levels(middle),
        ensures
            self.shifted(before),
    {
        let slots = P::slots_model();
        let resolution = P::resolution_model();
        assert forall|slot: SlotIndex| #[trigger] self.slab.holds(slot) implies match self.at_of(slot) {
            Position::Slot { level, .. } => match before.at_of(slot) {
                Position::Slot { level: was, .. } => was == level || self.lands(slot, was as int, level as int),
                Position::Overflow { .. } => {
                    &&& 0 < self.tick_of(slot) - self.current_tick < self.reach
                    &&& level == Self::finest(self.tick_of(slot) - self.current_tick)
                },
                _ => false,
            },
            Position::Overflow { .. } => before.at_of(slot) is Overflow,
            _ => true,
        } by {
            assert(middle.slab.holds(slot));
            assert(self.tick_of(slot) == middle.tick_of(slot));
            let left = self.tick_of(slot) - self.current_tick;
            if let Position::Slot { level, .. } = self.at_of(slot) {
                if let Position::Slot { level: mid, .. } = middle.at_of(slot) {
                    if mid != level {
                        // An entry that has just landed is not landed again.
                        self.lemma_level_covers(self.levels@.len() - 1);
                        let span = resolution[mid as int] as int;
                        if mid == Self::finest(left) && 0 < left < self.reach {
                            lemma_finest(slots, resolution, left);
                            vstd::arithmetic::div_mod::lemma_hoist_over_denominator(
                                self.current_tick as int,
                                1,
                                span as nat,
                            );
                            vstd::arithmetic::div_mod::lemma_div_is_ordered(
                                self.current_tick + span,
                                self.tick_of(slot),
                                span,
                            );
                        }
                        if let Position::Slot { level: was, .. } = before.at_of(slot) {
                            if was != mid {
                                assert(middle.lands(slot, was as int, mid as int));
                                self.lemma_span_within_reach(was as int);
                                vstd::arithmetic::div_mod::lemma_mod_bound(
                                    self.tick_of(slot),
                                    resolution[was as int] as int,
                                );
                            }
                        }
                    }
                }
            }
        }
    }

    proof fn lemma_span_within_reach(&self, level: int)
        requires
            self.shaped(),
            0 <= level < P::slots_model().len(),
        ensures
            1 <= P::resolution_model()[level] <= self.reach,
            self.levels@[level].span() == P::resolution_model()[level],
            self.levels@[level].count() == P::slots_model()[level],
            covers(P::slots_model(), P::resolution_model(), P::slots_model().len() - 1) == self.reach,
    {
        self.lemma_level_covers(level);
        assert(self.level_shaped(level));
        self.lemma_level_covers(self.levels@.len() - 1);
        assert(self.level_shaped(self.levels@.len() - 1));
    }

    /// What shifted while the cursor stood still is where the passing of time
    /// moved it, once every level is up to date.
    proof fn lemma_shifted_sank(&self, before: &Self)
        requires
            self.shaped(),
            self.filed(Set::empty(), self.levels@.len() as int),
            self.shifted(before),
            before.current_tick <= self.current_tick,
        ensures
            self.sank(before),
    {
        let lag = self.levels@.len() as int;
        let slots = P::slots_model();
        let resolution = P::resolution_model();
        assert forall|slot: SlotIndex| #[trigger] self.slab.holds(slot) implies match self.at_of(slot) {
            Position::Slot { level, .. } => match before.at_of(slot) {
                Position::Slot { level: was, .. } => level == Self::sinks(
                    was as int,
                    self.tick_of(slot),
                    self.current_tick as int,
                ),
                Position::Overflow { .. } => exists|at: int|
                    before.current_tick <= at <= self.current_tick && #[trigger] self.reclaimed(slot, at, level as int),
                _ => false,
            },
            Position::Overflow { .. } => before.at_of(slot) is Overflow,
            _ => true,
        } by {
            if let Position::Slot { level, .. } = self.at_of(slot) {
                self.lemma_in_bounds(slot, lag);
                assert(self.placed_right(slot, lag));
                self.lemma_span_within_reach(level as int);
                // Nothing moves further while its span is not reached.
                assert(Self::sinks(level as int, self.tick_of(slot), self.current_tick as int) == level);
                if let Position::Slot { level: was, .. } = before.at_of(slot) {
                    if was != level {
                        assert(self.lands(slot, was as int, level as int));
                        lemma_finer(slots, resolution, was as int, self.tick_of(slot));
                    }
                }
                if before.at_of(slot) is Overflow {
                    assert(self.reclaimed(slot, self.current_tick as int, level as int));
                }
            }
        }
    }

    proof fn lemma_sank_chains(&self, middle: &Self, before: &Self)
        requires
            self.shaped(),
            before.shaped(),
            before.filed(Set::empty(), before.levels@.len() as int),
            self.sank(middle),
            middle.sank(before),
            self.same_but_time(middle),
            middle.same_but_time(before),
            before.current_tick <= middle.current_tick <= self.current_tick,
        ensures
            self.sank(before),
    {
        let slots = P::slots_model();
        let resolution = P::resolution_model();
        assert forall|slot: SlotIndex| #[trigger] self.slab.holds(slot) implies match self.at_of(slot) {
            Position::Slot { level, .. } => match before.at_of(slot) {
                Position::Slot { level: was, .. } => level == Self::sinks(
                    was as int,
                    self.tick_of(slot),
                    self.current_tick as int,
                ),
                Position::Overflow { .. } => exists|at: int|
                    before.current_tick <= at <= self.current_tick && #[trigger] self.reclaimed(slot, at, level as int),
                _ => false,
            },
            Position::Overflow { .. } => before.at_of(slot) is Overflow,
            _ => true,
        } by {
            assert(middle.slab.holds(slot));
            assert(before.slab.holds(slot));
            let tick = self.tick_of(slot);
            assert(tick == middle.tick_of(slot));
            if let Position::Slot { level, .. } = self.at_of(slot) {
                if let Position::Slot { level: mid, .. } = middle.at_of(slot) {
                    match before.at_of(slot) {
                        Position::Slot { level: was, .. } => {
                            before.lemma_in_bounds(slot, before.levels@.len() as int);
                            lemma_sunk_chains(
                                slots,
                                resolution,
                                was as int,
                                tick,
                                middle.current_tick as int,
                                self.current_tick as int,
                            );
                        },
                        Position::Overflow { .. } => {
                            let at = choose|at: int|
                                before.current_tick <= at <= middle.current_tick && #[trigger] middle.reclaimed(
                                    slot,
                                    at,
                                    mid as int,
                                );
                            self.lemma_span_within_reach(0);
                            lemma_finest(slots, resolution, tick - at);
                            lemma_sunk_chains(
                                slots,
                                resolution,
                                Self::finest(tick - at),
                                tick,
                                middle.current_tick as int,
                                self.current_tick as int,
                            );
                            assert(self.reclaimed(slot, at, level as int));
                        },
                        _ => {},
                    }
                } else if middle.at_of(slot) is Overflow {
                    let at = choose|at: int|
                        middle.current_tick <= at <= self.current_tick && #[trigger] self.reclaimed(
                            slot,
                            at,
                            level as int,
                        );
                    assert(before.current_tick <= at);
                }
            }
        }
    }

    proof fn lemma_progress_chains(&self, middle: &Self, before: &Self, limit: int)
        requires
            self.progressed(middle, limit),
            middle.progressed(before, limit),
        ensures
            self.progressed(before, limit),
    {
        assert forall|i: int| before.expired@.len() <= i < self.expired@.len() implies self.due_by(
            #[trigger] self.expired@[i],
            limit,
        ) by {
            if i < middle.expired@.len() {
                let slot = middle.expired@[i];
                assert(self.expired@[i] == slot);
                assert(middle.due_by(slot, limit));
                assert(self.slab.holds(slot));
            }
        }
        assert forall|slot: SlotIndex| #[trigger] self.slab.holds(slot) implies {
            &&& self.slab.id_of(slot) == before.slab.id_of(slot)
            &&& self.slab.value_at(slot).expires_at == before.slab.value_at(slot).expires_at
            &&& self.slab.value_at(slot).payload == before.slab.value_at(slot).payload
        } by {
            assert(middle.slab.holds(slot));
        }
        assert forall|id: TimerId| #[trigger] self.slab.issued(id) == before.slab.issued(id) by {
            assert(middle.slab.issued(id) == before.slab.issued(id));
        }
        assert forall|slot: SlotIndex| #[trigger] self.slab.holds(slot) == before.slab.holds(slot) by {
            assert(middle.slab.holds(slot) == before.slab.holds(slot));
        }
        assert forall|level: int| 0 <= level < before.levels@.len() implies (
        #[trigger] self.levels@[level]).same_shape(&before.levels@[level]) by {
            assert(middle.levels@[level].same_shape(&before.levels@[level]));
        }
        assert forall|i: int| 0 <= i < before.expired@.len() implies #[trigger] self.expired@[i]
            == before.expired@[i] by {
            assert(middle.expired@[i] == before.expired@[i]);
        }
    }

    /// Everything in the slot the cursor has reached in a level belongs to the
    /// span that begins there.
    proof fn lemma_reached_slot(&self, level: int, ring: int, i: int)
        requires
            self.shaped(),
            self.filed(Set::empty(), level),
            0 <= level < self.levels@.len(),
            self.current_tick >= 1,
            self.current_tick as int % (self.levels@[level].span() as int) == 0,
            ring == self.levels@[level].slot_of(self.current_tick as int),
            0 <= i < self.levels@[level].bucket(ring).len(),
        ensures
            self.slab.holds(self.levels@[level].bucket(ring)[i]),
            self.current_tick <= self.tick_of(self.levels@[level].bucket(ring)[i]) < self.current_tick
                + self.levels@[level].span(),
    {
        self.lemma_level_covers(level);
        let span = self.levels@[level].span() as int;
        let count = self.levels@[level].count() as int;
        let cursor = self.current_tick as int;
        vstd::arithmetic::div_mod::lemma_mod_bound(cursor / span, count);
        self.lemma_bucket_entry(Set::empty(), level, level, ring, i);
        let slot = self.levels@[level].bucket(ring)[i];
        assert(self.placed_right(slot, level));
        self.levels@[level].lemma_shape();
        assert(self.levels.len() == self.levels@.len());
        let tick = self.tick_of(slot);
        lemma_span_boundary(cursor, span);
        lemma_one_span_per_slot((cursor - 1) / span, count, tick / span, cursor / span);
        vstd::arithmetic::div_mod::lemma_fundamental_div_mod(tick, span);
        vstd::arithmetic::div_mod::lemma_mod_bound(tick, span);
        assert(tick == (cursor / span) * span + tick % span) by (nonlinear_arith)
            requires
                tick == span * (tick / span) + tick % span,
                tick / span == cursor / span,
        ;
    }

    /// Once the slot the cursor has reached is empty, a level is up to date.
    proof fn lemma_caught_up(&self, level: int)
        requires
            self.shaped(),
            self.filed(Set::empty(), level),
            0 <= level < self.levels@.len(),
            self.current_tick >= 1,
            self.current_tick as int % (self.levels@[level].span() as int) == 0
                ==> self.levels@[level].bucket(self.levels@[level].slot_of(self.current_tick as int)).len() == 0,
        ensures
            self.filed(Set::empty(), level + 1),
    {
        self.lemma_level_covers(level);
        let span = self.levels@[level].span() as int;
        let count = self.levels@[level].count() as int;
        let cursor = self.current_tick as int;
        lemma_span_boundary(cursor, span);
        assert forall|slot: SlotIndex| #[trigger]
            self.slab.holds(slot) && !Set::<SlotIndex>::empty().contains(slot) implies self.occupant(self.at_of(slot))
            == Some(slot) && self.placed_right(slot, level + 1) by {
            assert(self.placed_right(slot, level));
            assert(self.occupant(self.at_of(slot)) == Some(slot));
        }
    }

    /// Everything in the slot of the finest level that the cursor has reached
    /// is due.
    fn expire_slot(&mut self, ring: usize)
        requires
            old(self).shaped(),
            old(self).filed(Set::empty(), 0),
            old(self).minima_hold(),
            old(self).current_tick >= 1,
            ring == old(self).levels@[0].slot_of(old(self).current_tick as int),
        ensures
            final(self).shaped(),
            final(self).filed(Set::empty(), 1),
            final(self).minima_hold(),
            final(self).progressed(old(self), -1),
            final(self).current_tick == old(self).current_tick,
            final(self).ticks_processed == old(self).ticks_processed,
            final(self).shifted(old(self)),
    {
        proof {
            self.lemma_level_covers(0);
            let cursor = self.current_tick as int;
            vstd::arithmetic::div_mod::lemma_mod_bound(cursor / 1, self.levels@[0].count() as int);
            assert forall|i: int| 0 <= i < self.levels@[0].bucket(ring as int).len() implies self.tick_of(
                #[trigger] self.levels@[0].bucket(ring as int)[i],
            ) <= self.current_tick by {
                self.lemma_reached_slot(0, ring as int, i);
            }
        }
        let due: Vec<SlotIndex> = self.take_slot(0, ring, Ghost(0));
        let mut i: usize = 0;
        while i < due.len()
            invariant
                i <= due@.len(),
                due@.no_duplicates(),
                self.shaped(),
                self.filed(pending(due@, i as int), 0),
                self.minima_hold(),
                self.progressed(old(self), -1),
                self.current_tick == old(self).current_tick,
                self.ticks_processed == old(self).ticks_processed,
                self.levels@.len() > 0,
                self.levels@[0].bucket(ring as int).len() == 0,
                self.shifted(old(self)),
                old(self).shaped(),
                forall|j: int| 0 <= j < due@.len() ==> old(self).tick_of(#[trigger] due@[j]) <= old(self).current_tick,
            decreases due@.len() - i,
        {
            let ghost middle = *self;
            let index: SlotIndex = due[i];
            proof {
                lemma_pending_step(due@, i as int);
                self.slab.lemma_handles();
                assert(self.slab.holds(index));
                assert(old(self).tick_of(index) <= self.current_tick);
            }
            if let Some(key) = self.slab.id_at(index) {
                self.mark_expired(key, Ghost(pending(due@, i as int)), Ghost(0));
                proof {
                    assert(self.slab.holds(index));
                    self.lemma_progress_chains(&middle, old(self), -1);
                    assert(self.shifted(&middle)) by {
                        assert(forall|slot: SlotIndex| #[trigger] self.slab.holds(slot) ==> middle.slab.holds(slot));
                    }
                    self.lemma_shifts_chain(&middle, old(self));
                }
            }
            i = i + 1;
        }
        proof {
            lemma_pending_done(due@);
            self.lemma_level_covers(0);
            self.lemma_caught_up(0);
        }
    }

    /// An entry that was placed again when the cursor reached its span has
    /// landed.
    proof fn lemma_cascaded(&self, middle: &Self, slot: SlotIndex, level: int)
        requires
            middle.shaped(),
            self.refiled(middle),
            self.others_stay(middle, slot),
            self.settled(middle, slot),
            middle.slab.holds(slot),
            0 < level < middle.levels@.len(),
            middle.slot_level(slot) == Some(level),
            middle.current_tick as int % (middle.levels@[level].span() as int) == 0,
            middle.current_tick <= middle.tick_of(slot) < middle.current_tick + middle.levels@[level].span(),
        ensures
            self.shifted(middle),
    {
        middle.lemma_span_within_reach(level);
        let span = middle.levels@[level].span() as int;
        let cursor = middle.current_tick as int;
        let tick = middle.tick_of(slot);
        vstd::arithmetic::div_mod::lemma_fundamental_div_mod(cursor, span);
        let q = cursor / span;
        assert(cursor == q * span) by (nonlinear_arith)
            requires
                cursor == span * q + 0,
        ;
        vstd::arithmetic::div_mod::lemma_fundamental_div_mod_converse(tick, span, q, tick - cursor);
        assert(self.slab.holds(slot));
        assert forall|other: SlotIndex| #[trigger] self.slab.holds(other) implies match self.at_of(other) {
            Position::Slot { level, .. } => match middle.at_of(other) {
                Position::Slot { level: was, .. } => was == level || self.lands(other, was as int, level as int),
                Position::Overflow { .. } => {
                    &&& 0 < self.tick_of(other) - self.current_tick < self.reach
                    &&& level == Self::finest(self.tick_of(other) - self.current_tick)
                },
                _ => false,
            },
            Position::Overflow { .. } => middle.at_of(other) is Overflow,
            _ => true,
        } by {
            assert(middle.slab.holds(other));
            if other == slot {
                if let Position::Slot { level: down, .. } = self.at_of(other) {
                    assert(self.lands(other, level, down as int));
                }
            } else {
                assert(self.at_of(other) == middle.at_of(other));
            }
        }
    }

    /// Breaks a coarser level's slot down into finer ones.
    fn cascade(&mut self, level: usize, ring: usize)
        requires
            old(self).shaped(),
            0 < level < old(self).levels@.len(),
            old(self).filed(Set::empty(), level as int),
            old(self).minima_hold(),
            old(self).current_tick >= 1,
            old(self).current_tick as int % (old(self).levels@[level as int].span() as int) == 0,
            ring == old(self).levels@[level as int].slot_of(old(self).current_tick as int),
        ensures
            final(self).shaped(),
            final(self).filed(Set::empty(), level + 1),
            final(self).minima_hold(),
            final(self).progressed(old(self), -1),
            final(self).current_tick == old(self).current_tick,
            final(self).ticks_processed == old(self).ticks_processed,
            final(self).shifted(old(self)),
    {
        let ghost l = level as int;
        let ghost r = ring as int;
        let ghost span = self.levels@[l].span();
        proof {
            self.lemma_level_covers(l);
            let cursor = self.current_tick as int;
            vstd::arithmetic::div_mod::lemma_mod_bound(cursor / (span as int), self.levels@[l].count() as int);
            assert forall|i: int| 0 <= i < self.levels@[l].bucket(r).len() implies self.current_tick <= self.tick_of(
                #[trigger] self.levels@[l].bucket(r)[i],
            ) < self.current_tick + span by {
                self.lemma_reached_slot(l, r, i);
            }
        }
        let moving: Vec<SlotIndex> = self.take_slot(level, ring, Ghost(l));
        let mut i: usize = 0;
        while i < moving.len()
            invariant
                i <= moving@.len(),
                moving@.no_duplicates(),
                self.shaped(),
                0 < l < self.levels@.len(),
                l == level,
                r == ring,
                self.filed(pending(moving@, i as int), l),
                self.minima_hold(),
                self.progressed(old(self), -1),
                self.current_tick == old(self).current_tick,
                self.ticks_processed == old(self).ticks_processed,
                self.levels@[l].span() == span,
                old(self).levels@[l].span() == span,
                self.levels@[l].bucket(r).len() == 0,
                self.shifted(old(self)),
                self.current_tick as int % (span as int) == 0,
                forall|j: int|
                    0 <= j < moving@.len() ==> old(self).current_tick <= old(self).tick_of(#[trigger] moving@[j]) < old(
                        self,
                    ).current_tick + span,
                forall|j: int|
                    i <= j < moving@.len() ==> (self.at_of(#[trigger] moving@[j]) matches Position::Slot { level: was, .. } && was
                        == level),
            decreases moving@.len() - i,
        {
            let ghost middle = *self;
            let index: SlotIndex = moving[i];
            proof {
                lemma_pending_step(moving@, i as int);
                self.slab.lemma_handles();
                assert(self.slab.holds(index));
                assert(old(self).tick_of(index) < self.current_tick + span);
            }
            if let Some(key) = self.slab.id_at(index) {
                self.place(key, Ghost(pending(moving@, i as int)), Ghost(l));
                proof {
                    assert(self.slab.holds(index));
                    self.lemma_progress_chains(&middle, old(self), -1);
                    self.lemma_cascaded(&middle, index, l);
                    self.lemma_shifts_chain(&middle, old(self));
                    assert forall|j: int| i + 1 <= j < moving@.len() implies (self.at_of(#[trigger] moving@[j]) matches Position::Slot { level: was, .. } && was
                        == level) by {
                        assert(moving@[j] != index);
                        assert(pending(moving@, i as int).contains(moving@[j]));
                        assert(middle.slab.holds(moving@[j]));
                    }
                }
            }
            i = i + 1;
        }
        proof {
            lemma_pending_done(moving@);
            self.lemma_level_covers(l);
            self.lemma_caught_up(l);
        }
    }

    /// An entry that was parked is where its deadline says.
    proof fn lemma_unparked(&self, middle: &Self, slot: SlotIndex)
        requires
            middle.shaped(),
            self.refiled(middle),
            self.others_stay(middle, slot),
            self.settled(middle, slot),
            middle.slab.holds(slot),
            middle.at_of(slot) is Overflow,
        ensures
            self.shifted(middle),
    {
        assert(self.slab.holds(slot));
        assert forall|other: SlotIndex| #[trigger] self.slab.holds(other) implies match self.at_of(other) {
            Position::Slot { level, .. } => match middle.at_of(other) {
                Position::Slot { level: was, .. } => was == level || self.lands(other, was as int, level as int),
                Position::Overflow { .. } => {
                    &&& 0 < self.tick_of(other) - self.current_tick < self.reach
                    &&& level == Self::finest(self.tick_of(other) - self.current_tick)
                },
                _ => false,
            },
            Position::Overflow { .. } => middle.at_of(other) is Overflow,
            _ => true,
        } by {
            assert(middle.slab.holds(other));
            if other != slot {
                assert(self.at_of(other) == middle.at_of(other));
            }
        }
    }

    /// Pulls overflow entries that have come within the wheel's reach.
    fn check_overflow(&mut self)
        requires
            old(self).shaped(),
            old(self).filed(Set::empty(), old(self).levels@.len() as int),
            old(self).minima_hold(),
        ensures
            final(self).shaped(),
            final(self).filed(Set::empty(), final(self).levels@.len() as int),
            final(self).minima_hold(),
            final(self).progressed(old(self), -1),
            final(self).current_tick == old(self).current_tick,
            final(self).ticks_processed == old(self).ticks_processed,
            final(self).parked_is_far(),
            final(self).shifted(old(self)),
    {
        let ghost lag = self.levels@.len() as int;
        // Strictly earlier than the threshold placement evicts at. Reclaiming
        // the boundary itself hands back an entry that placement returns
        // immediately, once per call for as long as the cursor sits there.
        let threshold: Instant = tick_start(self.start, self.current_tick + self.reach);
        let keys: Vec<u128> = self.overflow.keys_before(threshold.nanos);
        proof {
            assert forall|key: u128| (#[trigger] self.overflow.bucket(key)).len() > 0 implies self.key_tick(key)
                >= self.current_tick + self.reach || pending_keys(keys@, 0, key) by {
                if key < threshold.nanos {
                    assert(keys@.contains(key));
                    let j = choose|j: int| 0 <= j < keys@.len() && keys@[j] == key;
                    assert(keys@[j] == key);
                }
            }
        }
        let mut k: usize = 0;
        while k < keys.len()
            invariant
                k <= keys@.len(),
                lag == self.levels@.len(),
                self.shaped(),
                self.filed(Set::empty(), lag),
                self.minima_hold(),
                self.progressed(old(self), -1),
                self.current_tick == old(self).current_tick,
                self.ticks_processed == old(self).ticks_processed,
                self.shifted(old(self)),
                forall|key: u128|
                    (#[trigger] self.overflow.bucket(key)).len() > 0 ==> self.key_tick(key) >= self.current_tick
                        + self.reach || pending_keys(keys@, k as int, key),
            decreases keys@.len() - k,
        {
            let ghost outer = *self;
            let key: u128 = keys[k];
            let moving: Vec<SlotIndex> = self.take_parked(key);
            let mut i: usize = 0;
            while i < moving.len()
                invariant
                    i <= moving@.len(),
                    k < keys@.len(),
                    key == keys@[k as int],
                    moving@.no_duplicates(),
                    lag == self.levels@.len(),
                    self.shaped(),
                    self.filed(pending(moving@, i as int), lag),
                    self.minima_hold(),
                    self.progressed(old(self), -1),
                    self.refiled(&outer),
                    self.shifted(old(self)),
                    forall|j: int| i <= j < moving@.len() ==> self.at_of(#[trigger] moving@[j]) is Overflow,
                    self.current_tick == old(self).current_tick,
                    self.ticks_processed == old(self).ticks_processed,
                    forall|j: int|
                        0 <= j < moving@.len() ==> outer.slab.holds(#[trigger] moving@[j]) && outer.deadline_of(
                            moving@[j],
                        ).nanos == key,
                    forall|other: u128|
                        (#[trigger] self.overflow.bucket(other)).len() > 0 ==> self.key_tick(other)
                            >= self.current_tick + self.reach || pending_keys(keys@, k + 1, other),
                decreases moving@.len() - i,
            {
                let ghost middle = *self;
                let index: SlotIndex = moving[i];
                proof {
                    lemma_pending_step(moving@, i as int);
                    self.slab.lemma_handles();
                    assert(outer.slab.holds(index));
                    assert(self.slab.holds(index));
                    assert(self.deadline_of(index).nanos == key);
                }
                if let Some(id) = self.slab.id_at(index) {
                    self.place(id, Ghost(pending(moving@, i as int)), Ghost(lag));
                    proof {
                        assert(self.slab.holds(index));
                        self.lemma_progress_chains(&middle, old(self), -1);
                        self.lemma_unparked(&middle, index);
                        self.lemma_shifts_chain(&middle, old(self));
                        assert forall|j: int| i + 1 <= j < moving@.len() implies self.at_of(#[trigger] moving@[j]) is Overflow by {
                            assert(moving@[j] != index);
                            assert(pending(moving@, i as int).contains(moving@[j]));
                            assert(middle.slab.holds(moving@[j]));
                        }
                        assert(self.deadline_of(index) == Instant { nanos: key });
                        assert forall|other: u128|
                            (#[trigger] self.overflow.bucket(other)).len() > 0 implies self.key_tick(other)
                            >= self.current_tick + self.reach || pending_keys(keys@, k + 1, other) by {
                            if other != key {
                                assert(self.overflow.bucket(other) == middle.overflow.bucket(other));
                            }
                        }
                        assert forall|slot: SlotIndex| #[trigger] self.slab.holds(slot) implies {
                            &&& self.slab.id_of(slot) == outer.slab.id_of(slot)
                            &&& self.slab.value_at(slot).expires_at == outer.slab.value_at(slot).expires_at
                            &&& self.slab.value_at(slot).payload == outer.slab.value_at(slot).payload
                        } by {
                            assert(middle.slab.holds(slot));
                        }
                    }
                }
                i = i + 1;
            }
            proof {
                lemma_pending_done(moving@);
            }
            k = k + 1;
        }
        assert(self.parked_is_far());
    }

    /// Steps to the next tick and does what falls due there.
    fn tick(&mut self)
        requires
            old(self).shaped(),
            old(self).filed(Set::empty(), old(self).levels@.len() as int),
            old(self).minima_hold(),
            old(self).current_tick + 1 + old(self).reach <= u64::MAX,
            old(self).start.nanos + (old(self).current_tick + 1) * 1_000_000 <= old(self).advanced_to.nanos,
        ensures
            final(self).shaped(),
            final(self).filed(Set::empty(), final(self).levels@.len() as int),
            final(self).minima_hold(),
            final(self).progressed(old(self), -1),
            final(self).current_tick == old(self).current_tick + 1,
            final(self).ticks_processed == old(self).ticks_processed + 1,
            final(self).sank(old(self)),
    {
        self.current_tick = self.current_tick + 1;
        self.ticks_processed = self.ticks_processed + 1;
        let ghost stepped = *self;
        proof {
            self.lemma_stepped(old(self));
            self.lemma_level_covers(0);
        }
        let ring: usize = self.levels[0].slot_for(self.current_tick);
        self.expire_slot(ring);
        let mut level: usize = 1;
        while level < self.levels.len()
            invariant
                1 <= level <= self.levels@.len(),
                self.shaped(),
                self.filed(Set::empty(), level as int),
                self.minima_hold(),
                self.progressed(&stepped, -1),
                self.shifted(&stepped),
                self.ticks_processed == stepped.ticks_processed,
                self.current_tick == stepped.current_tick,
                self.current_tick >= 1,
            decreases self.levels@.len() - level,
        {
            let ghost middle = *self;
            proof {
                self.lemma_level_covers(level as int);
            }
            let span: u64 = self.levels[level].one_span();
            if self.current_tick % span == 0 {
                let ring: usize = self.levels[level].slot_for(self.current_tick);
                self.cascade(level, ring);
                proof {
                    self.lemma_progress_chains(&middle, &stepped, -1);
                    self.lemma_shifts_chain(&middle, &stepped);
                }
            } else {
                proof {
                    self.lemma_caught_up(level as int);
                }
            }
            level = level + 1;
        }
        let ghost middle = *self;
        self.check_overflow();
        proof {
            self.lemma_progress_chains(&middle, &stepped, -1);
            self.lemma_progress_chains(&stepped, old(self), -1);
            self.lemma_shifts_chain(&middle, &stepped);
            self.lemma_shifted_sank(&stepped);
            assert(self.sank(old(self))) by {
                assert(stepped.slab == old(self).slab);
                assert forall|slot: SlotIndex| #[trigger] self.slab.holds(slot) implies match self.at_of(slot) {
                    Position::Slot { level, .. } => match old(self).at_of(slot) {
                        Position::Slot { level: was, .. } => level == Self::sinks(
                            was as int,
                            self.tick_of(slot),
                            self.current_tick as int,
                        ),
                        Position::Overflow { .. } => exists|at: int|
                            old(self).current_tick <= at <= self.current_tick && #[trigger] self.reclaimed(
                                slot,
                                at,
                                level as int,
                            ),
                        _ => false,
                    },
                    Position::Overflow { .. } => old(self).at_of(slot) is Overflow,
                    _ => true,
                } by {
                    assert(stepped.at_of(slot) == old(self).at_of(slot));
                }
            }
        }
    }

    /// Stepping the cursor leaves every level one tick behind.
    proof fn lemma_stepped(&self, before: &Self)
        requires
            before.shaped(),
            before.filed(Set::empty(), before.levels@.len() as int),
            before.minima_hold(),
            self.current_tick == before.current_tick + 1,
            self.current_tick + self.reach <= u64::MAX,
            self.start.nanos + self.current_tick * 1_000_000 <= self.advanced_to.nanos,
            self.ticks_processed == before.ticks_processed + 1,
            self.start == before.start,
            self.advanced_to == before.advanced_to,
            self.slab == before.slab,
            self.expired == before.expired,
            self.levels == before.levels,
            self.overflow == before.overflow,
            self.reach == before.reach,
        ensures
            self.shaped(),
            self.filed(Set::empty(), 0),
            self.minima_hold(),
            self.progressed(before, -1),
    {
        let lag = before.levels@.len() as int;
        assert forall|level: int| 0 <= level < self.levels@.len() implies self.level_shaped(level) by {
            assert(before.level_shaped(level));
        }
        assert(self.same_levels(before));
        assert forall|slot: SlotIndex| #[trigger]
            self.slab.holds(slot) && !Set::<SlotIndex>::empty().contains(slot) implies self.occupant(self.at_of(slot))
            == Some(slot) && self.placed_right(slot, 0) by {
            assert(before.placed_right(slot, lag));
            assert(before.occupant(before.at_of(slot)) == Some(slot));
            assert(self.occupant(self.at_of(slot)) == before.occupant(self.at_of(slot)));
        }
        assert forall|at: Position| (#[trigger] self.occupant(at)) is Some implies ({
            let slot = self.occupant(at)->0;
            &&& self.slab.holds(slot)
            &&& self.at_of(slot) == at
        }) by {
            assert(before.occupant(at) == self.occupant(at));
        }
        self.lemma_minima_kept(before, Set::empty(), lag);
    }

    /// Nothing happens before `tick`: no entry of the finest level is stored
    /// earlier, and no coarser level that holds anything breaks down earlier.
    spec fn quiet_until(&self, tick: int) -> bool {
        forall|slot: SlotIndex| #[trigger]
            self.slab.holds(slot) ==> (self.at_of(slot) matches Position::Slot { level, .. } ==> if level == 0 {
                self.tick_of(slot) >= tick
            } else {
                (tick - 1) / (self.levels@[level as int].span() as int) == self.current_tick as int / (
                self.levels@[level as int].span() as int)
            })
    }

    /// An entry gives the wheel something to do at `tick`: it is stored at
    /// it, or its level breaks down there.
    spec fn works_at(&self, slot: SlotIndex, tick: int) -> bool {
        &&& self.slab.holds(slot)
        &&& self.slot_level(slot) matches Some(level) && if level == 0 {
            self.tick_of(slot) == tick
        } else {
            tick % (P::resolution_model()[level] as int) == 0 && tick <= self.tick_of(slot)
        }
    }

    /// Something in a slot of the finest level is stored at the tick that slot
    /// comes round at.
    proof fn lemma_works_at_once(&self, from: int, offset: int)
        requires
            self.shaped(),
            self.filed(Set::empty(), self.levels@.len() as int),
            from == (self.current_tick + 1) % (self.levels@[0].count() as int),
            0 <= offset < self.levels@[0].count(),
            self.levels@[0].bucket((from + offset) % (self.levels@[0].count() as int)).len() > 0,
        ensures
            exists|slot: SlotIndex| #[trigger] self.works_at(slot, self.current_tick + 1 + offset),
    {
        let lag = self.levels@.len() as int;
        let cursor = self.current_tick as int;
        self.lemma_level_covers(0);
        let count = self.levels@[0].count() as int;
        let ring = (from + offset) % count;
        vstd::arithmetic::div_mod::lemma_mod_bound(from + offset, count);
        self.lemma_bucket_entry(Set::empty(), lag, 0, ring, 0);
        let slot = self.levels@[0].bucket(ring)[0];
        assert(self.placed_right(slot, lag));
        self.levels@[0].lemma_shape();
        let tick = self.tick_of(slot);
        assert(in_window(1, self.levels@[0].count(), cursor, tick, ring));
        assert(tick / 1 == tick && cursor / 1 == cursor);
        vstd::arithmetic::div_mod::lemma_add_mod_noop_right(offset, cursor + 1, count);
        lemma_one_span_per_slot(cursor, count, tick, cursor + 1 + offset);
        assert(self.works_at(slot, cursor + 1 + offset));
    }

    /// A coarser level that holds anything has something to do where its next
    /// span begins.
    proof fn lemma_works_at_boundary(&self, level: int)
        requires
            self.shaped(),
            self.filed(Set::empty(), self.levels@.len() as int),
            0 < level < self.levels@.len(),
            !self.levels@[level].vacant(),
        ensures
            exists|slot: SlotIndex| #[trigger]
                self.works_at(
                    slot,
                    (self.current_tick as int / (self.levels@[level].span() as int) + 1) * (
                    self.levels@[level].span() as int),
                ),
    {
        let lag = self.levels@.len() as int;
        let cursor = self.current_tick as int;
        self.lemma_level_covers(level);
        self.lemma_span_within_reach(level);
        let span = self.levels@[level].span() as int;
        let ring = choose|ring: int|
            0 <= ring < self.levels@[level].count() && (#[trigger] self.levels@[level].bucket(ring)).len() > 0;
        self.lemma_bucket_entry(Set::empty(), lag, level, ring, 0);
        let slot = self.levels@[level].bucket(ring)[0];
        assert(self.placed_right(slot, lag));
        assert(self.levels.len() == self.levels@.len());
        let tick = self.tick_of(slot);
        let boundary = (cursor / span + 1) * span;
        vstd::arithmetic::div_mod::lemma_fundamental_div_mod(tick, span);
        vstd::arithmetic::div_mod::lemma_mod_bound(tick, span);
        assert(boundary <= tick) by (nonlinear_arith)
            requires
                boundary == (cursor / span + 1) * span,
                tick == span * (tick / span) + tick % span,
                tick % span >= 0,
                cursor / span + 1 <= tick / span,
                span >= 1,
        ;
        vstd::arithmetic::div_mod::lemma_mod_multiples_basic(cursor / span + 1, span);
        assert(self.works_at(slot, boundary));
    }

    /// The next tick at or before `limit` at which the wheel has work.
    fn next_work_tick(&self, limit: u64) -> (next: Option<u64>)
        requires
            self.shaped(),
            self.filed(Set::empty(), self.levels@.len() as int),
            self.current_tick < limit < u64::MAX,
        ensures
            next matches Some(tick) ==> self.current_tick < tick <= limit && self.quiet_until(tick as int),
            next matches Some(tick) ==> exists|slot: SlotIndex| #[trigger] self.works_at(slot, tick as int),
            next is None ==> self.quiet_until(limit + 1),
            (forall|level: int| 0 <= level < self.levels@.len() ==> (#[trigger] self.levels@[level]).vacant())
                ==> next is None,
    {
        let ghost lag = self.levels@.len() as int;
        let ghost cursor = self.current_tick as int;
        proof {
            self.lemma_level_covers(0);
            vstd::arithmetic::div_mod::lemma_mod_bound(cursor + 1, self.levels@[0].count() as int);
        }
        let from: usize = self.levels[0].slot_for(self.current_tick + 1);
        let mut best: u64 = match self.levels[0].distance_to_next(from) {
            Some(offset) => self.current_tick + 1 + offset as u64,
            None => u64::MAX,
        };
        proof {
            if best != u64::MAX {
                self.lemma_works_at_once(from as int, best - cursor - 1);
            }
            let count = self.levels@[0].count() as int;
            assert forall|slot: SlotIndex| #[trigger] self.slab.holds(slot) implies (self.at_of(slot) matches Position::Slot { level, .. } ==> level
                == 0 ==> self.tick_of(slot) >= best) by {
                self.lemma_in_bounds(slot, lag);
                assert(self.placed_right(slot, lag));
                if let Position::Slot { level, slot: ring, index } = self.at_of(slot) {
                    if level == 0 {
                        let tick = self.tick_of(slot);
                        assert(in_window(1, self.levels@[0].count(), cursor, tick, ring as int));
                        assert(tick / 1 == tick && cursor / 1 == cursor);
                        lemma_slots_ahead(cursor + 1, tick, count);
                        assert(self.levels@[0].bucket(ring as int).len() > 0);
                    }
                }
            }
        }
        // A coarser level has work at the boundary where it breaks down.
        let mut level: usize = 1;
        while level < self.levels.len()
            invariant
                1 <= level <= self.levels@.len(),
                lag == self.levels@.len(),
                cursor == self.current_tick,
                self.shaped(),
                self.filed(Set::empty(), lag),
                self.current_tick < best,
                best == u64::MAX || exists|l: int| 0 <= l < lag && !(#[trigger] self.levels@[l]).vacant(),
                best == u64::MAX || exists|slot: SlotIndex| #[trigger] self.works_at(slot, best as int),
                forall|slot: SlotIndex| #[trigger]
                    self.slab.holds(slot) ==> (self.at_of(slot) matches Position::Slot { level: held, .. }
                        ==> held < level ==> if held == 0 {
                        self.tick_of(slot) >= best
                    } else {
                        best <= (cursor / (self.levels@[held as int].span() as int) + 1) * (
                        self.levels@[held as int].span() as int)
                    }),
            decreases self.levels@.len() - level,
        {
            proof {
                self.lemma_level_covers(level as int);
            }
            if !self.levels[level].is_empty() {
                let span: u64 = self.levels[level].one_span();
                proof {
                    vstd::arithmetic::div_mod::lemma_fundamental_div_mod(cursor, span as int);
                    vstd::arithmetic::div_mod::lemma_mod_bound(cursor, span as int);
                    assert((cursor / (span as int) + 1) * span == span * (cursor / (span as int)) + span)
                        by (nonlinear_arith);
                }
                let boundary: u64 = (self.current_tick / span + 1) * span;
                proof {
                    self.lemma_works_at_boundary(level as int);
                }
                if boundary < best {
                    best = boundary;
                }
            } else {
                proof {
                    assert forall|slot: SlotIndex| #[trigger] self.slab.holds(slot) implies !(self.at_of(slot) matches Position::Slot { level: held, .. } && held
                        == level) by {
                        self.lemma_in_bounds(slot, lag);
                    }
                }
            }
            level = level + 1;
        }
        let next: Option<u64> = if best <= limit {
            Some(best)
        } else {
            None
        };
        proof {
            let reached = if best <= limit {
                best as int
            } else {
                limit + 1
            };
            assert forall|slot: SlotIndex| #[trigger] self.slab.holds(slot) implies (self.at_of(slot) matches Position::Slot { level, .. } ==> if level
                == 0 {
                self.tick_of(slot) >= reached
            } else {
                (reached - 1) / (self.levels@[level as int].span() as int) == cursor / (
                self.levels@[level as int].span() as int)
            }) by {
                self.lemma_in_bounds(slot, lag);
                if let Position::Slot { level, .. } = self.at_of(slot) {
                    self.lemma_level_covers(level as int);
                    if level > 0 {
                        lemma_within_span(cursor, self.levels@[level as int].span() as int, reached - 1);
                    }
                }
            }
        }
        next
    }

    /// The cursor may jump over time in which nothing happens.
    proof fn lemma_skipped(&self, before: &Self)
        requires
            before.shaped(),
            before.filed(Set::empty(), before.levels@.len() as int),
            before.minima_hold(),
            before.current_tick <= self.current_tick,
            before.quiet_until(self.current_tick + 1),
            self.current_tick + self.reach <= u64::MAX,
            self.start.nanos + self.current_tick * 1_000_000 <= self.advanced_to.nanos,
            self.ticks_processed == before.ticks_processed,
            self.start == before.start,
            self.advanced_to == before.advanced_to,
            self.slab == before.slab,
            self.expired == before.expired,
            self.levels == before.levels,
            self.overflow == before.overflow,
            self.reach == before.reach,
        ensures
            self.shaped(),
            self.filed(Set::empty(), self.levels@.len() as int),
            self.minima_hold(),
            self.progressed(before, -1),
            self.shifted(before),
    {
        let lag = before.levels@.len() as int;
        assert forall|level: int| 0 <= level < self.levels@.len() implies self.level_shaped(level) by {
            assert(before.level_shaped(level));
        }
        assert(self.same_levels(before));
        assert forall|slot: SlotIndex| #[trigger]
            self.slab.holds(slot) && !Set::<SlotIndex>::empty().contains(slot) implies self.occupant(self.at_of(slot))
            == Some(slot) && self.placed_right(slot, lag) by {
            assert(before.placed_right(slot, lag));
            assert(before.occupant(before.at_of(slot)) == Some(slot));
            assert(self.occupant(self.at_of(slot)) == before.occupant(self.at_of(slot)));
            before.lemma_in_bounds(slot, lag);
            if let Position::Slot { level, slot: ring, .. } = self.at_of(slot) {
                before.lemma_level_covers(level as int);
                let span = before.levels@[level as int].span();
                let count = before.levels@[level as int].count();
                let tick = before.tick_of(slot);
                assert(in_window(span, count, before.current_tick as int, tick, ring as int));
                if level == 0 {
                    assert(tick / 1 == tick);
                    assert(before.current_tick as int / 1 == before.current_tick);
                    assert(self.current_tick as int / 1 == self.current_tick);
                }
                assert(in_window(span, count, self.current_tick as int, tick, ring as int));
            }
        }
        assert forall|at: Position| (#[trigger] self.occupant(at)) is Some implies ({
            let slot = self.occupant(at)->0;
            &&& self.slab.holds(slot)
            &&& self.at_of(slot) == at
        }) by {
            assert(before.occupant(at) == self.occupant(at));
        }
        self.lemma_minima_kept(before, Set::empty(), lag);
    }

    /// The latest deadline a sweep at `now` finds due. A wheel that reaches
    /// one tick keeps nothing to sweep.
    spec fn sweep_limit(&self, now: Instant) -> int {
        if self.reach > 1 {
            now.nanos as int
        } else {
            -1
        }
    }

    /// Every entry of the wheel is in the level and the slot it was in.
    spec fn rings_kept(&self, before: &Self, flight: Set<SlotIndex>) -> bool {
        forall|slot: SlotIndex| #[trigger]
            self.slab.holds(slot) && !flight.contains(slot) ==> (self.at_of(slot) matches Position::Slot {
                level,
                slot: ring,
                ..
            } ==> (before.at_of(slot) matches Position::Slot { level: l, slot: r, .. } && l == level && r == ring))
    }

    /// An entry of a slot that was walked is due now or back in its level.
    proof fn lemma_swept(&self, middle: &Self, before: &Self, slot: SlotIndex)
        requires
            middle.shifted(before),
            self.refiled(middle),
            self.others_stay(middle, slot),
            self.at_of(slot) is Expired || self.at_of(slot) is Slot && self.slot_level(slot) == before.slot_level(slot),
        ensures
            self.shifted(before),
    {
        assert forall|other: SlotIndex| #[trigger] self.slab.holds(other) implies match self.at_of(other) {
            Position::Slot { level, .. } => match before.at_of(other) {
                Position::Slot { level: was, .. } => was == level || self.lands(other, was as int, level as int),
                Position::Overflow { .. } => {
                    &&& 0 < self.tick_of(other) - self.current_tick < self.reach
                    &&& level == Self::finest(self.tick_of(other) - self.current_tick)
                },
                _ => false,
            },
            Position::Overflow { .. } => before.at_of(other) is Overflow,
            _ => true,
        } by {
            assert(middle.slab.holds(other));
            if other != slot {
                assert(self.at_of(other) == middle.at_of(other));
                assert(self.tick_of(other) == middle.tick_of(other));
            }
        }
    }

    /// Expires everything in one slot whose real deadline has passed.
    fn expire_due_in(&mut self, level: usize, ring: usize, now: Instant)
        requires
            old(self).shaped(),
            old(self).filed(Set::empty(), old(self).levels@.len() as int),
            old(self).minima_hold(),
            level < old(self).levels@.len(),
            ring < old(self).levels@[level as int].count(),
            now.nanos <= old(self).advanced_to.nanos,
        ensures
            final(self).shaped(),
            final(self).filed(Set::empty(), final(self).levels@.len() as int),
            final(self).minima_hold(),
            final(self).progressed(old(self), old(self).sweep_limit(now)),
            final(self).current_tick == old(self).current_tick,
            final(self).ticks_processed == old(self).ticks_processed,
            final(self).overflow == old(self).overflow,
            final(self).rings_kept(old(self), Set::empty()),
            final(self).shifted(old(self)),
            forall|slot: SlotIndex| #[trigger]
                final(self).slab.holds(slot) && (final(self).at_of(slot) matches Position::Slot { level: l, slot: r, .. } && l
                    == level && r == ring) ==> final(self).deadline_of(slot).nanos > now.nanos,
    {
        let ghost lag = self.levels@.len() as int;
        let ghost l = level as int;
        let ghost r = ring as int;
        proof {
            self.lemma_level_covers(l);
        }
        // The known minimum is the truth, so one later than `now` proves
        // nothing here is due and the walk is skipped.
        if let Some(earliest) = self.levels[level].known_minimum(ring) {
            if earliest.nanos > now.nanos {
                proof {
                    assert forall|slot: SlotIndex| #[trigger]
                        self.slab.holds(slot) && (self.at_of(slot) matches Position::Slot { level: l2, slot: r2, .. } && l2
                            == level && r2 == ring) implies self.deadline_of(slot).nanos > now.nanos by {
                        self.lemma_in_bounds(slot, lag);
                        assert(self.levels@[l].known(r) is Some);
                    }
                }
                return ;
            }
        }
        let held: Vec<SlotIndex> = self.take_slot(level, ring, Ghost(lag));
        let ghost limit = self.sweep_limit(now);
        let mut survivor_min: Option<Instant> = None;
        let mut i: usize = 0;
        while i < held.len()
            invariant
                i <= held@.len(),
                held@.no_duplicates(),
                l == level,
                r == ring,
                lag == self.levels@.len(),
                level < self.levels@.len(),
                ring < self.levels@[l].count(),
                limit == self.sweep_limit(now),
                limit == old(self).sweep_limit(now),
                now.nanos <= self.advanced_to.nanos,
                old(self).shaped(),
                old(self).filed(Set::empty(), lag),
                self.shaped(),
                self.filed(pending(held@, i as int), lag),
                self.minima_hold(),
                self.progressed(old(self), limit),
                self.refiled(old(self)),
                self.ticks_processed == old(self).ticks_processed,
                self.overflow == old(self).overflow,
                self.rings_kept(old(self), pending(held@, i as int)),
                self.shifted(old(self)),
                self.levels@[l].known(r) is None,
                survivor_min is None <==> self.levels@[l].bucket(r).len() == 0,
                survivor_min matches Some(m) ==> self.is_minimum(self.levels@[l].bucket(r), m),
                forall|j: int|
                    0 <= j < self.levels@[l].bucket(r).len() ==> self.deadline_of(
                        #[trigger] self.levels@[l].bucket(r)[j],
                    ).nanos > now.nanos,
                forall|j: int|
                    0 <= j < held@.len() ==> {
                        &&& old(self).slab.holds(#[trigger] held@[j])
                        &&& old(self).at_of(held@[j]) == (Position::Slot { level, slot: ring, index: j as usize })
                        &&& old(self).placed_right(held@[j], lag)
                    },
            decreases held@.len() - i,
        {
            let ghost middle = *self;
            let ghost flight = pending(held@, i as int);
            let index: SlotIndex = held[i];
            proof {
                lemma_pending_step(held@, i as int);
                self.slab.lemma_handles();
                assert(old(self).slab.holds(held@[i as int]));
                assert(self.slab.holds(index));
                assert(self.levels@[l].same_shape(&old(self).levels@[l]));
                self.lemma_level_covers(l);
            }
            if let Some(key) = self.slab.id_at(index) {
                let expires_at: Instant = match self.slab.get(key) {
                    Some(entry) => entry.expires_at,
                    None => now,
                };
                if expires_at.nanos <= now.nanos {
                    self.mark_expired(key, Ghost(flight), Ghost(lag));
                    proof {
                        assert(self.slab.holds(index));
                        assert(self.due_by(index, limit));
                        assert forall|j: int| 0 <= j < self.levels@[l].bucket(r).len() implies self.deadline_of(
                            #[trigger] self.levels@[l].bucket(r)[j],
                        ) == middle.deadline_of(middle.levels@[l].bucket(r)[j]) by {
                            middle.lemma_bucket_entry(flight, lag, l, r, j);
                            assert(self.slab.holds(middle.levels@[l].bucket(r)[j]));
                        }
                    }
                } else {
                    self.file_in_slot(key, level, ring, Ghost(flight), Ghost(lag));
                    let ghost bucket = middle.levels@[l].bucket(r);
                    proof {
                        assert(self.slab.holds(index));
                        assert forall|j: int| 0 <= j < bucket.len() implies self.deadline_of(#[trigger] bucket[j])
                            == middle.deadline_of(bucket[j]) by {
                            middle.lemma_bucket_entry(flight, lag, l, r, j);
                            assert(self.slab.holds(bucket[j]));
                        }
                        assert(self.levels@[l].bucket(r)[bucket.len() as int] == index);
                        assert forall|j: int| 0 <= j < self.levels@[l].bucket(r).len() implies self.deadline_of(
                            #[trigger] self.levels@[l].bucket(r)[j],
                        ).nanos > now.nanos by {
                            if j < bucket.len() {
                                assert(self.levels@[l].bucket(r)[j] == bucket[j]);
                            }
                        }
                    }
                    survivor_min = match survivor_min {
                        Some(m) => {
                            proof {
                                self.lemma_minimum_kept(&middle, flight, lag, l, r, m);
                                self.lemma_minimum_pushed(bucket, m, index);
                            }
                            Some(min_instant(m, expires_at))
                        },
                        None => Some(expires_at),
                    };
                }
                proof {
                    self.lemma_swept(&middle, old(self), index);
                    assert forall|slot: SlotIndex| #[trigger]
                        self.slab.holds(slot) && !pending(held@, i + 1).contains(slot) implies (self.at_of(slot) matches Position::Slot {
                        level: l2,
                        slot: r2,
                        ..
                    } ==> (old(self).at_of(slot) matches Position::Slot { level: l3, slot: r3, .. } && l3 == l2 && r3 == r2)) by {
                        assert(middle.slab.holds(slot));
                    }
                    self.lemma_progress_chains(&middle, old(self), limit);
                    assert forall|slot: SlotIndex| #[trigger] self.slab.holds(slot) implies {
                        &&& self.slab.id_of(slot) == old(self).slab.id_of(slot)
                        &&& self.slab.value_at(slot).expires_at == old(self).slab.value_at(slot).expires_at
                        &&& self.slab.value_at(slot).payload == old(self).slab.value_at(slot).payload
                    } by {
                        assert(middle.slab.holds(slot));
                    }
                }
            }
            i = i + 1;
        }
        proof {
            lemma_pending_done(held@);
        }
        let ghost walked = *self;
        level_set_minimum(&mut self.levels, level, ring, survivor_min);
        proof {
            self.lemma_minimum_set(&walked, l, r, survivor_min);
            assert(self.shifted(&walked));
            self.lemma_shifts_chain(&walked, old(self));
            assert forall|slot: SlotIndex| #[trigger]
                self.slab.holds(slot) && (self.at_of(slot) matches Position::Slot { level: l2, slot: r2, .. } && l2
                    == level && r2 == ring) implies self.deadline_of(slot).nanos > now.nanos by {
                self.lemma_in_bounds(slot, lag);
                assert(self.levels@[l].bucket(r) == walked.levels@[l].bucket(r));
            }
            self.lemma_progress_chains(&walked, old(self), limit);
        }
    }

    /// Expires entries whose real deadline has passed but whose tick has not
    /// arrived, at every level.
    ///
    /// Deadlines are stored at whole ticks, so when they are rounded up an
    /// entry due at 1.7 ticks sits at tick 2 and the tick sweep alone would not
    /// reach it until 2.0. Without this the wheel's resolution becomes a floor
    /// under every wait.
    fn expire_due(&mut self, now: Instant)
        requires
            old(self).shaped(),
            old(self).filed(Set::empty(), old(self).levels@.len() as int),
            old(self).minima_hold(),
            old(self).start.nanos <= now.nanos <= old(self).advanced_to.nanos,
            elapsed_ticks(old(self).start, now) <= old(self).current_tick,
        ensures
            final(self).shaped(),
            final(self).filed(Set::empty(), final(self).levels@.len() as int),
            final(self).minima_hold(),
            final(self).progressed(old(self), old(self).sweep_limit(now)),
            final(self).current_tick == old(self).current_tick,
            final(self).ticks_processed == old(self).ticks_processed,
            final(self).overflow == old(self).overflow,
            final(self).shifted(old(self)),
            forall|slot: SlotIndex| #[trigger]
                final(self).slab.holds(slot) && final(self).at_of(slot) is Slot ==> final(self).deadline_of(slot).nanos
                    > now.nanos && final(self).tick_of(slot) > final(self).current_tick,
    {
        let ghost lag = self.levels@.len() as int;
        let ghost limit = self.sweep_limit(now);
        let rounded: u64 = match tick_for(self.start, now, P::ROUNDING) {
            Some(rounded) => rounded,
            None => {
                return ;
            },
        };
        proof {
            lemma_rounding_adds_at_most_one(self.start, now, P::ROUNDING);
        }
        let mut level: usize = 0;
        while level < self.levels.len()
            invariant
                level <= self.levels@.len(),
                lag == self.levels@.len(),
                rounded == stored_tick(self.start, now, P::ROUNDING),
                rounded <= self.current_tick + 1,
                limit == self.sweep_limit(now),
                limit == old(self).sweep_limit(now),
                now.nanos <= self.advanced_to.nanos,
                self.shaped(),
                self.filed(Set::empty(), lag),
                self.minima_hold(),
                self.progressed(old(self), limit),
                self.current_tick == old(self).current_tick,
                self.ticks_processed == old(self).ticks_processed,
                self.overflow == old(self).overflow,
                self.shifted(old(self)),
                forall|slot: SlotIndex| #[trigger]
                    self.slab.holds(slot) && (self.at_of(slot) matches Position::Slot { level: l, .. } && l < level)
                        ==> self.deadline_of(slot).nanos > now.nanos,
            decreases self.levels@.len() - level,
        {
            let ghost middle = *self;
            let ghost l = level as int;
            proof {
                self.lemma_level_covers(l);
            }
            // The slot `now` rounds into is the one that can hold an entry
            // whose tick has not arrived but whose real deadline has passed.
            let ring: usize = self.levels[level].slot_for(rounded);
            self.expire_due_in(level, ring, now);
            proof {
                assert forall|slot: SlotIndex| #[trigger]
                    self.slab.holds(slot) && (self.at_of(slot) matches Position::Slot { level: l2, .. } && l2 < level
                        + 1) implies self.deadline_of(slot).nanos > now.nanos by {
                    assert(middle.slab.holds(slot));
                    if let Position::Slot { level: l2, slot: r2, .. } = self.at_of(slot) {
                        if l2 == level && r2 != ring && self.deadline_of(slot).nanos <= now.nanos {
                            self.lemma_in_bounds(slot, lag);
                            assert(self.placed_right(slot, lag));
                            self.lemma_level_covers(l);
                            let span = self.levels@[l].span() as int;
                            assert(self.levels@[l].same_shape(&middle.levels@[l]));
                            lemma_ticks_monotone(self.start, self.deadline_of(slot), now, P::ROUNDING);
                            lemma_next_span(self.current_tick as int, self.tick_of(slot), rounded as int, span);
                        }
                    }
                }
                self.lemma_progress_chains(&middle, old(self), limit);
                self.lemma_shifts_chain(&middle, old(self));
            }
            level = level + 1;
        }
        proof {
            assert forall|slot: SlotIndex| #[trigger]
                self.slab.holds(slot) && self.at_of(slot) is Slot implies self.deadline_of(slot).nanos > now.nanos
                && self.tick_of(slot) > self.current_tick by {
                self.lemma_in_bounds(slot, lag);
                self.lemma_after_cursor(slot);
            }
        }
    }

    /// An entry is due once its tick has been reached, or its deadline has
    /// passed on a wheel that reaches further than one tick.
    pub open spec fn comes_due(&self, deadline: Instant, now: Instant) -> bool {
        ||| self.tick_at(deadline) <= self.spec_tick()
        ||| deadline.nanos <= now.nanos && Self::spec_reach() > 1
    }

    /// Time moved to `now` and exactly what had come due by then joined the
    /// list.
    pub open spec fn advanced(&self, before: &Self, now: Instant) -> bool {
        &&& self.spec_start() == before.spec_start()
        &&& self.entries() == before.entries()
        &&& self.spec_len() == before.spec_len()
        &&& self.insertions() == before.insertions()
        &&& self.next_position_usable() == before.next_position_usable()
        &&& forall|key: Key| #[trigger] self.issued(key) == before.issued(key)
        &&& self.spec_advanced() == if before.spec_advanced().nanos <= now.nanos {
            now
        } else {
            before.spec_advanced()
        }
        &&& self.spec_tick() == if before.spec_tick() <= elapsed_ticks(before.spec_start(), now) {
            elapsed_ticks(before.spec_start(), now)
        } else {
            before.spec_tick() as int
        }
        &&& before.due().len() <= self.due().len()
        &&& self.due().take(before.due().len() as int) == before.due()
        &&& self.due().no_duplicates()
        &&& before.idle() ==> self.spec_ticks_processed() == before.spec_ticks_processed()
        &&& exists|stepped: Set<int>| #[trigger] self.stepped_through(before, stepped)
        &&& forall|key: Key| #[trigger]
            self.entries().contains_key(key) ==> (self.due().contains(key) <==> before.due().contains(key)
                || self.comes_due(self.entries()[key].deadline, now))
        &&& forall|key: Key| #[trigger] self.level_of(key) is Some ==> self.moved_down(before, key, self.level_of(key)->0)
        &&& forall|key: Key| #[trigger]
            self.entries().contains_key(key) && !self.due().contains(key) && self.tick_at(self.entries()[key].deadline)
                - self.spec_tick() < Self::spec_reach() ==> self.level_of(key) is Some
    }

    /// The ticks the wheel stepped through are `stepped`, and there was
    /// something to do at each.
    pub open spec fn stepped_through(&self, before: &Self, stepped: Set<int>) -> bool {
        &&& stepped.finite()
        &&& self.spec_ticks_processed() == before.spec_ticks_processed() + stepped.len()
        &&& forall|tick: int| #[trigger]
            stepped.contains(tick) ==> before.spec_tick() < tick <= self.spec_tick() && before.has_work(tick)
    }

    /// Something that is not due yet gives the wheel work at a tick ahead.
    pub open spec fn has_work(&self, tick: int) -> bool {
        exists|key: Key, level: int| #[trigger] self.breaks_down(key, level, tick)
    }

    /// An entry will be at `level` when the cursor comes to `tick`, and comes
    /// due there, or its level begins a span there and breaks down. One that
    /// is parked may be at any level by then, once it is within reach.
    pub open spec fn breaks_down(&self, key: Key, level: int, tick: int) -> bool {
        let stored = self.tick_at(self.entries()[key].deadline);
        &&& self.entries().contains_key(key)
        &&& !self.due().contains(key)
        &&& 0 <= level < P::slots_model().len()
        &&& match self.level_of(key) {
            Some(was) => level == Self::sinks(was, stored, tick - 1),
            None => stored - tick < Self::spec_reach(),
        }
        &&& if level == 0 {
            tick == stored
        } else {
            tick <= stored && tick % (P::resolution_model()[level] as int) == 0
        }
    }

    /// A tick at which there is something to do was ahead with something to
    /// do all along.
    proof fn lemma_work_was_ahead(&self, told: &Self, before: &Self, tick: int)
        requires
            before.wf(),
            self.shaped(),
            self.filed(Set::empty(), self.levels@.len() as int),
            told.start == before.start,
            told.slab == before.slab,
            self.same_but_time(told),
            self.sank(told),
            self.current_tick == tick - 1,
            exists|slot: SlotIndex| #[trigger] self.works_at(slot, tick),
        ensures
            before.has_work(tick),
    {
        let lag = self.levels@.len() as int;
        let slot = choose|slot: SlotIndex| #[trigger] self.works_at(slot, tick);
        let level = self.slot_level(slot)->0;
        before.lemma_due_list();
        before.slab.lemma_handles();
        self.lemma_in_bounds(slot, lag);
        self.lemma_after_cursor(slot);
        assert(before.slab.holds(slot));
        let key = before.slab.id_of(slot);
        assert(key.spec_slot() == slot);
        assert(before.slab@.contains_key(key));
        assert(before.entries().contains_key(key));
        assert(before.tick_at(before.entries()[key].deadline) == self.tick_of(slot));
        assert(before.breaks_down(key, level, tick));
    }

    /// Where the passing of time has moved an entry to: down from the level it
    /// was at, or down from where it was filed on coming within the wheel's
    /// reach.
    pub open spec fn moved_down(&self, before: &Self, key: Key, level: int) -> bool {
        let tick = self.tick_at(self.entries()[key].deadline);
        &&& self.entries().contains_key(key)
        &&& !self.due().contains(key)
        &&& match before.level_of(key) {
            Some(was) => level == Self::sinks(was, tick, self.spec_tick() as int),
            None => exists|at: int|
                before.spec_tick() <= at <= self.spec_tick() && #[trigger] Self::came_down(
                    at,
                    tick,
                    self.spec_tick() as int,
                    level,
                ),
        }
    }

    /// An entry that came within reach when the cursor was at `at` is at
    /// `level` when it is at `cursor`.
    pub open spec fn came_down(at: int, tick: int, cursor: int, level: int) -> bool {
        &&& 0 < tick - at < Self::spec_reach()
        &&& level == Self::sinks(Self::finest(tick - at), tick, cursor)
    }

    /// Nothing is waiting in a slot: all there is has come due already or is
    /// beyond the wheel's reach.
    pub open spec fn idle(&self) -> bool {
        forall|key: Key| #[trigger]
            self.entries().contains_key(key) ==> self.due().contains(key) || self.tick_at(
                self.entries()[key].deadline,
            ) - self.spec_tick() >= Self::spec_reach()
    }

    proof fn lemma_idle_levels(&self)
        requires
            self.wf(),
            self.idle(),
        ensures
            forall|level: int| 0 <= level < self.levels@.len() ==> (#[trigger] self.levels@[level]).vacant(),
    {
        let lag = self.levels@.len() as int;
        self.slab.lemma_handles();
        self.lemma_due_list();
        assert forall|level: int| 0 <= level < self.levels@.len() implies (#[trigger] self.levels@[level]).vacant() by {
            assert forall|ring: int| 0 <= ring < self.levels@[level].count() implies (#[trigger] self.levels@[level].bucket(
                ring,
            )).len() == 0 by {
                if self.levels@[level].bucket(ring).len() > 0 {
                    self.lemma_bucket_entry(Set::empty(), lag, level, ring, 0);
                    let slot = self.levels@[level].bucket(ring)[0];
                    let key = self.slab.id_of(slot);
                    assert(key.spec_slot() == slot);
                    assert(self.slab@.contains_key(key));
                    assert(self.entries().contains_key(key));
                    self.lemma_after_cursor(slot);
                }
            }
        }
    }

    /// Moves time forward, expiring whatever has come due.
    ///
    /// Cost is the work crossed, not the interval: an idle wheel skips to the
    /// next tick that has something to do rather than stepping through every
    /// tick between.
    pub fn advance_to(&mut self, now: Instant)
        requires
            old(self).wf(),
            elapsed_ticks(old(self).spec_start(), now) + Self::spec_reach() <= u64::MAX,
        ensures
            final(self).wf(),
            now.nanos <= old(self).spec_start().nanos ==> *final(self) == *old(self),
            now.nanos > old(self).spec_start().nanos ==> final(self).advanced(old(self), now),
    {
        if now.nanos <= self.start.nanos {
            return ;
        }
        let ghost before = *self;
        let ghost lag = self.levels@.len() as int;
        if now.nanos > self.advanced_to.nanos {
            self.advanced_to = now;
        }
        let target: u64 = whole_ticks(self.start, now);
        let ghost told = *self;
        proof {
            self.lemma_level_covers(0);
            self.lemma_told(&before);
            assert(self.shifted(self));
            self.lemma_shifted_sank(self);
            if before.idle() {
                before.lemma_idle_levels();
            }
        }
        let ghost mut stepped = Set::<int>::empty();
        while self.current_tick < target
            invariant
                before.wf(),
                told.start == before.start,
                told.slab == before.slab,
                told.current_tick == before.current_tick,
                told.ticks_processed == before.ticks_processed,
                stepped.finite(),
                self.ticks_processed == told.ticks_processed + stepped.len(),
                forall|tick: int| #[trigger]
                    stepped.contains(tick) ==> before.current_tick < tick <= self.current_tick && before.has_work(tick),
                lag == self.levels@.len(),
                self.shaped(),
                self.filed(Set::empty(), lag),
                self.minima_hold(),
                self.progressed(&told, -1),
                told.shaped(),
                told.filed(Set::empty(), lag),
                self.sank(&told),
                self.advanced_to == told.advanced_to,
                target + self.reach <= u64::MAX,
                self.reach >= 1,
                self.start.nanos + target * 1_000_000 <= self.advanced_to.nanos,
                self.current_tick <= target || self.current_tick == told.current_tick,
                before.idle() ==> self.ticks_processed == told.ticks_processed && forall|level: int|
                    0 <= level < lag ==> (#[trigger] self.levels@[level]).vacant(),
            decreases target - self.current_tick,
        {
            let ghost middle = *self;
            match self.next_work_tick(target) {
                Some(tick) => {
                    self.current_tick = tick - 1;
                    proof {
                        self.lemma_skipped(&middle);
                        self.lemma_shifted_sank(&middle);
                    }
                    let ghost skipped = *self;
                    proof {
                        self.lemma_sank_chains(&middle, &told);
                        let slot = choose|slot: SlotIndex| #[trigger] middle.works_at(slot, tick as int);
                        assert(self.works_at(slot, tick as int));
                        self.lemma_work_was_ahead(&told, &before, tick as int);
                        assert(!stepped.contains(tick as int));
                        stepped = stepped.insert(tick as int);
                    }
                    self.tick();
                    proof {
                        self.lemma_progress_chains(&skipped, &middle, -1);
                        self.lemma_sank_chains(&skipped, &middle);
                    }
                },
                None => {
                    self.current_tick = target;
                    proof {
                        self.lemma_skipped(&middle);
                        self.lemma_shifted_sank(&middle);
                    }
                },
            }
            proof {
                self.lemma_progress_chains(&middle, &told, -1);
                self.lemma_sank_chains(&middle, &told);
            }
        }
        // Reclaim before sweeping, not after. An entry coming back from the
        // overflow map can already be due, and a sweep that has already run
        // will not look at it: it would sit in a level with a deadline in the
        // past until the next call, and `next_expiry` would report that past
        // time. Wheels with a short reach send almost everything through the
        // overflow map, so for them this is the common path rather than an
        // edge case.
        let ghost caught_up = *self;
        self.check_overflow();
        let ghost reclaimed = *self;
        self.expire_due(now);
        proof {
            let limit = reclaimed.sweep_limit(now);
            reclaimed.lemma_progress_chains(&caught_up, &told, -1);
            reclaimed.lemma_progress_widens(&told, limit);
            self.lemma_progress_chains(&reclaimed, &told, limit);
            reclaimed.lemma_shifted_sank(&caught_up);
            self.lemma_shifted_sank(&reclaimed);
            reclaimed.lemma_sank_chains(&caught_up, &told);
            self.lemma_sank_chains(&reclaimed, &told);
            self.lemma_advanced(&before, &told, now, stepped);
        }
    }

    /// Being told the time moves nothing.
    proof fn lemma_told(&self, before: &Self)
        requires
            before.wf(),
            before.advanced_to.nanos <= self.advanced_to.nanos,
            self.current_tick == before.current_tick,
            self.ticks_processed == before.ticks_processed,
            self.start == before.start,
            self.slab == before.slab,
            self.expired == before.expired,
            self.levels == before.levels,
            self.overflow == before.overflow,
            self.reach == before.reach,
        ensures
            self.shaped(),
            self.filed(Set::empty(), self.levels@.len() as int),
            self.minima_hold(),
            self.progressed(self, -1),
    {
        let lag = before.levels@.len() as int;
        assert forall|level: int| 0 <= level < self.levels@.len() implies self.level_shaped(level) by {
            assert(before.level_shaped(level));
        }
        assert forall|slot: SlotIndex| #[trigger]
            self.slab.holds(slot) && !Set::<SlotIndex>::empty().contains(slot) implies self.occupant(self.at_of(slot))
            == Some(slot) && self.placed_right(slot, lag) by {
            assert(before.placed_right(slot, lag));
            assert(before.occupant(before.at_of(slot)) == Some(slot));
            assert(self.occupant(self.at_of(slot)) == before.occupant(self.at_of(slot)));
        }
        assert forall|at: Position| (#[trigger] self.occupant(at)) is Some implies ({
            let slot = self.occupant(at)->0;
            &&& self.slab.holds(slot)
            &&& self.at_of(slot) == at
        }) by {
            assert(before.occupant(at) == self.occupant(at));
        }
        assert forall|level: int, ring: int|
            0 <= level < self.levels@.len() && 0 <= ring < self.levels@[level].count() && (
            #[trigger] self.levels@[level].known(ring)) is Some implies self.is_minimum(
            self.levels@[level].bucket(ring),
            self.levels@[level].known(ring)->0,
        ) by {
            let bucket = self.levels@[level].bucket(ring);
            let m = self.levels@[level].known(ring)->0;
            assert(before.is_minimum(bucket, m));
            let i = choose|i: int| 0 <= i < bucket.len() && before.deadline_of(#[trigger] bucket[i]) == m;
            assert(self.deadline_of(bucket[i]) == m);
        }
    }

    proof fn lemma_progress_widens(&self, before: &Self, limit: int)
        requires
            self.progressed(before, -1),
            limit >= -1,
        ensures
            self.progressed(before, limit),
    {
        assert forall|i: int| before.expired@.len() <= i < self.expired@.len() implies self.due_by(
            #[trigger] self.expired@[i],
            limit,
        ) by {
            assert(self.due_by(self.expired@[i], -1));
        }
    }

    proof fn lemma_advanced(&self, before: &Self, told: &Self, now: Instant, stepped: Set<int>)
        requires
            before.wf(),
            self.wf(),
            now.nanos > before.start.nanos,
            elapsed_ticks(before.start, now) + before.reach <= u64::MAX,
            told.start == before.start,
            told.current_tick == before.current_tick,
            told.slab == before.slab,
            told.expired == before.expired,
            told.reach == before.reach,
            told.advanced_to == if before.advanced_to.nanos <= now.nanos {
                now
            } else {
                before.advanced_to
            },
            self.progressed(told, told.sweep_limit(now)),
            self.sank(told),
            self.stepped_through(before, stepped),
            before.idle() ==> self.ticks_processed == before.ticks_processed,
            self.current_tick == if before.current_tick <= elapsed_ticks(before.start, now) {
                elapsed_ticks(before.start, now)
            } else {
                before.current_tick as int
            },
            self.parked_is_far(),
            forall|slot: SlotIndex| #[trigger]
                self.slab.holds(slot) && self.at_of(slot) is Slot ==> self.deadline_of(slot).nanos > now.nanos
                    && self.tick_of(slot) > self.current_tick,
        ensures
            self.advanced(before, now),
    {
        let lag = self.levels@.len() as int;
        self.lemma_entries_kept(told);
        assert(told.entries() =~= before.entries());
        self.lemma_due_list();
        before.lemma_due_list();
        self.slab.lemma_handles();
        before.slab.lemma_handles();
        assert forall|i: int| 0 <= i < before.expired@.len() implies self.due()[i] == #[trigger] before.due()[i] by {
            before.lemma_expired_entry(Set::empty(), lag, i);
            assert(self.expired@[i] == told.expired@[i]);
            assert(self.slab.holds(before.expired@[i]));
        }
        assert(self.due().take(before.due().len() as int) =~= before.due());
        assert forall|key: Key| #[trigger] self.issued(key) == before.issued(key) by {
            assert(self.slab.issued(key) == told.slab.issued(key));
        }
        lemma_rounding_adds_at_most_one(self.start, now, P::ROUNDING);
        assert forall|key: Key| #[trigger] self.entries().contains_key(key) implies (self.due().contains(key)
            <==> before.due().contains(key) || self.comes_due(self.entries()[key].deadline, now)) by {
            let slot = key.spec_slot();
            assert(self.slab.holds(slot));
            assert(self.placed_right(slot, lag));
            assert(self.occupant(self.at_of(slot)) == Some(slot));
            if before.due().contains(key) {
                let i = choose|i: int| 0 <= i < before.due().len() && before.due()[i] == key;
                assert(self.due()[i] == before.due()[i]);
                assert(self.due().contains(key));
            } else if self.due().contains(key) {
                let i = choose|i: int| 0 <= i < self.due().len() && self.due()[i] == key;
                if i < before.due().len() {
                    assert(self.due()[i] == before.due()[i]);
                }
                self.lemma_expired_entry(Set::empty(), lag, i);
                assert(self.expired@[i] == slot);
                assert(self.due_by(self.expired@[i], told.sweep_limit(now)));
            } else if self.at_of(slot) is Overflow {
                let parked = self.at_of(slot)->key;
                assert(self.overflow.bucket(parked).len() > 0);
                assert(Instant { nanos: parked } == self.deadline_of(slot));
                if self.deadline_of(slot).nanos <= now.nanos {
                    lemma_ticks_monotone(self.start, self.deadline_of(slot), now, P::ROUNDING);
                }
                self.lemma_level_covers(0);
            }
        }
        assert forall|key: Key| #[trigger] self.level_of(key) is Some implies self.moved_down(
            before,
            key,
            self.level_of(key)->0,
        ) by {
            let slot = key.spec_slot();
            let level = self.level_of(key)->0;
            assert(self.slab.holds(slot));
            assert(before.slab.holds(slot));
            assert(self.tick_at(self.entries()[key].deadline) == self.tick_of(slot));
            if before.at_of(slot) is Overflow {
                let at = choose|at: int|
                    told.current_tick <= at <= self.current_tick && #[trigger] self.reclaimed(slot, at, level);
                assert(Self::came_down(at, self.tick_of(slot), self.current_tick as int, level));
            }
        }
        assert forall|key: Key| #[trigger]
            self.entries().contains_key(key) && !self.due().contains(key) && self.tick_at(
                self.entries()[key].deadline,
            ) - self.spec_tick() < Self::spec_reach() implies self.level_of(key) is Some by {
            let slot = key.spec_slot();
            assert(self.slab.holds(slot));
            assert(self.placed_right(slot, lag));
            assert(self.occupant(self.at_of(slot)) == Some(slot));
            if self.at_of(slot) is Overflow {
                let parked = self.at_of(slot)->key;
                assert(self.overflow.bucket(parked).len() > 0);
                assert(Instant { nanos: parked } == self.deadline_of(slot));
            }
        }
    }
}

/// Past the cursor's span and no later than one tick past the cursor lies only
/// the span of that tick.
proof fn lemma_next_span(cursor: int, tick: int, last: int, span: int)
    requires
        span >= 1,
        cursor / span < tick / span,
        tick <= last <= cursor + 1,
    ensures
        tick / span == last / span,
{
    vstd::arithmetic::div_mod::lemma_div_is_ordered(tick, last, span);
    vstd::arithmetic::div_mod::lemma_div_is_ordered(last, cursor + span, span);
    vstd::arithmetic::div_mod::lemma_hoist_over_denominator(cursor, 1, span as nat);
}

/// Whether `key` is among the keys from the `k`-th on.
spec fn pending_keys(keys: Seq<u128>, k: int, key: u128) -> bool {
    exists|j: int| k <= j < keys.len() && keys[j] == key
}

} // verus!
