//! What is due next.

use super::{lemma_one_span_per_slot, lemma_slots_ahead, level_set_minimum, Key, Position, TimingWheel};
use crate::timer::slab::SlotIndex;
use crate::timer::time::Instant;
use crate::timer::wheel::level::min_instant;
use crate::timer::wheel::policy::{CoarseQuery, Policy};
use crate::timer::wheel::ticks::{
    earliest_at, lemma_not_after_tick, lemma_not_before_tick, tick_instant, tick_start,
};
use vstd::prelude::*;

verus! {

/// The earlier of two answers.
fn sooner(a: Option<Instant>, b: Option<Instant>) -> (first: Option<Instant>)
    ensures
        first is None <==> a is None && b is None,
        first matches Some(f) ==> {
            &&& first == a || first == b
            &&& a matches Some(x) ==> f.nanos <= x.nanos
            &&& b matches Some(x) ==> f.nanos <= x.nanos
        },
{
    match a {
        None => b,
        Some(x) => match b {
            None => a,
            Some(y) => Some(min_instant(x, y)),
        },
    }
}

/// The first tick of the span a tick falls in.
pub open spec fn span_start(tick: int, span: int) -> int {
    (tick / span) * span
}

impl<T, P: Policy> TimingWheel<T, P> {
    /// What an entry stored at a level is answered with, in nanoseconds: its
    /// deadline, or where the level answers by position, the earliest time
    /// anything in its bucket could be due, if that is after `floor`.
    pub open spec fn answer_at(&self, level: Option<int>, deadline: Instant, floor: Instant) -> int {
        match level {
            Some(level) => {
                let bound = earliest_at(
                    self.spec_start(),
                    span_start(self.tick_at(deadline), P::resolution_model()[level] as int),
                    P::ROUNDING,
                );
                if level > 0 && P::COARSE_QUERY == CoarseQuery::BucketBound && bound > floor.nanos {
                    bound
                } else {
                    deadline.nanos as int
                }
            },
            None => deadline.nanos as int,
        }
    }

    /// What an entry is answered with, in nanoseconds.
    pub open spec fn answer(&self, key: Key, floor: Instant) -> int {
        self.answer_at(self.level_of(key), self.entries()[key].deadline, floor)
    }

    spec fn answer_of(&self, slot: SlotIndex, floor: Instant) -> int {
        self.answer_at(
            match self.at_of(slot) {
                Position::Slot { level, .. } => Some(level as int),
                _ => None,
            },
            self.deadline_of(slot),
            floor,
        )
    }

    /// Only what is remembered about minima may differ.
    spec fn looked_up(&self, before: &Self) -> bool {
        &&& self.refiled(before)
        &&& self.same_levels(before)
        &&& self.slab == before.slab
        &&& self.expired == before.expired
        &&& self.overflow == before.overflow
        &&& self.ticks_processed == before.ticks_processed
        &&& forall|level: int, ring: int|
            #![trigger self.levels@[level].bucket(ring)]
            0 <= level < self.levels@.len() ==> self.levels@[level].bucket(ring) == before.levels@[level].bucket(ring)
    }

    /// The earliest deadline among the entries a slot holds.
    fn scan_slot(&self, level: usize, ring: usize) -> (minimum: Option<Instant>)
        requires
            self.wf(),
            level < self.levels@.len(),
            ring < self.levels@[level as int].count(),
        ensures
            minimum is None <==> self.levels@[level as int].bucket(ring as int).len() == 0,
            minimum matches Some(m) ==> self.is_minimum(self.levels@[level as int].bucket(ring as int), m),
    {
        let ghost lag = self.levels@.len() as int;
        let ghost bucket = self.levels@[level as int].bucket(ring as int);
        proof {
            self.lemma_level_covers(level as int);
            self.slab.lemma_handles();
        }
        let mut minimum: Option<Instant> = None;
        let mut i: usize = 0;
        while i < self.levels[level].bucket_len(ring)
            invariant
                self.wf(),
                lag == self.levels@.len(),
                level < self.levels@.len(),
                ring < self.levels@[level as int].count(),
                self.levels@[level as int].wf(),
                bucket == self.levels@[level as int].bucket(ring as int),
                i <= bucket.len(),
                minimum is None <==> i == 0,
                minimum matches Some(m) ==> self.is_minimum(bucket.take(i as int), m),
            decreases bucket.len() - i,
        {
            let index: SlotIndex = self.levels[level].bucket_at(ring, i);
            proof {
                self.lemma_bucket_entry(Set::empty(), lag, level as int, ring as int, i as int);
                self.slab.lemma_handles();
                assert(bucket.take(i + 1) =~= bucket.take(i as int).push(index));
            }
            if let Some(key) = self.slab.id_at(index) {
                if let Some(entry) = self.slab.get(key) {
                    let expires_at: Instant = entry.expires_at;
                    minimum = match minimum {
                        Some(m) => {
                            proof {
                                self.lemma_minimum_pushed(bucket.take(i as int), m, index);
                            }
                            Some(min_instant(m, expires_at))
                        },
                        None => {
                            assert(bucket.take(i + 1)[0] == index);
                            Some(expires_at)
                        },
                    };
                }
            }
            i = i + 1;
        }
        assert(bucket.take(i as int) =~= bucket);
        minimum
    }

    /// The earliest deadline in one slot, from the known minimum when the
    /// level keeps one.
    fn earliest_in_slot(&mut self, level: usize, ring: usize) -> (minimum: Option<Instant>)
        requires
            old(self).wf(),
            level < old(self).levels@.len(),
            ring < old(self).levels@[level as int].count(),
        ensures
            final(self).wf(),
            final(self).looked_up(old(self)),
            minimum is None <==> old(self).levels@[level as int].bucket(ring as int).len() == 0,
            minimum matches Some(m) ==> old(self).is_minimum(old(self).levels@[level as int].bucket(ring as int), m),
    {
        proof {
            self.lemma_level_covers(level as int);
            self.levels@[level as int].lemma_shape();
        }
        if let Some(known) = self.levels[level].known_minimum(ring) {
            return Some(known);
        }
        let computed: Option<Instant> = self.scan_slot(level, ring);
        level_set_minimum(&mut self.levels, level, ring, computed);
        proof {
            self.lemma_minimum_set(old(self), level as int, ring as int, computed);
            assert forall|key: u128| (#[trigger] self.overflow.bucket(key)).len() > 0 implies self.key_tick(key)
                >= self.current_tick + self.reach by {
                assert(old(self).overflow.bucket(key).len() > 0);
            }
        }
        computed
    }

    /// An answer a level gives: that of one of its entries, and of none later.
    spec fn level_answer(&self, level: int, floor: Instant, answer: Instant) -> bool {
        &&& exists|slot: SlotIndex| #[trigger]
            self.slab.holds(slot) && (self.at_of(slot) matches Position::Slot { level: l, .. } && l == level)
                && self.answer_of(slot, floor) == answer.nanos
        &&& forall|slot: SlotIndex| #[trigger]
            self.slab.holds(slot) && (self.at_of(slot) matches Position::Slot { level: l, .. } && l == level)
                ==> answer.nanos <= self.answer_of(slot, floor)
    }

    /// What a level answers.
    fn next_in_level(&mut self, level: usize, floor: Instant) -> (answer: Option<Instant>)
        requires
            old(self).wf(),
            level < old(self).levels@.len(),
        ensures
            final(self).wf(),
            final(self).looked_up(old(self)),
            answer is None <==> old(self).levels@[level as int].vacant(),
            answer matches Some(a) ==> old(self).level_answer(level as int, floor, a),
    {
        let ghost lag = self.levels@.len() as int;
        let ghost l = level as int;
        let ghost span = self.levels@[l].span() as int;
        let ghost count = self.levels@[l].count() as int;
        let ghost cursor = self.current_tick as int;
        proof {
            self.lemma_level_covers(l);
            self.levels@[l].lemma_shape();
        }
        // One past the cursor. The cursor's own slot was emptied at its
        // boundary, so anything left in it wrapped a whole revolution and
        // holds the level's latest deadlines, not its earliest.
        let passed: u64 = self.levels[level].quotient(self.current_tick);
        proof {
            vstd::arithmetic::div_mod::lemma_fundamental_div_mod(cursor, span);
            vstd::arithmetic::div_mod::lemma_mod_bound(cursor, span);
            assert(passed <= cursor) by (nonlinear_arith)
                requires
                    cursor == span * passed + cursor % span,
                    cursor % span >= 0,
                    span >= 1,
                    passed >= 0,
            ;
            assert(count <= span * count) by (nonlinear_arith)
                requires
                    span >= 1,
                    count >= 1,
            ;
            assert(span * (passed + count) == span * passed + span * count) by (nonlinear_arith);
        }
        let from: usize = self.levels[level].wrapped(passed + 1);
        let offset: usize = match self.levels[level].distance_to_next(from) {
            Some(offset) => offset,
            None => {
                return None;
            },
        };
        let quotient: u64 = passed + 1 + offset as u64;
        let ring: usize = self.levels[level].wrapped(quotient);
        let ghost r = ring as int;
        let ghost q = quotient as int;
        let ghost first = self.levels@[l].bucket(r)[0];
        proof {
            lemma_slots_ahead(passed + 1, q, count);
            assert(self.levels@[l].bucket(r).len() > 0);
            self.lemma_bucket_entry(Set::empty(), lag, l, r, 0);
            assert(q * span <= u64::MAX && q * span >= 1) by (nonlinear_arith)
                requires
                    1 <= q <= passed + count,
                    span >= 1,
                    span * (passed + count) == span * passed + span * count,
                    span * passed <= cursor,
                    cursor + span * count <= u64::MAX,
            ;
            assert forall|slot: SlotIndex| #[trigger]
                self.slab.holds(slot) && (self.at_of(slot) matches Position::Slot { level: l2, .. } && l2
                    == level) implies self.ranked(slot, l, q) && ((self.at_of(slot)->Slot_slot == ring) <==> self.tick_of(slot)
                / span == q) by {
                self.lemma_in_bounds(slot, lag);
                assert(self.placed_right(slot, lag));
                let tick = self.tick_of(slot);
                let r2 = self.at_of(slot)->Slot_slot as int;
                lemma_slots_ahead(passed + 1, tick / span, count);
                assert(self.levels@[l].bucket(r2).len() > 0);
                self.lemma_rank(slot, l, q);
                if r2 == r {
                    lemma_one_span_per_slot(passed as int, count, tick / span, q);
                }
            }
            assert(self.ranked(first, l, q));
            assert(self.tick_of(first) / span == q);
        }
        let exact: bool = match P::COARSE_QUERY {
            CoarseQuery::ExactMinimum => true,
            CoarseQuery::BucketBound => level == 0,
        };
        if !exact {
            // The bucket this slot represents cannot begin before this tick,
            // so nothing in it is due before then. How far before the tick the
            // truth can lie is what the rounding decided.
            let begins: u64 = self.levels[level].first_tick(quotient);
            let bound: Instant = tick_instant(self.start, begins, P::ROUNDING);
            if bound.nanos > floor.nanos {
                proof {
                    assert(self.answer_of(first, floor) == bound.nanos);
                    assert(self.slab.holds(first));
                }
                return Some(bound);
            }
            // In the last tick before this slot breaks down, the bound lands
            // on the cursor and says only "at or before now", which would have
            // a caller sleep for zero and wake straight back into the same
            // answer.
        }
        let minimum: Option<Instant> = self.earliest_in_slot(level, ring);
        proof {
            let m = minimum->0;
            let bucket = old(self).levels@[l].bucket(r);
            let i = choose|i: int| 0 <= i < bucket.len() && old(self).deadline_of(#[trigger] bucket[i]) == m;
            old(self).lemma_bucket_entry(Set::empty(), lag, l, r, i);
            assert(old(self).slab.holds(bucket[i]));
            assert(old(self).answer_of(bucket[i], floor) == m.nanos);
            assert forall|slot: SlotIndex| #[trigger]
                old(self).slab.holds(slot) && (old(self).at_of(slot) matches Position::Slot { level: l2, .. } && l2
                    == level) implies m.nanos <= old(self).answer_of(slot, floor) by {
                old(self).lemma_in_bounds(slot, lag);
                assert(old(self).ranked(slot, l, q));
                if old(self).tick_of(slot) / span == q {
                    let i2 = old(self).at_of(slot)->Slot_index as int;
                    assert(bucket[i2] == slot);
                } else {
                    old(self).lemma_outranked(first, slot, l, q);
                    assert(bucket[0] == first);
                }
            }
        }
        minimum
    }

    /// An entry's span is at or after `q`, and the entry is not due before its
    /// span begins.
    spec fn ranked(&self, slot: SlotIndex, level: int, q: int) -> bool {
        let span = self.levels@[level].span() as int;
        let first_tick = span_start(self.tick_of(slot), span);
        &&& q <= self.tick_of(slot) / span
        &&& q * span <= first_tick
        &&& earliest_at(self.start, q * span, P::ROUNDING) <= earliest_at(self.start, first_tick, P::ROUNDING)
            <= self.deadline_of(slot).nanos
    }

    proof fn lemma_rank(&self, slot: SlotIndex, level: int, q: int)
        requires
            self.shaped(),
            0 <= level < self.levels@.len(),
            q <= self.tick_of(slot) / (self.levels@[level].span() as int),
            q >= 1,
        ensures
            self.ranked(slot, level, q),
    {
        self.lemma_level_covers(level);
        let span = self.levels@[level].span() as int;
        let tick = self.tick_of(slot);
        vstd::arithmetic::div_mod::lemma_fundamental_div_mod(tick, span);
        vstd::arithmetic::div_mod::lemma_mod_bound(tick, span);
        assert((tick / span) * span <= tick) by (nonlinear_arith)
            requires
                tick == span * (tick / span) + tick % span,
                tick % span >= 0,
        ;
        assert(1 <= q * span <= (tick / span) * span) by (nonlinear_arith)
            requires
                1 <= q <= tick / span,
                span >= 1,
        ;
        lemma_not_before_tick(self.start, self.deadline_of(slot), span_start(tick, span), P::ROUNDING);
    }

    /// Everything in the earliest span is due before a later span can begin.
    proof fn lemma_outranked(&self, first: SlotIndex, slot: SlotIndex, level: int, q: int)
        requires
            self.shaped(),
            0 <= level < self.levels@.len(),
            q >= 1,
            self.tick_of(first) / (self.levels@[level].span() as int) == q,
            q < self.tick_of(slot) / (self.levels@[level].span() as int),
            self.ranked(slot, level, q),
        ensures
            self.deadline_of(first).nanos <= earliest_at(
                self.start,
                span_start(self.tick_of(slot), self.levels@[level].span() as int),
                P::ROUNDING,
            ),
    {
        self.lemma_level_covers(level);
        let span = self.levels@[level].span() as int;
        let early = self.tick_of(first);
        let late = self.tick_of(slot);
        vstd::arithmetic::div_mod::lemma_fundamental_div_mod(early, span);
        vstd::arithmetic::div_mod::lemma_mod_bound(early, span);
        vstd::arithmetic::div_mod::lemma_fundamental_div_mod(late, span);
        vstd::arithmetic::div_mod::lemma_mod_bound(late, span);
        assert(early < (late / span) * span <= late) by (nonlinear_arith)
            requires
                early == span * (early / span) + early % span,
                early % span < span,
                late == span * (late / span) + late % span,
                late % span >= 0,
                early / span + 1 <= late / span,
                span >= 1,
        ;
        assert(early >= 1) by (nonlinear_arith)
            requires
                early == span * (early / span) + early % span,
                early % span >= 0,
                early / span >= 1,
                span >= 1,
        ;
        lemma_not_after_tick(self.start, self.deadline_of(first), span_start(late, span), P::ROUNDING);
    }

    /// The earliest answer of all entries that are not due yet.
    pub open spec fn next_answer(&self, floor: Instant, answer: Instant) -> bool {
        &&& exists|key: Key| #[trigger]
            self.entries().contains_key(key) && self.answer(key, floor) == answer.nanos
        &&& forall|key: Key| #[trigger]
            self.entries().contains_key(key) ==> answer.nanos <= self.answer(key, floor)
        &&& forall|key: Key| #[trigger]
            self.entries().contains_key(key) ==> answer.nanos <= self.entries()[key].deadline.nanos
    }

    /// Nothing a caller can see has changed.
    pub open spec fn unchanged(&self, before: &Self) -> bool {
        &&& self.same_time(before)
        &&& self.entries() == before.entries()
        &&& self.due() == before.due()
        &&& self.spec_len() == before.spec_len()
        &&& self.insertions() == before.insertions()
        &&& self.next_position_usable() == before.next_position_usable()
        &&& forall|key: Key| #[trigger] self.issued(key) == before.issued(key)
        &&& forall|key: Key| #[trigger] self.level_of(key) == before.level_of(key)
    }

    /// The earliest deadline held, if any.
    ///
    /// Never later than the truth. A caller that sleeps on this answer must be
    /// able to trust that bound in one direction only: waking early costs one
    /// wasted poll, waking late is a missed deadline. Under
    /// [`CoarseQuery::BucketBound`] the answer for a coarse level is the
    /// earliest time anything in it *could* be due, which is deliberately
    /// early rather than exact.
    pub fn next_expiry(&mut self) -> (answer: Option<Instant>)
        requires
            old(self).wf(),
        ensures
            final(self).wf(),
            final(self).unchanged(old(self)),
            answer is None <==> old(self).spec_len() == 0,
            old(self).due().len() > 0 ==> answer is Some && answer->0.nanos == old(self).spec_start().nanos + old(
                self,
            ).spec_tick() * 1_000_000,
            old(self).due().len() == 0 ==> (answer matches Some(a) ==> old(self).next_answer(
                old(self).spec_advanced(),
                a,
            )),
    {
        let floor: Instant = self.advanced_to;
        let ghost lag = self.levels@.len() as int;
        proof {
            self.slab.lemma_handles();
            self.slab.lemma_len();
            assert(self.entries().dom() =~= self.slab@.dom());
            self.lemma_unchanged(self);
        }
        if self.expired.len() > 0 {
            proof {
                self.lemma_expired_entry(Set::empty(), lag, 0);
                let key = self.slab.id_of(self.expired@[0]);
                assert(key.spec_slot() == self.expired@[0]);
                assert(self.slab@.contains_key(key));
                assert(self.slab@.dom().contains(key));
            }
            return Some(tick_start(self.start, self.current_tick));
        }
        let mut best: Option<Instant> = None;
        let mut level: usize = 0;
        while level < self.levels.len()
            invariant
                level <= self.levels@.len(),
                lag == self.levels@.len(),
                old(self).wf(),
                self.wf(),
                self.looked_up(old(self)),
                best is None <==> forall|l: int| 0 <= l < level ==> (#[trigger] old(self).levels@[l]).vacant(),
                best matches Some(b) ==> {
                    &&& exists|slot: SlotIndex| #[trigger]
                        old(self).slab.holds(slot) && old(self).answer_of(slot, floor) == b.nanos
                    &&& forall|slot: SlotIndex| #[trigger]
                        old(self).slab.holds(slot) && (old(self).at_of(slot) matches Position::Slot { level: l, .. } && l
                            < level) ==> b.nanos <= old(self).answer_of(slot, floor)
                },
            decreases self.levels@.len() - level,
        {
            let ghost middle = *self;
            let found: Option<Instant> = self.next_in_level(level, floor);
            proof {
                let l = level as int;
                self.lemma_looked_up_chains(&middle, old(self));
                assert(middle.levels@[l].same_shape(&old(self).levels@[l]));
                assert(middle.levels@[l].vacant() <==> old(self).levels@[l].vacant()) by {
                    assert forall|ring: int| #[trigger] middle.levels@[l].bucket(ring) == old(self).levels@[l].bucket(
                        ring,
                    ) by {
                    }
                    if middle.levels@[l].vacant() {
                        assert forall|ring: int| 0 <= ring < old(self).levels@[l].count() implies (
                        #[trigger] old(self).levels@[l].bucket(ring)).len() == 0 by {
                            assert(middle.levels@[l].bucket(ring).len() == 0);
                        }
                    }
                }
                assert forall|slot: SlotIndex| #[trigger] old(self).slab.holds(slot) implies middle.answer_of(slot, floor)
                    == old(self).answer_of(slot, floor) by {
                }
                if old(self).levels@[l].vacant() {
                    assert forall|slot: SlotIndex| #[trigger] old(self).slab.holds(slot) implies !(old(self).at_of(slot) matches Position::Slot { level: l2, .. } && l2
                        == level) by {
                        old(self).lemma_in_bounds(slot, lag);
                    }
                }
            }
            best = sooner(best, found);
            level = level + 1;
        }
        let parked: Option<Instant> = match self.overflow.first_key() {
            Some(nanos) => Some(Instant { nanos }),
            None => None,
        };
        let answer: Option<Instant> = sooner(best, parked);
        proof {
            self.lemma_unchanged(old(self));
            assert forall|slot: SlotIndex| #[trigger] old(self).slab.holds(slot) implies (answer matches Some(a)
                && a.nanos <= old(self).answer_of(slot, floor)) by {
                old(self).lemma_in_bounds(slot, lag);
                assert(old(self).occupant(old(self).at_of(slot)) == Some(slot));
                assert(old(self).placed_right(slot, lag));
                match old(self).at_of(slot) {
                    Position::Slot { level: l, slot: r, .. } => {
                        assert(old(self).levels@[l as int].bucket(r as int).len() > 0);
                        assert(!old(self).levels@[l as int].vacant());
                    },
                    Position::Overflow { key: k, .. } => {
                        assert(old(self).overflow.bucket(k).len() > 0);
                    },
                    _ => {},
                }
            }
            if let Some(a) = answer {
                let slot = if best == Some(a) {
                    choose|slot: SlotIndex| #[trigger]
                        old(self).slab.holds(slot) && old(self).answer_of(slot, floor) == a.nanos
                } else {
                    old(self).overflow.bucket(a.nanos)[0]
                };
                if best != Some(a) {
                    old(self).lemma_parked_entry(Set::empty(), lag, a.nanos, 0);
                    assert(old(self).placed_right(slot, lag));
                }
                let key = old(self).slab.id_of(slot);
                assert(key.spec_slot() == slot);
                assert(old(self).slab@.contains_key(key));
                assert(old(self).entries().contains_key(key));
                assert(old(self).answer(key, floor) == a.nanos);
                assert(old(self).slab@.dom().contains(key));
                assert forall|key: Key| #[trigger] old(self).entries().contains_key(key) implies a.nanos
                    <= old(self).answer(key, floor) && a.nanos <= old(self).entries()[key].deadline.nanos by {
                    let slot = key.spec_slot();
                    assert(old(self).slab.holds(slot));
                    old(self).lemma_answer_not_late(slot, floor);
                }
            } else {
                assert(old(self).slab@.dom() =~= Set::<Key>::empty()) by {
                    assert forall|key: Key| !old(self).slab@.dom().contains(key) by {
                        if old(self).slab@.contains_key(key) {
                            assert(old(self).slab.holds(key.spec_slot()));
                        }
                    }
                }
            }
        }
        answer
    }

    /// What an entry is answered with is never later than its deadline.
    proof fn lemma_answer_not_late(&self, slot: SlotIndex, floor: Instant)
        requires
            self.wf(),
            self.slab.holds(slot),
        ensures
            self.answer_of(slot, floor) <= self.deadline_of(slot).nanos,
    {
        let lag = self.levels@.len() as int;
        self.lemma_in_bounds(slot, lag);
        assert(self.placed_right(slot, lag));
        if let Position::Slot { level, .. } = self.at_of(slot) {
            self.lemma_level_covers(level as int);
            let span = self.levels@[level as int].span() as int;
            vstd::arithmetic::div_mod::lemma_div_pos_is_pos(self.current_tick as int, span);
            self.lemma_rank(slot, level as int, self.tick_of(slot) / span);
            assert(self.level_shaped(level as int));
        }
    }

    proof fn lemma_looked_up_chains(&self, middle: &Self, before: &Self)
        requires
            self.looked_up(middle),
            middle.looked_up(before),
        ensures
            self.looked_up(before),
    {
        assert forall|level: int, ring: int|
            #![trigger self.levels@[level].bucket(ring)]
            0 <= level < self.levels@.len() implies self.levels@[level].bucket(ring)
            == before.levels@[level].bucket(ring) by {
            assert(middle.levels@[level].bucket(ring) == before.levels@[level].bucket(ring));
        }
        assert forall|level: int| 0 <= level < before.levels@.len() implies (
        #[trigger] self.levels@[level]).same_shape(&before.levels@[level]) by {
            assert(middle.levels@[level].same_shape(&before.levels@[level]));
        }
    }

    proof fn lemma_unchanged(&self, before: &Self)
        requires
            self.looked_up(before) || *self == *before,
        ensures
            self.unchanged(before),
    {
        assert(self.entries() =~= before.entries());
        assert(self.due() =~= before.due());
    }
}

} // verus!
