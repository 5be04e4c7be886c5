//! What holds of a wheel however it is driven.

use super::query::span_start;
use super::{Held, Key, TimingWheel};
use crate::timer::slab::SlotIndex;
use crate::timer::time::Instant;
use crate::timer::wheel::placing::{lemma_sunk_bounds, lemma_sunk_chains};
use crate::timer::wheel::policy::{level_fits, CoarseQuery, Overflow, Policy, Rounding};
use crate::timer::wheel::ticks::{elapsed_ticks, lemma_not_before_tick};
use vstd::arithmetic::power2::is_pow2;
use vstd::prelude::*;

verus! {

/// A deadline stored at a tick lies less than this past the tick, in
/// nanoseconds.
pub open spec fn earliness(rounding: Rounding) -> int {
    match rounding {
        Rounding::Up => 1,
        Rounding::Nearest => 500_000,
        Rounding::Down => 1_000_000,
    }
}

/// What was asked of a wheel, and what came of it.
pub ghost enum Call<T> {
    /// An entry was registered, under a handle, or refused.
    Insert {
        /// When it is due.
        deadline: Instant,
        /// What it carries.
        payload: T,
        /// Its handle, unless it was refused.
        handle: Option<Key>,
    },
    /// An entry was to be withdrawn.
    Remove {
        /// Its handle.
        key: Key,
    },
    /// Time moved.
    Advance {
        /// To here.
        now: Instant,
    },
    /// What had come due was taken.
    Drain,
    /// It was asked what is due next.
    Ask,
}

impl<T, P: Policy> TimingWheel<T, P> {
    /// The wheel is what a call made of `before`.
    pub open spec fn after_call(&self, before: &Self, call: Call<T>) -> bool {
        match call {
            Call::Insert { deadline, payload, handle } => match handle {
                Some(key) => !before.refuses(deadline) && self.inserted(before, key, deadline, payload),
                None => before.refuses(deadline) && *self == *before,
            },
            Call::Remove { key } => self.removed(before, key),
            Call::Advance { now } => if now.nanos <= before.spec_start().nanos {
                *self == *before
            } else {
                self.advanced(before, now)
            },
            Call::Drain => self.drained(before),
            Call::Ask => self.unchanged(before),
        }
    }

    /// By how much a call changes how many entries are held.
    pub open spec fn change(&self, call: Call<T>) -> int {
        match call {
            Call::Insert { handle, .. } => if handle is Some {
                1
            } else {
                0
            },
            Call::Remove { key } => if self.entries().contains_key(key) {
                -1
            } else {
                0
            },
            Call::Drain => -(self.due().len() as int),
            _ => 0,
        }
    }

    /// By how much a row of calls changes how many entries are held: those
    /// registered, less those withdrawn, less those taken.
    pub open spec fn total_change(states: Seq<Self>, calls: Seq<Call<T>>) -> int
        decreases calls.len(),
    {
        if calls.len() == 0 {
            0
        } else {
            Self::total_change(states.drop_last(), calls.drop_last()) + states[calls.len() - 1].change(calls.last())
        }
    }

    /// However a wheel is driven, and whatever its policy, it holds what was
    /// registered and was neither withdrawn nor taken: nothing is lost and
    /// nothing counted twice.
    pub proof fn law_number_held(states: Seq<Self>, calls: Seq<Call<T>>)
        requires
            states.len() == calls.len() + 1,
            forall|i: int| 0 <= i < calls.len() ==> states[i + 1].after_call(&states[i], #[trigger] calls[i]),
        ensures
            states.last().spec_len() == states[0].spec_len() + Self::total_change(states, calls),
        decreases calls.len(),
    {
        if calls.len() > 0 {
            let fewer = states.drop_last();
            let shorter = calls.drop_last();
            assert forall|i: int| 0 <= i < shorter.len() implies fewer[i + 1].after_call(&fewer[i], #[trigger] shorter[i]) by {
                assert(shorter[i] == calls[i]);
            }
            Self::law_number_held(fewer, shorter);
            let i = calls.len() - 1;
            assert(states[i + 1].after_call(&states[i], calls[i]));
            assert(fewer.last() == states[i]);
        }
    }

    /// The wheel's clock stands at the whole tick that the time last told
    /// falls in, less than a millisecond behind it.
    pub proof fn law_clock(&self)
        requires
            self.wf(),
        ensures
            self.spec_tick() == elapsed_ticks(self.spec_start(), self.spec_advanced()),
            self.spec_start().nanos + self.spec_tick() * 1_000_000 <= self.spec_advanced().nanos,
            self.spec_advanced().nanos < self.spec_start().nanos + self.spec_tick() * 1_000_000 + 1_000_000,
    {
    }

    /// Nothing comes due before its deadline by more than the rounding allows.
    /// What is due has a deadline that has passed, or one that lies less than
    /// half a tick past the wheel's clock where deadlines are rounded to the
    /// nearest, and less than a tick past it where they are rounded down.
    pub proof fn law_not_early(&self, key: Key)
        requires
            self.wf(),
            self.due().contains(key),
        ensures
            self.entries().contains_key(key),
            self.entries()[key].deadline.nanos <= self.spec_advanced().nanos || self.entries()[key].deadline.nanos
                < self.spec_start().nanos + self.spec_tick() * 1_000_000 + earliness(P::ROUNDING),
            P::ROUNDING == Rounding::Up ==> self.entries()[key].deadline.nanos <= self.spec_advanced().nanos,
    {
        let lag = self.levels@.len() as int;
        self.lemma_due_list();
        self.slab.lemma_handles();
        let slot: SlotIndex = key.spec_slot();
        assert(self.slab.holds(slot));
        assert(self.placed_right(slot, lag));
        self.lemma_level_covers(0);
    }

    /// What is not due yet has a deadline past the wheel's clock, by as much as
    /// an entry that is due by its tick falls short of.
    pub proof fn law_pending_is_ahead(&self, key: Key)
        requires
            self.wf(),
            self.entries().contains_key(key),
            !self.due().contains(key),
        ensures
            self.entries()[key].deadline.nanos >= self.spec_start().nanos + self.spec_tick() * 1_000_000 + earliness(
                P::ROUNDING,
            ),
    {
        if self.tick_at(self.entries()[key].deadline) <= self.spec_tick() {
            self.law_reached_is_due(key);
        }
    }

    /// An entry in a slot is held and not due, and its level covers it: the
    /// cursor has not reached its span, and is less than a revolution away.
    pub proof fn law_level_window(&self, key: Key)
        requires
            self.wf(),
            self.level_of(key) is Some,
        ensures
            ({
                let level = self.level_of(key)->0;
                let tick = self.tick_at(self.entries()[key].deadline);
                let span = P::resolution_model()[level] as int;
                let count = P::slots_model()[level] as int;
                &&& self.entries().contains_key(key)
                &&& !self.due().contains(key)
                &&& 0 <= level < P::slots_model().len()
                &&& self.spec_tick() as int / span < tick / span <= self.spec_tick() as int / span + count
                &&& self.spec_tick() < tick < self.spec_tick() + span * count
                &&& tick < self.spec_tick() + Self::spec_reach()
            }),
    {
        let lag = self.levels@.len() as int;
        self.lemma_due_list();
        self.slab.lemma_handles();
        let slot: SlotIndex = key.spec_slot();
        assert(self.slab.holds(slot));
        self.lemma_in_bounds(slot, lag);
        assert(self.placed_right(slot, lag));
        self.lemma_after_cursor(slot);
        assert(self.level_shaped(self.level_of(key)->0));
    }

    /// An entry that is in no slot is due, or parked beyond the wheel's reach.
    pub proof fn law_level_or_parked(&self, key: Key)
        requires
            self.wf(),
            self.entries().contains_key(key),
            !self.due().contains(key),
        ensures
            self.level_of(key) is None <==> self.tick_at(self.entries()[key].deadline) - self.spec_tick()
                >= Self::spec_reach(),
    {
        let lag = self.levels@.len() as int;
        self.lemma_due_list();
        self.slab.lemma_handles();
        let slot: SlotIndex = key.spec_slot();
        assert(self.slab.holds(slot));
        assert(self.placed_right(slot, lag));
        assert(self.occupant(self.at_of(slot)) == Some(slot));
        if self.at_of(slot) is Slot {
            self.lemma_after_cursor(slot);
        }
        if self.at_of(slot) is Overflow {
            let parked = self.at_of(slot)->key;
            assert(self.overflow.bucket(parked).len() > 0);
            assert(Instant { nanos: parked } == self.deadline_of(slot));
        }
    }

    /// Advancing in two steps comes to the same as advancing in one: the same
    /// time, the same entries, the same of them due, and each that was in a
    /// slot at the same level.
    pub proof fn law_advancing_in_two_steps(
        before: &Self,
        middle: &Self,
        twice: &Self,
        once: &Self,
        halfway: Instant,
        now: Instant,
    )
        requires
            before.wf(),
            before.spec_start().nanos < halfway.nanos <= now.nanos,
            middle.advanced(before, halfway),
            twice.advanced(middle, now),
            once.advanced(before, now),
        ensures
            twice.spec_start() == once.spec_start(),
            twice.spec_tick() == once.spec_tick(),
            twice.spec_advanced() == once.spec_advanced(),
            twice.entries() == once.entries(),
            twice.spec_len() == once.spec_len(),
            forall|key: Key| #[trigger] twice.issued(key) == once.issued(key),
            forall|key: Key|
                once.entries().contains_key(key) ==> #[trigger] twice.due().contains(key) == once.due().contains(key),
            forall|key: Key| #[trigger] before.level_of(key) is Some ==> twice.level_of(key) == once.level_of(key),
    {
        assert forall|key: Key| #[trigger] twice.issued(key) == once.issued(key) by {
            assert(middle.issued(key) == before.issued(key));
        }
        assert forall|key: Key| once.entries().contains_key(key) implies #[trigger] twice.due().contains(key)
            == once.due().contains(key) by {
            assert(middle.entries().contains_key(key));
            assert(twice.entries().contains_key(key));
        }
        assert forall|key: Key| #[trigger] before.level_of(key) is Some implies twice.level_of(key) == once.level_of(
            key,
        ) by {
            before.law_level_window(key);
            let was = before.level_of(key)->0;
            let tick = once.tick_at(once.entries()[key].deadline);
            assert(once.entries().contains_key(key));
            assert(middle.entries().contains_key(key));
            assert(twice.entries().contains_key(key));
            assert(twice.due().contains(key) == once.due().contains(key));
            assert(before.shaped());
            if !once.due().contains(key) {
                assert(!middle.due().contains(key));
                assert(middle.level_of(key) is Some);
                assert(middle.moved_down(before, key, middle.level_of(key)->0));
                assert(twice.level_of(key) is Some);
                assert(twice.moved_down(middle, key, twice.level_of(key)->0));
                assert(once.level_of(key) is Some);
                assert(once.moved_down(before, key, once.level_of(key)->0));
                lemma_sunk_chains(
                    P::slots_model(),
                    P::resolution_model(),
                    was,
                    tick,
                    middle.spec_tick() as int,
                    twice.spec_tick() as int,
                );
            } else {
                if once.level_of(key) is Some {
                    assert(once.moved_down(before, key, once.level_of(key)->0));
                }
                if twice.level_of(key) is Some {
                    assert(twice.moved_down(middle, key, twice.level_of(key)->0));
                }
            }
        }
    }

    /// Time only ever moves an entry to a finer level, and an entry whose span
    /// the cursor has not entered stays where it is.
    pub proof fn law_entries_only_sink(&self, before: &Self, now: Instant, key: Key)
        requires
            before.wf(),
            self.advanced(before, now),
            before.level_of(key) is Some,
        ensures
            self.level_of(key) matches Some(level) ==> 0 <= level <= before.level_of(key)->0,
            ({
                let span = P::resolution_model()[before.level_of(key)->0] as int;
                let tick = self.tick_at(self.entries()[key].deadline);
                self.spec_tick() as int / span < tick / span && !self.due().contains(key) ==> self.level_of(key)
                    == before.level_of(key)
            }),
    {
        before.law_level_window(key);
        let tick = self.tick_at(self.entries()[key].deadline);
        assert(self.entries().contains_key(key));
        assert(before.shaped());
        lemma_sunk_bounds(
            P::slots_model(),
            P::resolution_model(),
            before.level_of(key)->0,
            tick,
            self.spec_tick() as int,
        );
        if self.level_of(key) is Some {
            assert(self.moved_down(before, key, self.level_of(key)->0));
        }
    }

    /// A caller that moves time forward, takes what is due and sleeps until
    /// the answer never wakes to the time it already has.
    pub proof fn law_polling_moves_on(before: &Self, told: &Self, taken: &Self, now: Instant, answer: Instant)
        requires
            Self::spec_reach() > 1,
            before.wf(),
            before.spec_advanced().nanos <= now.nanos,
            told.wf(),
            told.after_call(before, Call::Advance { now }),
            taken.drained(told),
            taken.next_answer(taken.spec_advanced(), answer),
        ensures
            answer.nanos > now.nanos,
    {
        told.law_due_is_live();
        before.law_clock();
        assert forall|key: Key| #[trigger] taken.entries().contains_key(key) implies taken.entries()[key].deadline.nanos
            > taken.spec_advanced().nanos by {
            assert(told.entries().contains_key(key));
            assert(!told.due().contains(key)) by {
                if told.due().contains(key) {
                    assert(told.due().to_set().contains(key));
                }
            }
            told.law_pending_is_ahead(key);
        }
        taken.law_answer_is_ahead(answer);
    }

    /// A deadline is refused exactly where it is beyond the wheel's reach and
    /// the policy says so; where the policy parks such deadlines, none is.
    pub proof fn law_refusal(&self, deadline: Instant)
        ensures
            P::OVERFLOW == Overflow::Park ==> !self.refuses(deadline),
            self.refuses(deadline) <==> P::OVERFLOW == Overflow::Reject && self.tick_at(deadline)
                >= self.spec_tick() + Self::spec_reach(),
    {
    }

    /// What is due next goes by deadlines and levels alone: what the entries
    /// carry has no bearing on it.
    pub proof fn law_answer_goes_by_deadlines(&self, before: &Self, floor: Instant, answer: Instant)
        requires
            self.spec_start() == before.spec_start(),
            self.entries().dom() == before.entries().dom(),
            forall|key: Key| #[trigger]
                self.entries().contains_key(key) ==> self.entries()[key].deadline == before.entries()[key].deadline,
            forall|key: Key| #[trigger] self.level_of(key) == before.level_of(key),
        ensures
            self.next_answer(floor, answer) == before.next_answer(floor, answer),
    {
        assert forall|key: Key| #[trigger] self.entries().contains_key(key) == before.entries().contains_key(key) by {
            assert(self.entries().dom().contains(key) == before.entries().dom().contains(key));
        }
        assert forall|key: Key| #[trigger] self.entries().contains_key(key) implies self.answer(key, floor)
            == before.answer(key, floor) by {
            assert(self.level_of(key) == before.level_of(key));
        }
        if before.next_answer(floor, answer) {
            let key = choose|key: Key| #[trigger]
                before.entries().contains_key(key) && before.answer(key, floor) == answer.nanos;
            assert(self.entries().contains_key(key));
        }
        if self.next_answer(floor, answer) {
            let key = choose|key: Key| #[trigger]
                self.entries().contains_key(key) && self.answer(key, floor) == answer.nanos;
            assert(before.entries().contains_key(key));
        }
    }

    /// An entry that is registered and withdrawn leaves nothing behind: the
    /// same entries are held, the same are due, and the same is due next.
    pub proof fn law_withdrawing_undoes_registering(
        before: &Self,
        registered: &Self,
        after: &Self,
        key: Key,
        deadline: Instant,
        payload: T,
    )
        requires
            before.wf(),
            registered.inserted(before, key, deadline, payload),
            after.removed(registered, key),
        ensures
            after.same_time(before),
            after.entries() == before.entries(),
            after.spec_len() == before.spec_len(),
            after.due() == before.due(),
            forall|other: Key| #[trigger] after.level_of(other) == before.level_of(other),
            forall|floor: Instant, answer: Instant| #[trigger]
                after.next_answer(floor, answer) == before.next_answer(floor, answer),
    {
        if before.entries().contains_key(key) {
            before.law_live_is_issued(key);
        }
        before.law_due_is_live();
        assert(after.entries() =~= before.entries());
        if registered.due().contains(key) {
            let i = choose|i: int|
                0 <= i < registered.due().len() && #[trigger] registered.due()[i] == key && after.due()
                    == registered.due().update(i, registered.due().last()).drop_last();
            if i < before.due().len() {
                assert(before.due()[i] == key);
                assert(before.due().contains(key));
            }
            assert(after.due() =~= before.due());
        } else {
            if before.tick_at(deadline) <= before.spec_tick() {
                assert(registered.due()[before.due().len() as int] == key);
            }
        }
        assert forall|other: Key| #[trigger] after.level_of(other) == before.level_of(other) by {
            assert(registered.level_of(other) == if other == key {
                before.level_for(deadline)
            } else {
                before.level_of(other)
            });
            if before.level_of(key) is Some {
                before.law_level_window(key);
            }
        }
        assert forall|floor: Instant, answer: Instant| #[trigger] after.next_answer(floor, answer)
            == before.next_answer(floor, answer) by {
            after.law_answer_goes_by_deadlines(before, floor, answer);
        }
    }

    /// Nothing is late: once the wheel is told a time, everything whose
    /// deadline has passed by then is on the list of what is due.
    pub proof fn law_not_late(&self, before: &Self, now: Instant, key: Key)
        requires
            self.advanced(before, now),
            Self::spec_reach() > 1,
            before.entries().contains_key(key),
            before.entries()[key].deadline.nanos <= now.nanos,
        ensures
            self.due().contains(key),
    {
        assert(self.entries().contains_key(key));
    }

    /// A handle survives the passing of time, however often its entry moves,
    /// until it is withdrawn or drained.
    pub proof fn law_handles_survive_time(&self, before: &Self, now: Instant, key: Key)
        requires
            self.advanced(before, now),
        ensures
            self.entries().contains_key(key) == before.entries().contains_key(key),
            self.entries().contains_key(key) ==> self.entries()[key] == before.entries()[key],
    {
    }

    /// Every live handle was handed out by the wheel.
    pub proof fn law_live_is_issued(&self, key: Key)
        requires
            self.wf(),
            self.entries().contains_key(key),
        ensures
            self.issued(key),
    {
        self.slab.lemma_live_is_issued(key);
    }

    /// A handle whose entry is gone never names another: whatever is
    /// registered afterwards gets a handle of its own.
    pub proof fn law_spent_handles_stay_spent(
        &self,
        before: &Self,
        spent: Key,
        key: Key,
        deadline: Instant,
        payload: T,
    )
        requires
            before.issued(spent),
            !before.entries().contains_key(spent),
            self.inserted(before, key, deadline, payload),
        ensures
            key != spent,
            !self.entries().contains_key(spent),
            self.issued(spent),
    {
    }

    /// What was put in under a handle is what comes out under it.
    pub proof fn law_reads_back(
        &self,
        before: &Self,
        key: Key,
        deadline: Instant,
        payload: T,
    )
        requires
            self.inserted(before, key, deadline, payload),
        ensures
            self.entries().contains_key(key),
            self.entries()[key] == (Held { deadline, payload }),
            forall|other: Key|
                other != key ==> self.entries().contains_key(other) == before.entries().contains_key(other),
            forall|other: Key| #[trigger]
                before.entries().contains_key(other) && other != key ==> self.entries()[other] == before.entries()[other],
    {
    }

    /// The list of what is due names live entries, each once.
    pub proof fn law_due_is_live(&self)
        requires
            self.wf(),
        ensures
            self.due().no_duplicates(),
            forall|key: Key| #[trigger] self.due().contains(key) ==> self.entries().contains_key(key),
    {
        self.lemma_due_list();
    }

    /// An entry whose tick has been reached is on the list of what is due;
    /// none waits in a slot past its tick.
    pub proof fn law_reached_is_due(&self, key: Key)
        requires
            self.wf(),
            self.entries().contains_key(key),
            self.tick_at(self.entries()[key].deadline) <= self.spec_tick(),
        ensures
            self.due().contains(key),
    {
        let lag = self.levels@.len() as int;
        self.lemma_due_list();
        self.slab.lemma_handles();
        let slot: SlotIndex = key.spec_slot();
        assert(self.slab.holds(slot));
        assert(self.placed_right(slot, lag));
        assert(self.occupant(self.at_of(slot)) == Some(slot));
        self.lemma_level_covers(0);
        if self.at_of(slot) is Slot {
            self.lemma_after_cursor(slot);
        }
        if self.at_of(slot) is Overflow {
            let parked = self.at_of(slot)->key;
            assert(self.overflow.bucket(parked).len() > 0);
            assert(Instant { nanos: parked } == self.deadline_of(slot));
        }
    }

    /// Where minima are tracked, the answer to what is due next is exact.
    pub proof fn law_exact_minimum(&self, floor: Instant, answer: Instant)
        requires
            P::COARSE_QUERY == CoarseQuery::ExactMinimum,
            self.next_answer(floor, answer),
        ensures
            exists|key: Key| #[trigger]
                self.entries().contains_key(key) && self.entries()[key].deadline.nanos == answer.nanos,
            forall|key: Key| #[trigger]
                self.entries().contains_key(key) ==> answer.nanos <= self.entries()[key].deadline.nanos,
    {
        let key = choose|key: Key| #[trigger]
            self.entries().contains_key(key) && self.answer(key, floor) == answer.nanos;
        assert(self.entries()[key].deadline.nanos == answer.nanos);
    }

    /// A caller that sleeps until the answer does not spin: while every
    /// deadline is ahead of the time the wheel was told, so is the answer.
    pub proof fn law_answer_is_ahead(&self, answer: Instant)
        requires
            self.next_answer(self.spec_advanced(), answer),
            forall|key: Key| #[trigger]
                self.entries().contains_key(key) ==> self.entries()[key].deadline.nanos > self.spec_advanced().nanos,
        ensures
            answer.nanos > self.spec_advanced().nanos,
    {
    }

    /// What an entry is answered with is never later than its deadline, and
    /// earlier by no more than the span of the slot it is in: where the levels
    /// answer exactly, and at the finest level and beyond the wheel's reach in
    /// any case, it is the deadline itself.
    pub proof fn law_answers_are_close(&self, key: Key, floor: Instant)
        requires
            self.wf(),
            self.entries().contains_key(key),
            self.tick_at(self.entries()[key].deadline) < u64::MAX,
        ensures
            self.answer(key, floor) <= self.entries()[key].deadline.nanos,
            self.level_of(key) is None || self.level_of(key) == Some(0int) || P::COARSE_QUERY == CoarseQuery::ExactMinimum
                ==> self.answer(key, floor) == self.entries()[key].deadline.nanos,
            self.level_of(key) matches Some(level) ==> self.entries()[key].deadline.nanos - self.answer(key, floor)
                <= P::resolution_model()[level] * 1_000_000,
    {
        let deadline = self.entries()[key].deadline;
        if self.level_of(key) is Some {
            let level = self.level_of(key)->0;
            let tick = self.tick_at(deadline);
            let span = P::resolution_model()[level] as int;
            let cursor = self.spec_tick() as int;
            self.law_level_window(key);
            assert(span > 0 && span_start(tick, span) >= 1 && span_start(tick, span) <= tick < span_start(tick, span) + span)
                by {
                assert(level_fits(P::slots_model(), P::resolution_model(), level)) by {
                    assert(self.shaped());
                }
                assert(is_pow2(span));
                reveal_with_fuel(is_pow2, 1);
                assert(span > 0);
                vstd::arithmetic::div_mod::lemma_fundamental_div_mod(tick, span);
                vstd::arithmetic::div_mod::lemma_mod_bound(tick, span);
                vstd::arithmetic::div_mod::lemma_div_pos_is_pos(cursor, span);
                assert((tick / span) * span == span * (tick / span)) by (nonlinear_arith);
                assert((tick / span) * span >= 1) by (nonlinear_arith)
                    requires
                        tick / span >= 1,
                        span >= 1,
                ;
            }
            lemma_not_before_tick(self.spec_start(), deadline, span_start(tick, span), P::ROUNDING);
        }
    }

    /// Two entries of one slot of a coarse level are answered alike, where the
    /// level answers by position: when the slot's span could begin to come due,
    /// if that is still ahead.
    pub proof fn law_a_slot_is_answered_as_one(&self, a: Key, b: Key, floor: Instant)
        requires
            P::COARSE_QUERY == CoarseQuery::BucketBound,
            self.level_of(a) == self.level_of(b),
            self.level_of(a) matches Some(level) && level > 0,
            ({
                let span = P::resolution_model()[self.level_of(a)->0] as int;
                self.tick_at(self.entries()[a].deadline) / span == self.tick_at(self.entries()[b].deadline) / span
            }),
            self.answer(a, floor) != self.entries()[a].deadline.nanos,
        ensures
            self.answer(a, floor) == self.answer(b, floor),
            self.answer(a, floor) > floor.nanos,
    {
    }

    /// Taking what is due takes exactly that: each entry on the list goes, and
    /// every other stays as it is.
    pub proof fn law_draining_takes_what_is_due(&self, before: &Self, key: Key)
        requires
            before.wf(),
            self.drained(before),
        ensures
            before.due().contains(key) ==> !self.entries().contains_key(key),
            !before.due().contains(key) ==> self.entries().contains_key(key) == before.entries().contains_key(key),
            self.entries().contains_key(key) ==> self.entries()[key] == before.entries()[key],
            self.due().len() == 0,
            before.due_payloads().len() == before.due().len(),
            forall|i: int|
                0 <= i < before.due().len() ==> (#[trigger] before.due_payloads()[i]).0 == before.due()[i]
                    && before.due_payloads()[i].1 == before.entries()[before.due()[i]].payload,
    {
        assert(before.due().to_set().contains(key) == before.due().contains(key));
    }

    /// Sleeping until the answer misses nothing.
    pub proof fn law_answer_is_not_late(&self, floor: Instant, answer: Instant, key: Key)
        requires
            self.next_answer(floor, answer),
            self.entries().contains_key(key),
        ensures
            answer.nanos <= self.entries()[key].deadline.nanos,
    {
    }
}

} // verus!
