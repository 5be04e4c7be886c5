//! The reactor's view of the timer wheel.
//!
//! Thin on purpose. The wheel owns its entries and knows where each one sits,
//! so this layer holds no index of its own and never scans the population to
//! answer when the next timer is due.

use super::slab::TimerId;
use super::time::{Duration, Instant};
use super::timing_wheel::TimingWheel;
use super::wheel::policy::lemma_millis_tiles;
use super::wheel::ticks::{countable, elapsed_ticks};
use super::wheel::timing::{self, Held, Key};
use super::wheel::Millis;
use vstd::prelude::*;

verus! {

/// The reactor's timers. `W` is what a timer wakes.
pub struct ReactorTimers<W> {
    wheel: TimingWheel<W>,
    /// Kept across polls so that draining a batch of expiries allocates
    /// nothing. Always empty between calls.
    expired: Vec<(TimerId, W)>,
}

impl<W> ReactorTimers<W> {
    /// The wheel the timers are in.
    pub closed spec fn model(&self) -> timing::TimingWheel<W, Millis> {
        self.wheel.model()
    }

    /// No batch is left over.
    pub closed spec fn emptied(&self) -> bool {
        self.expired@.len() == 0
    }

    /// The wheel is consistent and no batch is left over.
    pub open spec fn wf(&self) -> bool {
        self.model().wf() && self.emptied()
    }

    /// No timers yet, at a time the caller reads off its clock.
    pub fn new(now: Instant) -> (timers: Self)
        requires
            countable(now),
        ensures
            timers.wf(),
            timers.model().spec_start() == now,
            timers.model().spec_tick() == 0,
            timers.model().spec_advanced() == now,
            timers.model().entries() == Map::<Key, Held<W>>::empty(),
            timers.model().due() == Seq::<Key>::empty(),
            timers.model().spec_len() == 0,
            timers.model().insertions() == 0,
            timers.model().spec_ticks_processed() == 0,
            forall|key: Key| !#[trigger] timers.model().issued(key),
    {
        ReactorTimers { wheel: TimingWheel::new(now), expired: Vec::new() }
    }

    /// Registers a timer, returning a handle that stays valid however many
    /// times the timer cascades.
    pub fn insert(&mut self, expires_at: Instant, waker: W) -> (id: TimerId)
        requires
            old(self).wf(),
            old(self).model().has_room(),
        ensures
            final(self).wf(),
            final(self).model().inserted(&old(self).model(), id, expires_at, waker),
    {
        self.wheel.insert(expires_at, waker)
    }

    /// Withdraws a timer, handing back its waker. `None` if it has already
    /// fired.
    pub fn remove(&mut self, id: TimerId) -> (waker: Option<W>)
        requires
            old(self).wf(),
        ensures
            final(self).wf(),
            waker == if old(self).model().entries().contains_key(id) {
                Some(old(self).model().entries()[id].payload)
            } else {
                None
            },
            final(self).model().removed(&old(self).model(), id),
    {
        self.wheel.remove(id)
    }

    /// Whether a handle still names a live timer.
    pub fn contains(&self, id: TimerId) -> (live: bool)
        ensures
            live <==> self.model().entries().contains_key(id),
    {
        self.wheel.contains(id)
    }

    /// `fired` are the timers a poll at `now` takes: what was due before, and
    /// exactly what has come due since.
    pub open spec fn fires(&self, before: &Self, now: Instant, fired: Seq<Key>) -> bool {
        &&& fired.no_duplicates()
        &&& before.model().due().len() <= fired.len()
        &&& fired.take(before.model().due().len() as int) == before.model().due()
        &&& forall|key: Key| #[trigger]
            fired.contains(key) <==> before.model().entries().contains_key(key) && (before.model().due().contains(key)
                || now.nanos > before.model().spec_start().nanos && self.model().comes_due(
                before.model().entries()[key].deadline,
                now,
            ))
        &&& self.model().entries() == before.model().entries().remove_keys(fired.to_set())
        &&& self.model().spec_len() == before.model().spec_len() - fired.len()
    }

    /// Time moved to `now`, and then what was due was taken.
    pub open spec fn polled(&self, before: &Self, now: Instant) -> bool {
        if now.nanos <= before.model().spec_start().nanos {
            self.model().drained(&before.model())
        } else {
            exists|told: timing::TimingWheel<W, Millis>| #[trigger]
                told.advanced(&before.model(), now) && self.model().drained(&told)
        }
    }

    /// What the timers in `fired` wake, in that order.
    pub open spec fn wakers_of(&self, fired: Seq<Key>) -> Seq<W> {
        Seq::new(fired.len(), |i: int| self.model().entries()[fired[i]].payload)
    }

    /// Expires what is due, hands back the wakers, and says how long to sleep.
    ///
    /// Wakers are returned rather than woken here. The caller holds the
    /// reactor's timers for the duration of this call, and waking under that
    /// would let a waker that touches a timer re-enter.
    pub fn process_timers(&mut self, now: Instant, wakers: &mut Vec<W>) -> (sleep: Option<Duration>)
        requires
            old(self).wf(),
            elapsed_ticks(old(self).model().spec_start(), now) + 67_108_864 <= u64::MAX,
        ensures
            final(self).wf(),
            final(self).model().spec_start() == old(self).model().spec_start(),
            final(self).model().spec_tick() == if now.nanos > old(self).model().spec_start().nanos
                && old(self).model().spec_tick() <= elapsed_ticks(old(self).model().spec_start(), now) {
                elapsed_ticks(old(self).model().spec_start(), now)
            } else {
                old(self).model().spec_tick() as int
            },
            final(self).model().spec_advanced() == if now.nanos > old(self).model().spec_start().nanos && old(
                self,
            ).model().spec_advanced().nanos <= now.nanos {
                now
            } else {
                old(self).model().spec_advanced()
            },
            final(self).model().due() == Seq::<Key>::empty(),
            final(self).model().insertions() == old(self).model().insertions(),
            forall|other: Key| #[trigger]
                final(self).model().issued(other) == old(self).model().issued(other),
            final(self).polled(old(self), now),
            exists|fired: Seq<Key>| #[trigger]
                final(self).fires(old(self), now, fired) && final(wakers)@ == old(wakers)@ + old(
                    self,
                ).wakers_of(fired),
            sleep is None <==> final(self).model().spec_len() == 0,
            sleep matches Some(span) ==> exists|next: Instant| #[trigger]
                final(self).model().next_answer(final(self).model().spec_advanced(), next) && span.nanos == if now.nanos
                    <= next.nanos {
                    next.nanos - now.nanos
                } else {
                    0
                },
            sleep matches Some(span) ==> forall|key: Key| #[trigger]
                final(self).model().entries().contains_key(key) ==> span.nanos == 0 || now.nanos + span.nanos <= final(self).model().entries()[key].deadline.nanos,
            forall|key: Key| #[trigger]
                final(self).model().entries().contains_key(key) ==> old(self).model().entries().contains_key(key)
                    && final(self).model().entries()[key] == old(self).model().entries()[key]
                    && final(self).model().entries()[key].deadline.nanos > now.nanos,
            forall|key: Key| #[trigger]
                old(self).model().entries().contains_key(key) && old(self).model().entries()[key].deadline.nanos > now.nanos
                    && old(self).model().entries()[key].deadline.nanos > old(self).model().spec_advanced().nanos ==> final(self).model().entries().contains_key(key),
    {
        self.wheel.advance_to(now);
        let ghost told = self.wheel;
        let ghost fired = told.model().due();
        proof {
            lemma_millis_tiles();
            old(self).model().law_due_is_live();
            told.model().law_due_is_live();
            if now.nanos <= old(self).model().spec_start().nanos {
                assert(told.model() == old(self).model());
                assert(fired.take(old(self).model().due().len() as int) =~= old(self).model().due());
            }
        }
        self.wheel.drain_expired_into(&mut self.expired);
        let mut batch: Vec<(TimerId, W)> = Vec::new();
        core::mem::swap(&mut batch, &mut self.expired);
        let ghost before = wakers@;
        let ghost payloads = batch@;
        assert(payloads =~= told.model().due_payloads());
        for pair in it: batch
            invariant
                it.seq() == payloads,
                wakers@ == before + Seq::new(it.index() as nat, |i: int| payloads[i].1),
        {
            let ghost shorter = wakers@;
            wakers.push(pair.1);
            assert(wakers@ =~= before + Seq::new((it.index() + 1) as nat, |i: int| payloads[i].1));
        }
        proof {
            assert(wakers@ =~= before + old(self).wakers_of(fired));
        }
        let answer: Option<Instant> = self.wheel.next_expiry();
        proof {
            assert(self.model().entries() =~= old(self).model().entries().remove_keys(fired.to_set()));
            assert(self.fires(old(self), now, fired));
            assert(self.model().drained(&told.model()));
            assert forall|key: Key| #[trigger] self.model().entries().contains_key(key) implies old(
                self,
            ).model().entries()[key].deadline.nanos > now.nanos by {
                self.model().law_draining_takes_what_is_due(&told.model(), key);
                old(self).model().law_clock();
                if now.nanos <= old(self).model().spec_start().nanos {
                    if old(self).model().tick_at(old(self).model().entries()[key].deadline) <= old(self).model().spec_tick() {
                        old(self).model().law_reached_is_due(key);
                    }
                } else if old(self).model().entries()[key].deadline.nanos <= now.nanos {
                    told.model().law_not_late(&old(self).model(), now, key);
                }
            }
            assert forall|key: Key| #[trigger] old(self).model().entries().contains_key(key) && old(
                self,
            ).model().entries()[key].deadline.nanos > now.nanos && old(self).model().entries()[key].deadline.nanos > old(
                self,
            ).model().spec_advanced().nanos implies self.model().entries().contains_key(key) by {
                self.model().law_draining_takes_what_is_due(&told.model(), key);
                if told.model().due().contains(key) {
                    told.model().law_not_early(key);
                }
            }
        }
        match answer {
            Some(next) => {
                assert(self.model().next_answer(self.model().spec_advanced(), next));
                Some(next.saturating_duration_since(now))
            },
            None => None,
        }
    }

    /// How many timers are held.
    pub fn len(&self) -> (len: usize)
        requires
            self.wf(),
        ensures
            len == self.model().spec_len(),
            len == self.model().entries().dom().len(),
    {
        self.wheel.len()
    }

    /// Whether no timer is held.
    pub fn is_empty(&self) -> (empty: bool)
        requires
            self.wf(),
        ensures
            empty <==> self.model().spec_len() == 0,
            empty <==> self.model().entries() == Map::<Key, Held<W>>::empty(),
    {
        self.wheel.is_empty()
    }
}

} // verus!
