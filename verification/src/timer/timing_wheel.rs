//! The reactor's timing wheel.
//!
//! Four levels of milliseconds with deadlines rounded up, so a timer may fire
//! late but never early. Beyond eighteen hours a timer waits in an ordered map
//! instead of a slot.

use super::slab::TimerId;
use super::time::Instant;
use super::wheel::policy::{lemma_millis_tiles, Millis, Policy};
use super::wheel::ticks::{countable, elapsed_ticks};
use super::wheel::timing::{self, Held, Key};
use vstd::prelude::*;

verus! {

/// Hierarchical timing wheel with stable handles. `W` is what a timer wakes.
pub struct TimingWheel<W> {
    wheel: timing::TimingWheel<W, Millis>,
}

impl<W> TimingWheel<W> {
    /// The wheel this one is.
    pub closed spec fn model(&self) -> timing::TimingWheel<W, Millis> {
        self.wheel
    }

    /// The wheel is consistent.
    pub open spec fn wf(&self) -> bool {
        self.model().wf()
    }

    /// A wheel whose time starts at `now`, which the caller reads off its
    /// clock.
    pub fn new(now: Instant) -> (wheel: Self)
        requires
            countable(now),
        ensures
            wheel.wf(),
            wheel.model().spec_start() == now,
            wheel.model().spec_tick() == 0,
            wheel.model().spec_advanced() == now,
            wheel.model().entries() == Map::<Key, Held<W>>::empty(),
            wheel.model().due() == Seq::<Key>::empty(),
            wheel.model().spec_len() == 0,
            wheel.model().insertions() == 0,
            wheel.model().spec_ticks_processed() == 0,
            forall|key: Key| !#[trigger] wheel.model().issued(key),
    {
        Self::new_at(now)
    }

    /// A wheel whose time starts at `start_time`.
    pub fn new_at(start_time: Instant) -> (wheel: Self)
        requires
            countable(start_time),
        ensures
            wheel.wf(),
            wheel.model().spec_start() == start_time,
            wheel.model().spec_tick() == 0,
            wheel.model().spec_advanced() == start_time,
            wheel.model().entries() == Map::<Key, Held<W>>::empty(),
            wheel.model().due() == Seq::<Key>::empty(),
            wheel.model().spec_len() == 0,
            wheel.model().insertions() == 0,
            wheel.model().spec_ticks_processed() == 0,
            forall|key: Key| !#[trigger] wheel.model().issued(key),
    {
        proof {
            lemma_millis_tiles();
        }
        TimingWheel { wheel: timing::TimingWheel::starting_at(start_time) }
    }

    /// How many timers are held, due or not.
    pub fn len(&self) -> (len: usize)
        requires
            self.wf(),
        ensures
            len == self.model().spec_len(),
            len == self.model().entries().dom().len(),
    {
        self.wheel.len()
    }

    /// Whether no timer is held.
    pub fn is_empty(&self) -> (empty: bool)
        requires
            self.wf(),
        ensures
            empty <==> self.model().spec_len() == 0,
            empty <==> self.model().entries() == Map::<Key, Held<W>>::empty(),
    {
        self.wheel.is_empty()
    }

    /// The wheel's own idea of the current time, to the millisecond.
    pub fn current_time(&self) -> (now: Instant)
        requires
            self.wf(),
        ensures
            now.nanos == self.model().spec_start().nanos + self.model().spec_tick() * 1_000_000,
    {
        self.wheel.current_time()
    }

    /// How many ticks the wheel has stepped through, which is the work it was
    /// made to do and not the time that passed.
    pub fn ticks_processed(&self) -> (ticks: u64)
        requires
            self.wf(),
        ensures
            ticks == self.model().spec_ticks_processed(),
    {
        self.wheel.ticks_processed()
    }

    /// Earliest deadline held, if any.
    ///
    /// Never later than the truth. Sleeping past a deadline is a bug; waking
    /// early and finding nothing due costs one poll.
    pub fn next_expiry(&mut self) -> (answer: Option<Instant>)
        requires
            old(self).wf(),
        ensures
            final(self).wf(),
            final(self).model().unchanged(&old(self).model()),
            answer is None <==> old(self).model().spec_len() == 0,
            old(self).model().due().len() > 0 ==> answer is Some && answer->0.nanos == old(
                self,
            ).model().spec_start().nanos + old(self).model().spec_tick() * 1_000_000,
            old(self).model().due().len() == 0 ==> (answer matches Some(a) ==> old(self).model().next_answer(
                old(self).model().spec_advanced(),
                a,
            )),
    {
        self.wheel.next_expiry()
    }

    /// Whether a handle still names a live timer.
    pub fn contains(&self, id: TimerId) -> (live: bool)
        ensures
            live <==> self.model().entries().contains_key(id),
    {
        self.wheel.contains(id)
    }

    /// Registers a timer, returning a handle valid until it fires or is
    /// removed.
    pub fn insert(&mut self, expires_at: Instant, waker: W) -> (id: TimerId)
        requires
            old(self).wf(),
            old(self).model().has_room(),
        ensures
            final(self).wf(),
            final(self).model().inserted(&old(self).model(), id, expires_at, waker),
    {
        proof {
            lemma_millis_tiles();
        }
        self.wheel.insert(expires_at, waker)
    }

    /// Withdraws a timer, handing back its waker. `None` if it has already
    /// fired or was already withdrawn.
    pub fn remove(&mut self, id: TimerId) -> (waker: Option<W>)
        requires
            old(self).wf(),
        ensures
            final(self).wf(),
            waker == if old(self).model().entries().contains_key(id) {
                Some(old(self).model().entries()[id].payload)
            } else {
                None
            },
            final(self).model().removed(&old(self).model(), id),
    {
        self.wheel.remove(id)
    }

    /// Moves time forward, expiring whatever has come due.
    ///
    /// Cost is proportional to the work crossed: the wheel steps to the next
    /// tick that has some rather than through every millisecond between. An
    /// executor that idles for ten minutes with a populated wheel would
    /// otherwise pay six hundred thousand iterations on its next poll, for
    /// time in which nothing was due.
    pub fn advance_to(&mut self, now: Instant)
        requires
            old(self).wf(),
            elapsed_ticks(old(self).model().spec_start(), now) + 67_108_864 <= u64::MAX,
        ensures
            final(self).wf(),
            now.nanos <= old(self).model().spec_start().nanos ==> final(self).model() == old(self).model(),
            now.nanos > old(self).model().spec_start().nanos ==> final(self).model().advanced(
                &old(self).model(),
                now,
            ),
    {
        proof {
            lemma_millis_tiles();
        }
        self.wheel.advance_to(now)
    }

    /// Takes everything that has come due, appending it to `out`.
    ///
    /// Both buffers keep their allocation, so a batch of expiries costs no
    /// allocation once the wheel is warm.
    pub fn drain_expired_into(&mut self, out: &mut Vec<(TimerId, W)>)
        requires
            old(self).wf(),
        ensures
            final(self).wf(),
            final(self).model().drained(&old(self).model()),
            final(out)@ == old(out)@ + old(self).model().due_payloads(),
    {
        self.wheel.drain_expired_into(out)
    }

    /// Everything that has come due.
    ///
    /// The allocation this makes is why the reactor uses
    /// [`Self::drain_expired_into`] instead.
    pub fn drain_expired(&mut self) -> (out: Vec<(TimerId, W)>)
        requires
            old(self).wf(),
        ensures
            final(self).wf(),
            final(self).model().drained(&old(self).model()),
            out@ == old(self).model().due_payloads(),
    {
        self.wheel.drain_expired()
    }
}

} // verus!
