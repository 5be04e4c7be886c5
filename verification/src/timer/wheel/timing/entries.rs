//! Building a wheel, and putting entries in and taking them out.

use super::{
    lemma_pending_done, lemma_pending_step, level_set_minimum, level_swap_remove, pending,
    swap_removed, Entry, Held, Key, Position, TimingWheel,
};
use crate::timer::slab::{SlotIndex, TimerId, TimerSlab};
use crate::timer::time::Instant;
use crate::timer::wheel::level::Level;
use crate::timer::wheel::overflow::Parked;
use crate::timer::wheel::policy::{
    lemma_covers_within_reach, level_fits, tiles, CoarseQuery, Overflow, Policy,
};
use crate::timer::wheel::ticks::{countable, tick_for, tick_start};
use core::marker::PhantomData;
use vstd::prelude::*;

verus! {

impl<T, P: Policy> TimingWheel<T, P> {
    /// Builds a wheel whose time starts at `start`.
    ///
    /// The wheel never reads the clock: `advance_to` is told what time it is.
    /// That is what makes it testable without waiting, and it means a caller
    /// with its own clock can drive it.
    pub fn starting_at(start: Instant) -> (wheel: Self)
        requires
            tiles(P::slots_model(), P::resolution_model()),
            countable(start),
        ensures
            wheel.wf(),
            wheel.spec_start() == start,
            wheel.spec_tick() == 0,
            wheel.spec_advanced() == start,
            wheel.entries() == Map::<Key, Held<T>>::empty(),
            wheel.due() == Seq::<Key>::empty(),
            wheel.spec_len() == 0,
            wheel.insertions() == 0,
            wheel.spec_ticks_processed() == 0,
            forall|key: Key| !#[trigger] wheel.issued(key),
    {
        let slots: Vec<usize> = P::slots();
        let resolution: Vec<u64> = P::resolution();
        let exact: bool = match P::COARSE_QUERY {
            CoarseQuery::ExactMinimum => true,
            CoarseQuery::BucketBound => false,
        };
        let mut levels: Vec<Level> = Vec::new();
        let mut level: usize = 0;
        while level < slots.len()
            invariant
                tiles(slots@, resolution@),
                slots@ == P::slots_model(),
                resolution@ == P::resolution_model(),
                exact == (P::COARSE_QUERY == CoarseQuery::ExactMinimum),
                level <= slots@.len(),
                levels@.len() == level,
                forall|l: int|
                    0 <= l < level ==> {
                        &&& (#[trigger] levels@[l]).wf()
                        &&& levels@[l].count() == slots@[l]
                        &&& levels@[l].span() == resolution@[l]
                        &&& levels@[l].keeps_minima() == (l == 0 || exact)
                        &&& levels@[l].vacant()
                        &&& forall|ring: int|
                            0 <= ring < levels@[l].count() ==> #[trigger] levels@[l].known(ring) is None
                    },
            decreases slots@.len() - level,
        {
            assert(level_fits(slots@, resolution@, level as int));
            levels.push(Level::new(slots[level], resolution[level], level == 0 || exact));
            level = level + 1;
        }
        // One full revolution of the coarsest level is everything the wheel
        // can address.
        let last: usize = slots.len() - 1;
        proof {
            lemma_covers_within_reach(slots@, resolution@, last as int);
        }
        let reach: u64 = resolution[last] * slots[last] as u64;
        let wheel = TimingWheel {
            current_tick: 0,
            start,
            advanced_to: start,
            slab: TimerSlab::new(),
            expired: Vec::new(),
            levels,
            overflow: Parked::new(),
            reach,
            ticks_processed: 0,
            policy: PhantomData,
        };
        proof {
            wheel.slab.lemma_handles();
            assert(wheel.entries() =~= Map::<Key, Held<T>>::empty());
            assert(wheel.due() =~= Seq::<Key>::empty());
            assert forall|at: Position| #[trigger] wheel.occupant(at) is None by {
            }
        }
        wheel
    }

    /// Builds a wheel whose time starts at `now`, which the caller reads off
    /// its clock.
    pub fn new(now: Instant) -> (wheel: Self)
        requires
            tiles(P::slots_model(), P::resolution_model()),
            countable(now),
        ensures
            wheel.wf(),
            wheel.spec_start() == now,
            wheel.spec_tick() == 0,
            wheel.spec_advanced() == now,
            wheel.entries() == Map::<Key, Held<T>>::empty(),
            wheel.due() == Seq::<Key>::empty(),
            wheel.spec_len() == 0,
            wheel.insertions() == 0,
            wheel.spec_ticks_processed() == 0,
            forall|key: Key| !#[trigger] wheel.issued(key),
    {
        Self::starting_at(now)
    }

    /// How many entries the wheel is holding, expired or not.
    pub fn len(&self) -> (len: usize)
        requires
            self.wf(),
        ensures
            len == self.spec_len(),
            self.entries().dom().finite(),
            len == self.entries().dom().len(),
    {
        proof {
            self.slab.lemma_len();
            assert(self.entries().dom() =~= self.slab@.dom());
        }
        self.slab.len()
    }

    /// Whether the wheel holds nothing at all.
    pub fn is_empty(&self) -> (empty: bool)
        requires
            self.wf(),
        ensures
            empty <==> self.entries() == Map::<Key, Held<T>>::empty(),
            empty <==> self.spec_len() == 0,
    {
        let empty: bool = self.len() == 0;
        proof {
            if empty {
                assert(self.entries() =~= Map::<Key, Held<T>>::empty());
            }
        }
        empty
    }

    /// The wheel's own idea of the current time, to the tick.
    ///
    /// Quantised, so it is at or before [`TimingWheel::last_advanced`]. The
    /// wheel never reads a clock; both of these come from what
    /// [`TimingWheel::advance_to`] was told.
    pub fn current_time(&self) -> (now: Instant)
        requires
            self.wf(),
        ensures
            now.nanos == self.spec_start().nanos + self.spec_tick() * 1_000_000,
            now.nanos <= self.spec_advanced().nanos,
    {
        tick_start(self.start, self.current_tick)
    }

    /// The instant last handed to [`TimingWheel::advance_to`], or the latest
    /// of them when time was told to go back.
    pub fn last_advanced(&self) -> (now: Instant)
        ensures
            now == self.spec_advanced(),
    {
        self.advanced_to
    }

    /// Whether a handle still names a live entry.
    pub fn contains(&self, key: Key) -> (live: bool)
        ensures
            live <==> self.entries().contains_key(key),
    {
        self.slab.get(key).is_some()
    }

    /// The payload behind a handle, without withdrawing it.
    pub fn get(&self, key: Key) -> (payload: Option<&T>)
        ensures
            payload == if self.entries().contains_key(key) {
                Some(&self.entries()[key].payload)
            } else {
                None
            },
    {
        match self.slab.get(key) {
            Some(entry) => Some(&entry.payload),
            None => None,
        }
    }

    /// When an entry is due, if it is still held.
    pub fn deadline(&self, key: Key) -> (deadline: Option<Instant>)
        ensures
            deadline == if self.entries().contains_key(key) {
                Some(self.entries()[key].deadline)
            } else {
                None
            },
    {
        match self.slab.get(key) {
            Some(entry) => Some(entry.expires_at),
            None => None,
        }
    }

    /// How many ticks the wheel has stepped through, which is the work it was
    /// made to do and not the time that passed.
    pub fn ticks_processed(&self) -> (ticks: u64)
        requires
            self.wf(),
        ensures
            ticks == self.spec_ticks_processed(),
            ticks <= self.spec_tick(),
    {
        self.ticks_processed
    }

    /// Registers an entry, or refuses it.
    ///
    /// `None` only when the deadline is beyond the wheel's reach and the
    /// policy is [`Overflow::Reject`].
    pub fn try_insert(&mut self, expires_at: Instant, payload: T) -> (key: Option<Key>)
        requires
            old(self).wf(),
            old(self).has_room(),
        ensures
            final(self).wf(),
            key is None <==> old(self).refuses(expires_at),
            key is None ==> *final(self) == *old(self),
            key matches Some(key) ==> final(self).inserted(old(self), key, expires_at, payload),
    {
        // Worked out once and handed on. Asking whether a deadline is beyond
        // the wheel's reach means rounding it to a tick, which is exactly what
        // placing it needs, and computing that twice made refusing overflow
        // cost as much again as accepting it.
        let deadline: Option<u64> = tick_for(self.start, expires_at, P::ROUNDING);
        let beyond: bool = match deadline {
            Some(tick) => tick.saturating_sub(self.current_tick) >= self.reach,
            None => false,
        };
        proof {
            self.lemma_level_covers(0);
        }
        if beyond {
            match P::OVERFLOW {
                Overflow::Reject => {
                    return None;
                },
                Overflow::Park => {},
            }
        }
        let ghost before = *self;
        let key: TimerId = self.slab.insert(Entry { expires_at, payload, at: Position::Unplaced });
        let ghost lag = self.levels@.len() as int;
        let ghost flight = Set::<SlotIndex>::empty().insert(key.spec_slot());
        let ghost stored = *self;
        proof {
            self.slab.lemma_handles();
            before.slab.lemma_handles();
            assert forall|slot: SlotIndex| #[trigger]
                self.slab.holds(slot) && !flight.contains(slot) implies self.occupant(self.at_of(slot)) == Some(slot)
                && self.placed_right(slot, lag) by {
                assert(before.slab.holds(slot));
                assert(before.occupant(before.at_of(slot)) == Some(slot));
                assert(before.placed_right(slot, lag));
            }
            assert forall|at: Position| (#[trigger] self.occupant(at)) is Some implies ({
                let slot = self.occupant(at)->0;
                &&& self.slab.holds(slot)
                &&& !flight.contains(slot)
                &&& self.at_of(slot) == at
            }) by {
                assert(before.occupant(at) == self.occupant(at));
            }
            assert forall|level: int, ring: int|
                0 <= level < self.levels@.len() && 0 <= ring < self.levels@[level].count() && (
                #[trigger] self.levels@[level].known(ring)) is Some implies self.is_minimum(
                self.levels@[level].bucket(ring),
                self.levels@[level].known(ring)->0,
            ) by {
                let bucket = self.levels@[level].bucket(ring);
                let m = self.levels@[level].known(ring)->0;
                assert(before.is_minimum(bucket, m));
                assert forall|i: int| 0 <= i < bucket.len() implies self.deadline_of(#[trigger] bucket[i])
                    == before.deadline_of(bucket[i]) by {
                    before.lemma_bucket_entry(Set::empty(), lag, level, ring, i);
                }
                let i = choose|i: int| 0 <= i < bucket.len() && before.deadline_of(#[trigger] bucket[i]) == m;
                assert(self.deadline_of(bucket[i]) == m);
            }
            assert forall|level: int| 0 <= level < self.levels@.len() implies self.level_shaped(level) by {
                assert(before.level_shaped(level));
            }
        }
        self.place_at(key, deadline, Ghost(flight), Ghost(lag));
        proof {
            assert(flight.remove(key.spec_slot()) =~= Set::<SlotIndex>::empty());
            self.lemma_entries_kept(&stored);
            assert(stored.entries() =~= before.entries().insert(key, Held { deadline: expires_at, payload }));
            self.lemma_due_kept(&before, &stored, key);
            assert forall|parked: u128| (#[trigger] self.overflow.bucket(parked)).len() > 0 implies self.key_tick(parked)
                >= self.current_tick + self.reach by {
                if self.overflow != stored.overflow {
                    if parked != expires_at.nanos {
                        assert(self.overflow.bucket(parked) == stored.overflow.bucket(parked));
                        assert(before.overflow.bucket(parked).len() > 0);
                    } else {
                        assert(Instant { nanos: parked } == expires_at);
                    }
                } else {
                    assert(before.overflow.bucket(parked).len() > 0);
                }
            }
            self.slab.lemma_handles();
            assert(self.slab.holds(key.spec_slot()));
            assert forall|other: Key| other != key implies #[trigger] self.level_of(other) == before.level_of(
                other,
            ) by {
                let slot = other.spec_slot();
                if self.slab@.contains_key(other) {
                    assert(stored.slab.holds(slot));
                }
                if before.slab@.contains_key(other) {
                    assert(stored.slab.holds(slot));
                    assert(self.slab.holds(slot));
                }
            }
        }
        Some(key)
    }

    /// `key` was registered and nothing else changed.
    pub open spec fn inserted(&self, before: &Self, key: Key, deadline: Instant, payload: T) -> bool {
        &&& !before.issued(key)
        &&& self.same_time(before)
        &&& self.entries() == before.entries().insert(key, Held { deadline, payload })
        &&& self.due() == if before.tick_at(deadline) <= before.spec_tick() {
            before.due().push(key)
        } else {
            before.due()
        }
        &&& self.spec_len() == before.spec_len() + 1
        &&& self.insertions() == before.insertions() + 1
        &&& forall|other: Key| #[trigger] self.issued(other) <==> before.issued(other) || other == key
        &&& self.level_of(key) == before.level_for(deadline)
        &&& forall|other: Key| other != key ==> #[trigger] self.level_of(other) == before.level_of(other)
    }

    /// Where entries sit does not show.
    pub(super) proof fn lemma_entries_kept(&self, before: &Self)
        requires
            self.same_but_time(before),
        ensures
            self.entries() == before.entries(),
    {
        self.slab.lemma_handles();
        before.slab.lemma_handles();
        assert forall|key: Key| #[trigger] self.slab@.contains_key(key) == before.slab@.contains_key(key) by {
            if self.slab@.contains_key(key) {
                assert(before.slab.holds(key.spec_slot()));
            }
            if before.slab@.contains_key(key) {
                assert(self.slab.holds(key.spec_slot()));
            }
        }
        assert(self.entries() =~= before.entries());
    }

    proof fn lemma_due_kept(&self, before: &Self, stored: &Self, key: Key)
        requires
            before.wf(),
            stored.slab.holds(key.spec_slot()),
            stored.slab.id_of(key.spec_slot()) == key,
            stored.expired == before.expired,
            forall|slot: SlotIndex| #[trigger] before.slab.holds(slot) ==> stored.slab.holds(slot) && stored.slab.id_of(
                slot,
            ) == before.slab.id_of(slot),
            self.same_but_time(stored),
            self.expired@ == stored.expired@ || self.expired@ == stored.expired@.push(key.spec_slot()),
        ensures
            self.expired@ == stored.expired@ ==> self.due() == before.due(),
            self.expired@ == stored.expired@.push(key.spec_slot()) ==> self.due() == before.due().push(key),
    {
        let lag = before.levels@.len() as int;
        assert forall|i: int| 0 <= i < before.expired@.len() implies self.slab.id_of(#[trigger] before.expired@[i])
            == before.slab.id_of(before.expired@[i]) by {
            before.lemma_expired_entry(Set::empty(), lag, i);
            assert(self.slab.holds(before.expired@[i]));
        }
        assert(self.slab.holds(key.spec_slot()));
        if self.expired@ == stored.expired@ {
            assert(self.due() =~= before.due());
        }
        if self.expired@ == stored.expired@.push(key.spec_slot()) {
            assert(self.due() =~= before.due().push(key));
        }
    }

    /// Registers an entry, returning a handle valid until it expires or is
    /// withdrawn.
    ///
    /// A deadline past the wheel's reach must not come here under
    /// [`Overflow::Reject`]. The default policy parks such a deadline instead
    /// and this cannot fail, which is why it does not return an `Option`: a
    /// caller who has not opted into refusal should not have to unwrap one
    /// forever. Use [`TimingWheel::try_insert`] where refusal is possible.
    pub fn insert(&mut self, expires_at: Instant, payload: T) -> (key: Key)
        requires
            old(self).wf(),
            old(self).has_room(),
            !old(self).refuses(expires_at),
        ensures
            final(self).wf(),
            final(self).inserted(old(self), key, expires_at, payload),
    {
        match self.try_insert(expires_at, payload) {
            Some(key) => key,
            None => vstd::pervasive::unreached(),
        }
    }

    /// The two differ in payloads at most.
    spec fn repaid(&self, before: &Self) -> bool {
        &&& self.current_tick == before.current_tick
        &&& self.start == before.start
        &&& self.advanced_to == before.advanced_to
        &&& self.expired == before.expired
        &&& self.levels == before.levels
        &&& self.overflow == before.overflow
        &&& self.reach == before.reach
        &&& self.ticks_processed == before.ticks_processed
        &&& self.slab.wf()
        &&& forall|slot: SlotIndex| #[trigger] self.slab.holds(slot) == before.slab.holds(slot)
        &&& forall|slot: SlotIndex| #[trigger]
            before.slab.holds(slot) ==> {
                &&& self.slab.id_of(slot) == before.slab.id_of(slot)
                &&& self.slab.value_at(slot).expires_at == before.slab.value_at(slot).expires_at
                &&& self.slab.value_at(slot).at == before.slab.value_at(slot).at
            }
    }

    /// What an entry carries has no bearing on where it sits.
    proof fn lemma_repaid(&self)
        requires
            self.wf(),
        ensures
            forall|after: Self|
                #![trigger after.wf()]
                #![trigger after.due()]
                after.repaid(self) ==> after.wf() && after.due() == self.due(),
            forall|after: Self, key: Key|
                #![trigger after.level_of(key)]
                after.repaid(self) ==> after.level_of(key) == self.level_of(key),
    {
        let lag = self.levels@.len() as int;
        assert forall|after: Self, key: Key|
            #![trigger after.level_of(key)]
            after.repaid(self) implies after.level_of(key) == self.level_of(key) by {
            after.slab.lemma_handles();
            self.slab.lemma_handles();
            assert(after.slab.holds(key.spec_slot()) == self.slab.holds(key.spec_slot()));
        }
        assert forall|after: Self|
            #![trigger after.wf()]
            #![trigger after.due()]
            after.repaid(self) implies after.wf() && after.due() == self.due() by {
            assert forall|at: Position| #[trigger] after.occupant(at) == self.occupant(at) by {
            }
            assert forall|slot: SlotIndex| #[trigger]
                after.slab.holds(slot) && !Set::<SlotIndex>::empty().contains(slot) implies after.occupant(
                after.at_of(slot),
            ) == Some(slot) && after.placed_right(slot, lag) by {
                assert(self.slab.holds(slot));
                assert(self.placed_right(slot, lag));
                assert(self.occupant(self.at_of(slot)) == Some(slot));
            }
            assert forall|level: int| 0 <= level < after.levels@.len() implies after.level_shaped(level) by {
                assert(self.level_shaped(level));
            }
            assert forall|level: int, ring: int|
                0 <= level < after.levels@.len() && 0 <= ring < after.levels@[level].count() && (
                #[trigger] after.levels@[level].known(ring)) is Some implies after.is_minimum(
                after.levels@[level].bucket(ring),
                after.levels@[level].known(ring)->0,
            ) by {
                let bucket = self.levels@[level].bucket(ring);
                let m = self.levels@[level].known(ring)->0;
                assert(self.is_minimum(bucket, m));
                assert forall|i: int| 0 <= i < bucket.len() implies after.deadline_of(#[trigger] bucket[i])
                    == self.deadline_of(bucket[i]) by {
                    self.lemma_bucket_entry(Set::empty(), lag, level, ring, i);
                }
                let i = choose|i: int| 0 <= i < bucket.len() && self.deadline_of(#[trigger] bucket[i]) == m;
                assert(after.deadline_of(bucket[i]) == m);
            }
            assert forall|key: u128| (#[trigger] after.overflow.bucket(key)).len() > 0 implies after.key_tick(key)
                >= after.current_tick + after.reach by {
                assert(self.overflow.bucket(key).len() > 0);
            }
            assert forall|i: int| 0 <= i < self.expired@.len() implies after.due()[i] == #[trigger] self.due()[i] by {
                self.lemma_expired_entry(Set::empty(), lag, i);
            }
            assert(after.due() =~= self.due());
        }
    }

    /// The payload behind a handle, mutably.
    ///
    /// The deadline is deliberately not reachable this way: the wheel filed
    /// the entry by it, so changing it would leave the entry in the wrong
    /// slot. Withdraw and re-register to move a deadline.
    pub fn get_mut(&mut self, key: Key) -> (payload: Option<&mut T>)
        requires
            old(self).wf(),
        ensures
            final(self).wf(),
            payload is Some <==> old(self).entries().contains_key(key),
            payload matches Some(borrowed) ==> *borrowed == old(self).entries()[key].payload,
            final(self).entries() == match payload {
                Some(borrowed) => old(self).entries().insert(
                    key,
                    (Held { deadline: old(self).entries()[key].deadline, payload: *final(borrowed) }),
                ),
                None => old(self).entries(),
            },
            final(self).same_time(old(self)),
            final(self).due() == old(self).due(),
            final(self).spec_len() == old(self).spec_len(),
            final(self).insertions() == old(self).insertions(),
            final(self).next_position_usable() == old(self).next_position_usable(),
            forall|other: Key| #[trigger] final(self).issued(other) == old(self).issued(other),
            forall|other: Key| #[trigger] final(self).level_of(other) == old(self).level_of(other),
    {
        proof {
            self.slab.lemma_handles();
            self.lemma_repaid();
        }
        match self.slab.get_mut(key) {
            Some(entry) => Some(&mut entry.payload),
            None => None,
        }
    }

    /// Taking an entry from its place and moving the last of its bucket there
    /// puts it in flight.
    proof fn lemma_detach(
        &self,
        before: &Self,
        slot: SlotIndex,
        at: Position,
        last: Position,
        moved: SlotIndex,
    )
        requires
            before.shaped(),
            before.filed(Set::empty(), before.levels@.len() as int),
            before.slab.holds(slot),
            before.at_of(slot) == at,
            before.occupant(last) == Some(moved),
            self.occupant(last) is None,
            at != last ==> self.occupant(at) == Some(moved),
            forall|other: Position|
                other != at && other != last ==> #[trigger] self.occupant(other) == before.occupant(other),
            self.refiled(before),
            self.same_levels(before),
            forall|other: SlotIndex|
                #[trigger] before.slab.holds(other) ==> self.slab.value_at(other) == before.slab.value_at(other)
                    || other == moved && moved != slot,
            moved != slot ==> self.at_of(moved) == at && self.placed_right(moved, self.levels@.len() as int),
        ensures
            self.filed(Set::empty().insert(slot), self.levels@.len() as int),
    {
        let lag = self.levels@.len() as int;
        let flight = Set::<SlotIndex>::empty().insert(slot);
        assert(before.occupant(at) == Some(slot));
        assert(before.at_of(moved) == last);
        assert forall|other: SlotIndex| #[trigger]
            self.slab.holds(other) && !flight.contains(other) implies self.occupant(self.at_of(other)) == Some(other)
            && self.placed_right(other, lag) by {
            assert(before.slab.holds(other));
            assert(before.occupant(before.at_of(other)) == Some(other));
            assert(before.placed_right(other, lag));
            before.lemma_in_bounds(other, lag);
        }
        assert forall|place: Position| (#[trigger] self.occupant(place)) is Some implies ({
            let found = self.occupant(place)->0;
            &&& self.slab.holds(found)
            &&& !flight.contains(found)
            &&& self.at_of(found) == place
        }) by {
            if place != at {
                assert(before.occupant(place) == self.occupant(place));
                assert(before.slab.holds(before.occupant(place)->0));
            } else {
                assert(before.slab.holds(moved));
            }
        }
    }

    /// Detaches an entry from wherever it sits, correcting whatever moves into
    /// the hole it leaves.
    ///
    /// A wrong position would not merely miss: it would detach whichever entry
    /// occupies that place now.
    fn unlink(&mut self, key: Key, at: Position)
        requires
            old(self).wf(),
            old(self).slab@.contains_key(key),
            old(self).at_of(key.spec_slot()) == at,
            at matches Position::Slot { level, slot: ring, .. } ==> old(self).levels@[level as int].known(
                ring as int,
            ) != Some(old(self).deadline_of(key.spec_slot())),
        ensures
            final(self).shaped(),
            final(self).filed(Set::empty().insert(key.spec_slot()), final(self).levels@.len() as int),
            final(self).minima_hold(),
            final(self).parked_is_far(),
            final(self).refiled(old(self)),
            final(self).ticks_processed == old(self).ticks_processed,
            at !is Expired ==> final(self).expired == old(self).expired,
            at matches Position::Expired { index } ==> final(self).expired@ == old(self).expired@.update(
                index as int,
                old(self).expired@.last(),
            ).drop_last(),
            forall|other: SlotIndex|
                other != key.spec_slot() && #[trigger] old(self).slab.holds(other) ==> final(self).slot_level(other)
                    == old(self).slot_level(other),
    {
        let ghost slot = key.spec_slot();
        let ghost lag = self.levels@.len() as int;
        proof {
            self.slab.lemma_handles();
            assert(self.slab.holds(slot));
            assert(self.occupant(at) == Some(slot));
        }
        match at {
            Position::Unplaced => {},
            Position::Slot { level, slot: ring, index } => {
                let ghost l = level as int;
                let ghost r = ring as int;
                let ghost bucket = self.levels@[l].bucket(r);
                let ghost last = Position::Slot { level, slot: ring, index: (bucket.len() - 1) as usize };
                proof {
                    self.lemma_level_covers(l);
                    self.levels@[l].lemma_bucket_fits(r);
                    self.lemma_bucket_entry(Set::empty(), lag, l, r, bucket.len() - 1);
                }
                let moved: Option<SlotIndex> = level_swap_remove(&mut self.levels, level, ring, index);
                let ghost cut = *self;
                // `swap_remove` moved the last element into the hole. Its
                // recorded position now lies, so correct it before anything
                // reads it.
                self.correct(moved, at);
                proof {
                    let after = self.levels@[l].bucket(r);
                    assert(self.same_levels(old(self)));
                    assert forall|other: Position| other != at && other != last implies #[trigger] self.occupant(other)
                        == old(self).occupant(other) by {
                        if let Position::Slot { level: l2, slot: r2, index: i2 } = other {
                            if l2 == level && r2 != ring && r2 < self.levels@[l].count() {
                                assert(self.levels@[l].bucket(r2 as int) == old(self).levels@[l].bucket(r2 as int));
                            }
                        }
                    }
                    if bucket.last() != slot {
                        assert(old(self).placed_right(bucket.last(), lag));
                        assert(self.slab.holds(bucket.last()));
                    }
                    self.lemma_detach(old(self), slot, at, last, bucket.last());
                    self.lemma_shaped_kept(old(self));
                    assert forall|l2: int, r2: int|
                        0 <= l2 < self.levels@.len() && 0 <= r2 < self.levels@[l2].count() && (
                        #[trigger] self.levels@[l2].known(r2)) is Some implies self.is_minimum(
                        self.levels@[l2].bucket(r2),
                        self.levels@[l2].known(r2)->0,
                    ) by {
                        let m = self.levels@[l2].known(r2)->0;
                        if l2 == l && r2 == r {
                            self.lemma_minimum_kept(old(self), Set::empty(), lag, l, r, m);
                            self.lemma_minimum_cut(bucket, m, index as int);
                        } else {
                            if l2 == l {
                                assert(self.levels@[l].bucket(r2) == old(self).levels@[l].bucket(r2));
                                assert(self.levels@[l].known(r2) == old(self).levels@[l].known(r2));
                            }
                            self.lemma_minimum_kept(old(self), Set::empty(), lag, l2, r2, m);
                        }
                    }
                    self.lemma_parked_kept(old(self));
                }
            },
            Position::Expired { index } => {
                let ghost list = self.expired@;
                let ghost last = Position::Expired { index: (list.len() - 1) as usize };
                proof {
                    self.lemma_expired_entry(Set::empty(), lag, list.len() - 1);
                }
                self.expired.swap_remove(index);
                let moved: Option<SlotIndex> = if index < self.expired.len() {
                    Some(self.expired[index])
                } else {
                    None
                };
                self.correct(moved, at);
                proof {
                    assert(self.expired@ =~= list.update(index as int, list.last()).drop_last());
                    if list.last() != slot {
                        assert(old(self).placed_right(list.last(), lag));
                        assert(self.slab.holds(list.last()));
                    }
                    self.lemma_detach(old(self), slot, at, last, list.last());
                    self.lemma_shaped_kept(old(self));
                    self.lemma_minima_kept(old(self), Set::empty(), lag);
                    self.lemma_parked_kept(old(self));
                }
            },
            Position::Overflow { key: parked, index } => {
                let ghost bucket = self.overflow.bucket(parked);
                let ghost last = Position::Overflow { key: parked, index: (bucket.len() - 1) as usize };
                proof {
                    self.lemma_parked_entry(Set::empty(), lag, parked, bucket.len() - 1);
                }
                let moved: Option<SlotIndex> = self.overflow.swap_remove(parked, index);
                self.correct(moved, at);
                proof {
                    assert forall|other: Position| other != at && other != last implies #[trigger] self.occupant(other)
                        == old(self).occupant(other) by {
                        if let Position::Overflow { key: k2, index: i2 } = other {
                            if k2 != parked {
                                assert(self.overflow.bucket(k2) == old(self).overflow.bucket(k2));
                            }
                        }
                    }
                    if bucket.last() != slot {
                        assert(old(self).placed_right(bucket.last(), lag));
                        assert(self.slab.holds(bucket.last()));
                    }
                    self.lemma_detach(old(self), slot, at, last, bucket.last());
                    self.lemma_shaped_kept(old(self));
                    self.lemma_minima_kept(old(self), Set::empty(), lag);
                    assert forall|k2: u128| (#[trigger] self.overflow.bucket(k2)).len() > 0 implies old(
                        self,
                    ).overflow.bucket(k2).len() > 0 by {
                    }
                    self.lemma_parked_kept(old(self));
                }
            },
        }
    }

    proof fn lemma_parked_kept(&self, before: &Self)
        requires
            before.parked_is_far(),
            self.refiled(before),
            forall|key: u128|
                (#[trigger] self.overflow.bucket(key)).len() > 0 ==> before.overflow.bucket(key).len() > 0,
        ensures
            self.parked_is_far(),
    {
        assert forall|key: u128| (#[trigger] self.overflow.bucket(key)).len() > 0 implies self.key_tick(key)
            >= self.current_tick + self.reach by {
            assert(before.overflow.bucket(key).len() > 0);
        }
    }

    /// A minimum survives the loss of an entry that was not it.
    proof fn lemma_minimum_cut(&self, bucket: Seq<SlotIndex>, minimum: Instant, index: int)
        requires
            self.is_minimum(bucket, minimum),
            0 <= index < bucket.len(),
            self.deadline_of(bucket[index]) != minimum,
        ensures
            self.is_minimum(bucket.update(index, bucket.last()).drop_last(), minimum),
    {
        let shorter = bucket.update(index, bucket.last()).drop_last();
        let i = choose|i: int| 0 <= i < bucket.len() && self.deadline_of(#[trigger] bucket[i]) == minimum;
        if i == bucket.len() - 1 {
            assert(self.deadline_of(shorter[index]) == minimum);
        } else {
            assert(self.deadline_of(shorter[i]) == minimum);
        }
        assert forall|j: int| 0 <= j < shorter.len() implies minimum.nanos <= self.deadline_of(
            #[trigger] shorter[j],
        ).nanos by {
            if j == index {
                assert(shorter[j] == bucket[bucket.len() - 1]);
            } else {
                assert(shorter[j] == bucket[j]);
            }
        }
    }

    /// Records the new place of an entry that moved.
    fn correct(&mut self, moved: Option<SlotIndex>, at: Position)
        requires
            old(self).slab.wf(),
            moved matches Some(slot) ==> old(self).slab.holds(slot),
        ensures
            final(self).slab.wf(),
            final(self).refiled(old(self)),
            final(self).ticks_processed == old(self).ticks_processed,
            final(self).levels == old(self).levels,
            final(self).expired == old(self).expired,
            final(self).overflow == old(self).overflow,
            moved matches Some(slot) ==> final(self).at_of(slot) == at,
            forall|slot: SlotIndex|
                Some(slot) != moved && #[trigger] old(self).slab.holds(slot) ==> final(self).slab.value_at(slot)
                    == old(self).slab.value_at(slot),
    {
        if let Some(slot) = moved {
            proof {
                self.slab.lemma_handles();
            }
            if let Some(key) = self.slab.id_at(slot) {
                self.record(key, at);
            }
        }
    }

    /// Withdraws an entry, handing back its payload.
    pub fn remove(&mut self, key: Key) -> (payload: Option<T>)
        requires
            old(self).wf(),
        ensures
            final(self).wf(),
            payload == if old(self).entries().contains_key(key) {
                Some(old(self).entries()[key].payload)
            } else {
                None
            },
            final(self).removed(old(self), key),
    {
        proof {
            self.slab.lemma_handles();
            self.lemma_due_list();
        }
        let (at, expires_at): (Position, Instant) = match self.slab.get(key) {
            Some(entry) => (entry.at, entry.expires_at),
            None => {
                assert(self.entries() =~= self.entries().remove(key));
                return None;
            },
        };
        let ghost before = *self;
        let ghost lag = self.levels@.len() as int;
        let ghost slot = key.spec_slot();
        proof {
            assert(self.slab.holds(slot));
            self.lemma_in_bounds(slot, lag);
        }
        // Only the entry that supplied a slot's minimum can invalidate it.
        if let Position::Slot { level, slot: ring, .. } = at {
            proof {
                self.lemma_level_covers(level as int);
                self.levels@[level as int].lemma_shape();
            }
            if let Some(known) = self.levels[level].known_minimum(ring) {
                if known.nanos == expires_at.nanos {
                    level_set_minimum(&mut self.levels, level, ring, None);
                    proof {
                        self.lemma_minimum_set(&before, level as int, ring as int, None);
                    }
                }
            }
        }
        proof {
            self.lemma_parked_kept(&before);
            self.slab.lemma_handles();
        }
        let ghost marked = *self;
        self.unlink(key, at);
        let ghost loose = *self;
        proof {
            self.slab.lemma_handles();
            assert(self.slab.holds(slot));
            assert(self.slab@.contains_key(key));
            self.lemma_entries_kept(&before);
        }
        let removed: Option<Entry<T>> = self.slab.remove(key);
        proof {
            self.slab.lemma_handles();
            let flight = Set::<SlotIndex>::empty().insert(slot);
            self.lemma_forgotten(&loose, key, flight);
            assert(flight.remove(slot) =~= Set::<SlotIndex>::empty());
            assert(self.entries() =~= loose.entries().remove(key));
            self.lemma_due_after_removal(&before, &loose, key, at);
            assert forall|other: Key| other != key implies #[trigger] self.level_of(other) == before.level_of(
                other,
            ) by {
                let place = other.spec_slot();
                assert(self.slab.holds(place) <==> loose.slab.holds(place) && place != slot);
                assert(marked.slab.holds(place) == before.slab.holds(place));
                assert(loose.slab.holds(place) == before.slab.holds(place));
                if place == slot && before.slab.holds(place) {
                    assert(before.slab.id_of(place) == key);
                }
            }
        }
        match removed {
            Some(entry) => Some(entry.payload),
            None => None,
        }
    }

    /// What `key` named was withdrawn, if it was held, and nothing else
    /// changed.
    pub open spec fn removed(&self, before: &Self, key: Key) -> bool {
        &&& self.same_time(before)
        &&& self.entries() == before.entries().remove(key)
        &&& before.due().contains(key) ==> swap_removed(before.due(), self.due(), key)
        &&& !before.due().contains(key) ==> self.due() == before.due()
        &&& self.spec_len() == before.spec_len() - if before.entries().contains_key(key) {
            1int
        } else {
            0
        }
        &&& self.insertions() == before.insertions()
        &&& forall|other: Key| #[trigger] self.issued(other) == before.issued(other)
        &&& forall|other: Key| #[trigger]
            self.level_of(other) == if other == key {
                None
            } else {
                before.level_of(other)
            }
    }

    /// An entry in flight can be forgotten.
    proof fn lemma_forgotten(&self, loose: &Self, key: Key, flight: Set<SlotIndex>)
        requires
            loose.shaped(),
            flight.contains(key.spec_slot()),
            loose.filed(flight, loose.levels@.len() as int),
            loose.minima_hold(),
            loose.parked_is_far(),
            loose.slab@.contains_key(key),
            self.current_tick == loose.current_tick,
            self.start == loose.start,
            self.advanced_to == loose.advanced_to,
            self.expired == loose.expired,
            self.levels == loose.levels,
            self.overflow == loose.overflow,
            self.reach == loose.reach,
            self.ticks_processed == loose.ticks_processed,
            self.slab.wf(),
            forall|slot: SlotIndex| #[trigger]
                self.slab.holds(slot) <==> loose.slab.holds(slot) && slot != key.spec_slot(),
            forall|slot: SlotIndex| #[trigger]
                self.slab.holds(slot) ==> self.slab.value_at(slot) == loose.slab.value_at(slot),
        ensures
            self.shaped(),
            self.filed(flight.remove(key.spec_slot()), self.levels@.len() as int),
            self.minima_hold(),
            self.parked_is_far(),
    {
        let lag = self.levels@.len() as int;
        assert forall|at: Position| #[trigger] self.occupant(at) == loose.occupant(at) by {
        }
        assert forall|slot: SlotIndex| #[trigger]
            self.slab.holds(slot) && !flight.remove(key.spec_slot()).contains(slot) implies self.occupant(self.at_of(slot))
            == Some(slot) && self.placed_right(slot, lag) by {
            assert(loose.slab.holds(slot));
            assert(loose.placed_right(slot, lag));
            assert(loose.occupant(loose.at_of(slot)) == Some(slot));
        }
        assert forall|level: int| 0 <= level < self.levels@.len() implies self.level_shaped(level) by {
            assert(loose.level_shaped(level));
        }
        assert forall|level: int, ring: int|
            0 <= level < self.levels@.len() && 0 <= ring < self.levels@[level].count() && (
            #[trigger] self.levels@[level].known(ring)) is Some implies self.is_minimum(
            self.levels@[level].bucket(ring),
            self.levels@[level].known(ring)->0,
        ) by {
            let bucket = loose.levels@[level].bucket(ring);
            let m = loose.levels@[level].known(ring)->0;
            assert(loose.is_minimum(bucket, m));
            assert forall|i: int| 0 <= i < bucket.len() implies self.deadline_of(#[trigger] bucket[i])
                == loose.deadline_of(bucket[i]) by {
                loose.lemma_bucket_entry(flight, lag, level, ring, i);
                assert(self.slab.holds(bucket[i]));
            }
            let i = choose|i: int| 0 <= i < bucket.len() && loose.deadline_of(#[trigger] bucket[i]) == m;
            assert(self.deadline_of(bucket[i]) == m);
        }
        assert forall|parked: u128| (#[trigger] self.overflow.bucket(parked)).len() > 0 implies self.key_tick(parked)
            >= self.current_tick + self.reach by {
            assert(loose.overflow.bucket(parked).len() > 0);
        }
    }

    proof fn lemma_due_after_removal(&self, before: &Self, loose: &Self, key: Key, at: Position)
        requires
            before.wf(),
            before.slab@.contains_key(key),
            before.at_of(key.spec_slot()) == at,
            loose.refiled(before),
            at !is Expired ==> loose.expired@ == before.expired@,
            at matches Position::Expired { index } ==> loose.expired@ == before.expired@.update(
                index as int,
                before.expired@.last(),
            ).drop_last(),
            self.expired == loose.expired,
            forall|slot: SlotIndex| #[trigger]
                self.slab.holds(slot) <==> loose.slab.holds(slot) && slot != key.spec_slot(),
            forall|slot: SlotIndex| #[trigger]
                self.slab.holds(slot) ==> self.slab.id_of(slot) == loose.slab.id_of(slot),
        ensures
            before.due().contains(key) ==> swap_removed(before.due(), self.due(), key),
            !before.due().contains(key) ==> self.due() == before.due(),
    {
        let lag = before.levels@.len() as int;
        let slot = key.spec_slot();
        before.lemma_due_list();
        before.slab.lemma_handles();
        assert(before.occupant(at) == Some(slot));
        assert forall|i: int| 0 <= i < before.expired@.len() && before.expired@[i] != slot implies self.slab.id_of(
            #[trigger] before.expired@[i],
        ) == before.due()[i] by {
            before.lemma_expired_entry(Set::empty(), lag, i);
            assert(loose.slab.holds(before.expired@[i]));
            assert(self.slab.holds(before.expired@[i]));
        }
        assert forall|i: int| 0 <= i < before.expired@.len() && #[trigger] before.expired@[i] == slot implies at == (
        Position::Expired { index: i as usize }) && i <= usize::MAX by {
            before.lemma_expired_entry(Set::empty(), lag, i);
        }
        match at {
            Position::Expired { index } => {
                let i = index as int;
                let shorter = before.due().update(i, before.due().last()).drop_last();
                assert(before.due()[i] == key);
                assert forall|j: int| 0 <= j < shorter.len() implies self.due()[j] == #[trigger] shorter[j] by {
                    if j == i {
                        assert(before.expired@[before.expired@.len() - 1] == loose.expired@[j]);
                    } else {
                        assert(before.expired@[j] == loose.expired@[j]);
                    }
                }
                assert(self.due() =~= shorter);
            },
            _ => {
                assert forall|i: int| 0 <= i < before.expired@.len() implies self.due()[i] == #[trigger] before.due()[i] by {
                    assert(before.expired@[i] != slot);
                }
                assert(self.due() =~= before.due());
            },
        }
    }

    /// Takes everything that has come due, appending it to `out`.
    ///
    /// Neither buffer gives up its allocation: `out` belongs to the caller and
    /// is reused across polls, and the pending list is cleared rather than
    /// dropped. A caller draining on every poll should prefer this to
    /// [`TimingWheel::drain_expired`], which allocates a vector per call.
    pub fn drain_expired_into(&mut self, out: &mut Vec<(Key, T)>)
        requires
            old(self).wf(),
        ensures
            final(self).wf(),
            final(self).drained(old(self)),
            final(out)@ == old(out)@ + old(self).due_payloads(),
    {
        let ghost before = *self;
        let ghost lag = self.levels@.len() as int;
        let mut due: Vec<SlotIndex> = Vec::new();
        core::mem::swap(&mut self.expired, &mut due);
        let ghost taken = *self;
        proof {
            before.slab.lemma_handles();
            before.lemma_due_list();
            self.lemma_expired_taken(&before, due@);
        }
        let mut i: usize = 0;
        while i < due.len()
            invariant
                i <= due@.len(),
                due@ == before.expired@,
                due@.no_duplicates(),
                lag == self.levels@.len(),
                before.wf(),
                before.due().no_duplicates(),
                before.due().len() == due@.len(),
                self.shaped(),
                self.filed(pending(due@, i as int), lag),
                self.minima_hold(),
                self.parked_is_far(),
                self.up_to_date(),
                self.expired@.len() == 0,
                self.same_time(&before),
                self.slab.insertions() == before.slab.insertions(),
                self.slab.spec_len() == before.slab.spec_len() - i,
                forall|key: Key| #[trigger] self.slab.issued(key) == before.slab.issued(key),
                forall|key: Key| #[trigger]
                    self.slab@.contains_key(key) <==> before.slab@.contains_key(key) && !before.due().take(
                        i as int,
                    ).contains(key),
                forall|key: Key| #[trigger]
                    self.slab@.contains_key(key) ==> self.slab@[key] == before.slab@[key],
                out@ =~= old(out)@ + before.due_payloads().take(i as int),
            decreases due@.len() - i,
        {
            let ghost loose = *self;
            let ghost flight = pending(due@, i as int);
            let index: SlotIndex = due[i];
            proof {
                lemma_pending_step(due@, i as int);
                self.slab.lemma_handles();
                before.slab.lemma_handles();
                before.lemma_expired_entry(Set::empty(), lag, i as int);
                assert(self.slab.holds(index));
                assert(before.due()[i as int] == before.slab.id_of(index));
                assert(before.slab@.contains_key(before.due()[i as int]));
                let now = self.slab.id_of(index);
                assert(self.slab@.contains_key(now));
                assert(before.slab@.contains_key(now));
                assert(now == before.due()[i as int]);
            }
            if let Some(key) = self.slab.id_at(index) {
                if let Some(entry) = self.slab.remove(key) {
                    proof {
                        self.slab.lemma_handles();
                        self.lemma_forgotten(&loose, key, flight);
                        assert(before.due_payloads()[i as int] == (key, entry.payload));
                        assert(before.due_payloads().take(i + 1) =~= before.due_payloads().take(i as int).push(
                            (key, entry.payload),
                        ));
                        assert(before.due().take(i + 1) =~= before.due().take(i as int).push(key));
                        assert forall|other: Key| #[trigger]
                            self.slab@.contains_key(other) <==> before.slab@.contains_key(other) && !before.due().take(
                                i + 1,
                            ).contains(other) by {
                            lemma_push_contains(before.due().take(i as int), key, other);
                        }
                        assert forall|other: Key| #[trigger] self.slab.issued(other) == before.slab.issued(other) by {
                            assert(loose.slab.issued(other) == before.slab.issued(other));
                        }
                    }
                    out.push((key, entry.payload));
                }
            }
            i = i + 1;
        }
        due.clear();
        let ghost emptied = *self;
        self.expired = due;
        proof {
            lemma_pending_done(before.expired@);
            assert(before.due().take(i as int) =~= before.due());
            assert(before.due_payloads().take(i as int) =~= before.due_payloads());
            assert(self.expired@ =~= emptied.expired@);
            self.lemma_same_but_storage(&emptied);
            assert(self.due() =~= Seq::<Key>::empty());
            assert(self.entries() =~= before.entries().remove_keys(before.due().to_set()));
            before.lemma_due_list();
            self.slab.lemma_handles();
            before.slab.lemma_handles();
            assert forall|key: Key| #[trigger] self.level_of(key) == before.level_of(key) by {
                assert(emptied.slab@.contains_key(key) <==> before.slab@.contains_key(key) && !before.due().contains(
                    key,
                ));
            }
        }
    }

    /// What has come due with what it carries, in order.
    pub open spec fn due_payloads(&self) -> Seq<(Key, T)> {
        Seq::new(self.due().len(), |i: int| (self.due()[i], self.entries()[self.due()[i]].payload))
    }

    /// Everything due was taken and nothing else changed.
    pub open spec fn drained(&self, before: &Self) -> bool {
        &&& self.same_time(before)
        &&& self.entries() == before.entries().remove_keys(before.due().to_set())
        &&& self.due() == Seq::<Key>::empty()
        &&& self.spec_len() == before.spec_len() - before.due().len()
        &&& self.insertions() == before.insertions()
        &&& forall|key: Key| #[trigger] self.issued(key) == before.issued(key)
        &&& forall|key: Key| #[trigger] self.level_of(key) == before.level_of(key)
    }

    /// Taking the list of what is due puts everything on it in flight.
    proof fn lemma_expired_taken(&self, before: &Self, due: Seq<SlotIndex>)
        requires
            before.wf(),
            due == before.expired@,
            self.expired@.len() == 0,
            self.current_tick == before.current_tick,
            self.start == before.start,
            self.advanced_to == before.advanced_to,
            self.slab == before.slab,
            self.levels == before.levels,
            self.overflow == before.overflow,
            self.reach == before.reach,
            self.ticks_processed == before.ticks_processed,
        ensures
            due.no_duplicates(),
            self.shaped(),
            self.filed(pending(due, 0), self.levels@.len() as int),
            self.minima_hold(),
            self.parked_is_far(),
    {
        let lag = self.levels@.len() as int;
        let flight = pending(due, 0);
        assert forall|i: int| 0 <= i < due.len() implies {
            &&& before.slab.holds(#[trigger] due[i])
            &&& before.at_of(due[i]) == (Position::Expired { index: i as usize })
            &&& i <= usize::MAX
        } by {
            before.lemma_expired_entry(Set::empty(), lag, i);
        }
        assert(self.refiled(before));
        self.lemma_shaped_kept(before);
        assert forall|at: Position| #[trigger] self.occupant(at) == (if at is Expired {
            None
        } else {
            before.occupant(at)
        }) by {
        }
        assert forall|slot: SlotIndex| #[trigger]
            self.slab.holds(slot) && !flight.contains(slot) implies self.occupant(self.at_of(slot)) == Some(slot)
            && self.placed_right(slot, lag) by {
            assert(before.occupant(before.at_of(slot)) == Some(slot));
            assert(before.placed_right(slot, lag));
            if let Position::Expired { index } = self.at_of(slot) {
                assert(due[index as int] == slot);
            }
        }
        assert forall|at: Position| (#[trigger] self.occupant(at)) is Some implies ({
            let slot = self.occupant(at)->0;
            &&& self.slab.holds(slot)
            &&& !flight.contains(slot)
            &&& self.at_of(slot) == at
        }) by {
            assert(before.occupant(at) == self.occupant(at));
        }
        self.lemma_minima_kept(before, Set::empty(), lag);
        self.lemma_parked_kept(before);
    }

    /// An empty list of what is due is as good as another.
    proof fn lemma_same_but_storage(&self, before: &Self)
        requires
            before.shaped(),
            before.filed(Set::empty(), before.levels@.len() as int),
            before.minima_hold(),
            before.parked_is_far(),
            before.up_to_date(),
            self.expired@ == before.expired@,
            self.current_tick == before.current_tick,
            self.start == before.start,
            self.advanced_to == before.advanced_to,
            self.slab == before.slab,
            self.levels == before.levels,
            self.overflow == before.overflow,
            self.reach == before.reach,
            self.ticks_processed == before.ticks_processed,
        ensures
            self.wf(),
    {
        let lag = self.levels@.len() as int;
        assert(self.refiled(before));
        self.lemma_shaped_kept(before);
        assert forall|at: Position| #[trigger] self.occupant(at) == before.occupant(at) by {
        }
        assert forall|slot: SlotIndex| #[trigger]
            self.slab.holds(slot) && !Set::<SlotIndex>::empty().contains(slot) implies self.occupant(self.at_of(slot))
            == Some(slot) && self.placed_right(slot, lag) by {
            assert(before.occupant(before.at_of(slot)) == Some(slot));
            assert(before.placed_right(slot, lag));
        }
        self.lemma_minima_kept(before, Set::empty(), lag);
        self.lemma_parked_kept(before);
    }

    /// Takes everything that has come due.
    ///
    /// Allocates a vector per call. [`TimingWheel::drain_expired_into`] does
    /// not.
    pub fn drain_expired(&mut self) -> (out: Vec<(Key, T)>)
        requires
            old(self).wf(),
        ensures
            final(self).wf(),
            final(self).drained(old(self)),
            out@ == old(self).due_payloads(),
    {
        let mut out: Vec<(Key, T)> = Vec::new();
        self.drain_expired_into(&mut out);
        assert(out@ =~= old(self).due_payloads());
        out
    }
}

proof fn lemma_push_contains<A>(list: Seq<A>, item: A, other: A)
    ensures
        list.push(item).contains(other) <==> list.contains(other) || other == item,
{
    if list.contains(other) {
        let i = choose|i: int| 0 <= i < list.len() && list[i] == other;
        assert(list.push(item)[i] == other);
    }
    assert(list.push(item)[list.len() as int] == item);
}

} // verus!
