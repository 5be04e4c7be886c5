//! Stable storage for timer entries.
//!
//! A cascading wheel moves a timer between slots as time advances, so a handle
//! that names a wheel position stops being valid the moment the timer
//! cascades. This slab gives every timer a position that does not move for as
//! long as it lives; the wheel stores slab indices, and cascading moves an
//! index rather than an entry.
//!
//! That makes cancellation an array index instead of a hash lookup, and it
//! removes the class of bug where a handle silently addresses a different
//! timer: an index is bounded by *live* timers rather than by total
//! insertions, and a generation counter distinguishes a reused slot from the
//! one a stale handle remembers.

use vstd::prelude::*;

verus! {

/// Position in the slab. Bounded by concurrently live timers.
///
/// Deliberately not an alias for `u32`: a storage position and a monotonic
/// identity must not be assignable to one another.
#[derive(Debug, Clone, Copy, PartialEq, Eq, Hash, PartialOrd, Ord, Structural)]
pub struct SlotIndex(u32);

impl SlotIndex {
    /// The position as a number.
    pub closed spec fn number(self) -> nat {
        self.0 as nat
    }

    /// The slab is addressed by `u32`, so it cannot grow past `u32::MAX`
    /// entries. This is the only place a `usize` becomes a `SlotIndex`.
    pub fn new(index: usize) -> (slot: Option<Self>)
        ensures
            slot is Some <==> index <= u32::MAX,
            slot is Some ==> slot->0.number() == index,
    {
        if index <= u32::MAX as usize {
            Some(SlotIndex(index as u32))
        } else {
            None
        }
    }

    /// The position as an index into the slab's storage.
    pub fn as_usize(self) -> (index: usize)
        ensures
            index == self.number(),
    {
        self.0 as usize
    }

    /// Two positions with the same number are the same position.
    pub proof fn law_number_identifies(a: SlotIndex, b: SlotIndex)
        ensures
            a.number() == b.number() <==> a == b,
    {
    }
}

/// Distinguishes a reused slot from the one a stale handle remembers.
///
/// Wide on purpose. A slot is reused every time a timer is cancelled and
/// another inserted, and with a LIFO free list a hot slot is reused
/// immediately — at a million operations a second a 32-bit counter returns to
/// a value a stale handle still matches in about 72 minutes.
#[derive(Debug, Clone, Copy, PartialEq, Eq, Hash, Structural)]
pub struct Generation(u64);

impl Generation {
    /// How many timers the slot has held up to and with this one.
    pub closed spec fn number(self) -> nat {
        self.0 as nat
    }

    /// The generation of a slot's first timer.
    pub fn first() -> (generation: Self)
        ensures
            generation.number() == 1,
    {
        Generation(1)
    }

    /// The generation after this one. It never wraps: wrapping would reissue
    /// generation 1, the value a slot's very first handle carried, which is
    /// precisely the collision generations exist to prevent.
    pub fn next(self) -> (generation: Self)
        requires
            self.number() < u64::MAX,
        ensures
            generation.number() == self.number() + 1,
    {
        Generation(self.0 + 1)
    }

    /// The generation as a number.
    pub fn get(self) -> (raw: u64)
        ensures
            raw == self.number(),
    {
        self.0
    }
}

/// A handle to a timer, valid until that timer is removed.
///
/// Names a slab position, not a wheel position, so cascading does not
/// invalidate it.
#[derive(Debug, Clone, Copy, PartialEq, Eq, Hash, Structural)]
pub struct TimerId {
    slot: SlotIndex,
    generation: Generation,
}

impl TimerId {
    /// The slab position this handle names.
    pub closed spec fn spec_slot(self) -> SlotIndex {
        self.slot
    }

    /// Which of the timers that position has held the handle names.
    pub closed spec fn spec_generation(self) -> Generation {
        self.generation
    }

    /// The slab position this handle names.
    ///
    /// The wheel stores bare positions rather than whole handles: a slot holds
    /// four bytes per timer instead of twelve, so cascading a slot moves four
    /// times as many timers per cache line.
    pub fn slot(self) -> (slot: SlotIndex)
        ensures
            slot == self.spec_slot(),
    {
        self.slot
    }

    /// Which of the timers that position has held the handle names.
    pub fn generation(self) -> (generation: Generation)
        ensures
            generation == self.spec_generation(),
    {
        self.generation
    }

    /// A handle is its position and its generation: two that share both are one.
    pub proof fn law_parts_identify(a: TimerId, b: TimerId)
        ensures
            a.spec_slot() == b.spec_slot() && a.spec_generation() == b.spec_generation() <==> a == b,
    {
    }
}

#[derive(Debug)]
enum Slot<T> {
    Occupied { generation: Generation, value: T },
    Vacant {
        /// Kept across the vacancy: a handle to the timer that used to live
        /// here must not match the next one that does.
        generation: Generation,
        next_free: Option<SlotIndex>,
    },
}

/// A position without the value it holds.
ghost struct Outline {
    occupied: bool,
    generation: Generation,
    next_free: Option<SlotIndex>,
}

impl<T> Slot<T> {
    spec fn outline(self) -> Outline {
        match self {
            Slot::Occupied { generation, .. } => Outline { occupied: true, generation, next_free: None },
            Slot::Vacant { generation, next_free } => Outline {
                occupied: false,
                generation,
                next_free,
            },
        }
    }
}

spec fn outlines<T>(slots: Seq<Slot<T>>) -> Seq<Outline> {
    slots.map_values(|slot: Slot<T>| slot.outline())
}

/// The free list `free`, tail first, threads through exactly the vacant
/// positions, each once.
#[verifier::opaque]
spec fn threads_vacancies(outline: Seq<Outline>, free: Seq<SlotIndex>) -> bool {
    &&& free.no_duplicates()
    &&& forall|k: int|
        0 <= k < free.len() ==> {
            &&& (#[trigger] free[k]).0 < outline.len()
            &&& !outline[free[k].0 as int].occupied
            &&& outline[free[k].0 as int].next_free == if k == 0 {
                None
            } else {
                Some(free[k - 1])
            }
        }
    &&& forall|i: int|
        0 <= i < outline.len() && !(#[trigger] outline[i]).occupied ==> free.contains(
            SlotIndex(i as u32),
        )
}

/// Every position has held at least one value, and none more than were stored.
spec fn generations_counted(outline: Seq<Outline>, insertions: nat) -> bool {
    &&& outline.len() <= insertions
    &&& forall|i: int| 0 <= i < outline.len() ==> 1 <= (#[trigger] outline[i]).generation.0 <= insertions
}

/// The handles of the occupied positions.
spec fn live_handles(outline: Seq<Outline>) -> Set<TimerId> {
    Set::new(
        |id: TimerId|
            id.slot.0 < outline.len() && outline[id.slot.0 as int].occupied
                && outline[id.slot.0 as int].generation == id.generation,
    )
}

/// The head of the free list is a vacancy that names the one behind it.
proof fn lemma_head(outline: Seq<Outline>, free: Seq<SlotIndex>)
    requires
        threads_vacancies(outline, free),
        free.len() > 0,
    ensures
        free.last().0 < outline.len(),
        !outline[free.last().0 as int].occupied,
        outline[free.last().0 as int].next_free == if free.len() == 1 {
            None
        } else {
            Some(free.drop_last().last())
        },
{
    reveal(threads_vacancies);
    assert(free[free.len() - 1] == free.last());
}

/// Filling the vacancy at the head of the free list takes it off the list.
proof fn lemma_fill_vacancy(outline: Seq<Outline>, free: Seq<SlotIndex>, filled: Outline)
    requires
        outline.len() <= u32::MAX + 1,
        threads_vacancies(outline, free),
        free.len() > 0,
        filled.occupied,
    ensures
        threads_vacancies(outline.update(free.last().0 as int, filled), free.drop_last()),
{
    reveal(threads_vacancies);
    let after = outline.update(free.last().0 as int, filled);
    let rest = free.drop_last();
    assert(free[free.len() - 1] == free.last());
    assert forall|k: int| 0 <= k < rest.len() implies {
        &&& (#[trigger] rest[k]).0 < after.len()
        &&& !after[rest[k].0 as int].occupied
        &&& after[rest[k].0 as int].next_free == if k == 0 {
            None
        } else {
            Some(rest[k - 1])
        }
    } by {
        assert(free[k] == rest[k]);
        if k > 0 {
            assert(free[k - 1] == rest[k - 1]);
        }
    }
    assert forall|i: int| 0 <= i < after.len() && !(#[trigger] after[i]).occupied implies rest.contains(
        SlotIndex(i as u32),
    ) by {
        assert(!outline[i].occupied);
        let k = choose|k: int| 0 <= k < free.len() && free[k] == SlotIndex(i as u32);
        assert(k != free.len() - 1);
        assert(rest[k] == SlotIndex(i as u32));
    }
}

/// Emptying an occupied position puts it at the head of the free list.
proof fn lemma_vacate(outline: Seq<Outline>, free: Seq<SlotIndex>, slot: SlotIndex, vacated: Outline)
    requires
        outline.len() <= u32::MAX + 1,
        threads_vacancies(outline, free),
        slot.0 < outline.len(),
        outline[slot.0 as int].occupied,
        !vacated.occupied,
        vacated.next_free == if free.len() == 0 {
            None
        } else {
            Some(free.last())
        },
    ensures
        threads_vacancies(outline.update(slot.0 as int, vacated), free.push(slot)),
{
    reveal(threads_vacancies);
    let after = outline.update(slot.0 as int, vacated);
    let longer = free.push(slot);
    assert(forall|k: int| 0 <= k < free.len() ==> #[trigger] free[k] != slot);
    assert forall|k: int| 0 <= k < longer.len() implies {
        &&& (#[trigger] longer[k]).0 < after.len()
        &&& !after[longer[k].0 as int].occupied
        &&& after[longer[k].0 as int].next_free == if k == 0 {
            None
        } else {
            Some(longer[k - 1])
        }
    } by {
        if k < free.len() {
            assert(free[k] == longer[k]);
            assert(free[k] != slot);
            if k > 0 {
                assert(free[k - 1] == longer[k - 1]);
            }
        }
    }
    assert forall|i: int| 0 <= i < after.len() && !(#[trigger] after[i]).occupied implies longer.contains(
        SlotIndex(i as u32),
    ) by {
        if i == slot.0 {
            assert(longer[free.len() as int] == SlotIndex(i as u32));
        } else {
            assert(!outline[i].occupied);
            let k = choose|k: int| 0 <= k < free.len() && free[k] == SlotIndex(i as u32);
            assert(longer[k] == SlotIndex(i as u32));
        }
    }
}

/// While a position is occupied, the free list is shorter than the slab.
proof fn lemma_occupied_leaves_room(outline: Seq<Outline>, free: Seq<SlotIndex>, slot: SlotIndex)
    requires
        threads_vacancies(outline, free),
        slot.0 < outline.len(),
        outline[slot.0 as int].occupied,
    ensures
        free.len() < outline.len(),
{
    reveal(threads_vacancies);
    let numbers = free.push(slot).map_values(|s: SlotIndex| s.0 as int);
    let range = vstd::set_lib::set_int_range(0, outline.len() as int);
    assert(numbers.no_duplicates()) by {
        assert(forall|k: int| 0 <= k < free.len() ==> #[trigger] free[k] != slot);
    }
    numbers.unique_seq_to_set();
    vstd::set_lib::lemma_int_range(0, outline.len() as int);
    assert(numbers.to_set().subset_of(range)) by {
        assert forall|n: int| numbers.to_set().contains(n) implies range.contains(n) by {
            let k = choose|k: int| 0 <= k < numbers.len() && numbers[k] == n;
            if k < free.len() {
                assert(free[k].0 < outline.len());
            }
        }
    }
    vstd::set_lib::lemma_len_subset(numbers.to_set(), range);
}

/// A new occupied position leaves the free list as it is.
proof fn lemma_grow(outline: Seq<Outline>, free: Seq<SlotIndex>, filled: Outline)
    requires
        threads_vacancies(outline, free),
        filled.occupied,
    ensures
        threads_vacancies(outline.push(filled), free),
{
    reveal(threads_vacancies);
    let after = outline.push(filled);
    assert forall|i: int| 0 <= i < after.len() && !(#[trigger] after[i]).occupied implies free.contains(
        SlotIndex(i as u32),
    ) by {
        assert(!outline[i].occupied);
    }
}

/// Puts `item` at `index` and hands back what was there.
fn replace_at<T>(items: &mut Vec<T>, index: usize, item: T) -> (previous: T)
    requires
        index < old(items)@.len(),
    ensures
        final(items)@ == old(items)@.update(index as int, item),
        previous == old(items)@[index as int],
{
    let mut item = item;
    core::mem::swap(&mut items[index], &mut item);
    item
}

/// Borrows the value at `index` when that position is occupied.
fn occupant_mut<T>(slots: &mut Vec<Slot<T>>, index: usize) -> (value: Option<&mut T>)
    requires
        index < old(slots)@.len(),
    ensures
        value is Some <==> old(slots)@[index as int] is Occupied,
        value matches Some(borrowed) ==> *borrowed == old(slots)@[index as int]->value,
        final(slots)@ == match value {
            Some(borrowed) => old(slots)@.update(
                index as int,
                (Slot::Occupied {
                    generation: old(slots)@[index as int]->Occupied_generation,
                    value: *final(borrowed),
                }),
            ),
            None => old(slots)@,
        },
        outlines(final(slots)@) == outlines(old(slots)@),
{
    match &mut slots[index] {
        Slot::Occupied { value, .. } => Some(value),
        Slot::Vacant { .. } => None,
    }
}

/// The last of a list, if there is one.
pub open spec fn last_of<A>(list: Seq<A>) -> Option<A> {
    if list.len() == 0 {
        None
    } else {
        Some(list.last())
    }
}

/// Slab of timer entries addressed by stable handles.
pub struct TimerSlab<T> {
    slots: Vec<Slot<T>>,
    free_head: Option<SlotIndex>,
    live: usize,
    /// The free list from its tail to its head.
    free: Ghost<Seq<SlotIndex>>,
    /// How many values were ever stored.
    insertions: Ghost<nat>,
}

impl<T> View for TimerSlab<T> {
    type V = Map<TimerId, T>;

    /// What each live handle names.
    closed spec fn view(&self) -> Map<TimerId, T> {
        Map::new(|id: TimerId| self.holds(id.slot) && self.id_of(id.slot) == id, |id: TimerId| self.value_at(id.slot))
    }
}

impl<T> TimerSlab<T> {
    /// Whether a position holds a live value.
    pub closed spec fn holds(&self, slot: SlotIndex) -> bool {
        slot.0 < self.slots@.len() && self.outline()[slot.0 as int].occupied
    }

    /// The value at a position that holds one.
    pub closed spec fn value_at(&self, slot: SlotIndex) -> T {
        self.slots@[slot.0 as int]->value
    }

    /// The handle of the value at a position that holds one.
    pub closed spec fn id_of(&self, slot: SlotIndex) -> TimerId {
        TimerId { slot, generation: self.outline()[slot.0 as int].generation }
    }

    /// Whether `insert` ever returned this handle.
    pub closed spec fn issued(&self, id: TimerId) -> bool {
        &&& id.slot.0 < self.slots@.len()
        &&& 1 <= id.generation.0 <= self.outline()[id.slot.0 as int].generation.0
    }

    /// How many values are live.
    pub closed spec fn spec_len(&self) -> nat {
        self.live as nat
    }

    /// How many values were ever stored.
    pub closed spec fn insertions(&self) -> nat {
        self.insertions@
    }

    /// How many positions exist, live or waiting to be reused.
    pub closed spec fn positions(&self) -> nat {
        self.slots@.len()
    }

    /// The positions waiting to be reused. The one given back last is taken
    /// first.
    pub closed spec fn vacancies(&self) -> Seq<SlotIndex> {
        self.free@
    }

    /// The position the next insertion takes has an identity left to give.
    pub closed spec fn next_position_usable(&self) -> bool {
        match self.free_head {
            Some(slot) => self.outline()[slot.0 as int].generation.0 < u64::MAX,
            None => self.slots@.len() <= u32::MAX,
        }
    }

    /// Another value can be stored: at most `u32::MAX` are live, and the
    /// position to be reused has not used up its generations, which takes more
    /// insertions than a `u64` counts.
    pub open spec fn has_room(&self) -> bool {
        ||| self.spec_len() <= u32::MAX && self.insertions() < u64::MAX
        ||| self.next_position_usable()
    }

    spec fn outline(&self) -> Seq<Outline> {
        outlines(self.slots@)
    }

    /// The free list threads through exactly the vacant positions, each once.
    pub closed spec fn wf(&self) -> bool {
        &&& self.slots@.len() <= u32::MAX + 1
        &&& self.live + self.free@.len() == self.slots@.len()
        &&& self.free_head == if self.free@.len() == 0 {
            None
        } else {
            Some(self.free@.last())
        }
        &&& threads_vacancies(self.outline(), self.free@)
        &&& generations_counted(self.outline(), self.insertions@)
        &&& live_handles(self.outline()).finite()
        &&& live_handles(self.outline()).len() == self.live
    }

    /// As many handles are live as values are stored.
    pub proof fn lemma_len(&self)
        requires
            self.wf(),
        ensures
            self@.dom().finite(),
            self@.dom().len() == self.spec_len(),
    {
        self.lemma_domain();
    }

    proof fn lemma_domain(&self)
        ensures
            self@.dom() == live_handles(self.outline()),
    {
        assert(self@.dom() =~= live_handles(self.outline()));
    }

    /// An empty slab.
    pub fn new() -> (slab: Self)
        ensures
            slab.wf(),
            slab@ == Map::<TimerId, T>::empty(),
            slab.spec_len() == 0,
            slab.positions() == 0,
            slab.vacancies() == Seq::<SlotIndex>::empty(),
            slab.insertions() == 0,
            forall|slot: SlotIndex| !#[trigger] slab.holds(slot),
            forall|id: TimerId| !#[trigger] slab.issued(id),
    {
        let slab = TimerSlab {
            slots: Vec::new(),
            free_head: None,
            live: 0,
            free: Ghost(Seq::empty()),
            insertions: Ghost(0),
        };
        proof {
            reveal(threads_vacancies);
            assert(slab@ =~= Map::<TimerId, T>::empty());
            slab.lemma_domain();
        }
        slab
    }

    /// Number of occupied positions.
    pub fn len(&self) -> (len: usize)
        ensures
            len == self.spec_len(),
    {
        self.live
    }

    /// Number of positions, occupied or waiting to be reused.
    pub fn slot_count(&self) -> (count: usize)
        ensures
            count == self.positions(),
    {
        self.slots.len()
    }

    /// Stores a value and returns a handle to it, one that was never handed
    /// out before.
    pub fn insert(&mut self, value: T) -> (id: TimerId)
        requires
            old(self).wf(),
            old(self).has_room(),
        ensures
            final(self).wf(),
            !old(self).issued(id),
            !old(self).holds(id.spec_slot()),
            final(self)@ == old(self)@.insert(id, value),
            final(self).spec_len() == old(self).spec_len() + 1,
            final(self).insertions() == old(self).insertions() + 1,
            final(self).positions() == if old(self).spec_len() == old(self).positions() {
                old(self).positions() + 1
            } else {
                old(self).positions()
            },
            id.spec_slot().number() < final(self).positions(),
            match last_of(old(self).vacancies()) {
                Some(vacancy) => id.spec_slot() == vacancy && final(self).vacancies() == old(self).vacancies().drop_last(),
                None => id.spec_slot().number() == old(self).positions() && final(self).vacancies() == old(self).vacancies(),
            },
            forall|other: TimerId| #[trigger]
                final(self).issued(other) <==> old(self).issued(other) || other == id,
            final(self).holds(id.spec_slot()),
            final(self).value_at(id.spec_slot()) == value,
            final(self).id_of(id.spec_slot()) == id,
            forall|slot: SlotIndex|
                slot != id.spec_slot() ==> (#[trigger] final(self).holds(slot) <==> old(self).holds(
                    slot,
                )),
            forall|slot: SlotIndex|
                slot != id.spec_slot() && #[trigger] old(self).holds(slot) ==> final(self).value_at(
                    slot,
                ) == old(self).value_at(slot) && final(self).id_of(slot) == old(self).id_of(slot),
    {
        match self.free_head {
            Some(slot_index) => {
                let ghost free = self.free@;
                proof {
                    lemma_head(self.outline(), free);
                }
                let index: usize = slot_index.as_usize();
                let (generation, next_free) = match &self.slots[index] {
                    Slot::Vacant { generation, next_free } => (generation.next(), *next_free),
                    Slot::Occupied { generation, .. } => (*generation, None),
                };
                self.slots.set(index, Slot::Occupied { generation, value });
                self.free_head = next_free;
                self.live = self.live + 1;
                self.free = Ghost(free.drop_last());
                self.insertions = Ghost(self.insertions@ + 1);
                let id = TimerId { slot: slot_index, generation };
                proof {
                    lemma_fill_vacancy(old(self).outline(), free, self.slots@[index as int].outline());
                    assert(self.outline() =~= old(self).outline().update(
                        index as int,
                        self.slots@[index as int].outline(),
                    ));
                    assert forall|other: TimerId| #[trigger]
                        self.issued(other) <==> old(self).issued(other) || other == id by {
                        if self.issued(other) && other.slot == slot_index && other.generation.0
                            == generation.0 {
                            assert(other == id);
                        }
                    }
                    assert(self@ =~= old(self)@.insert(id, value));
                    self.lemma_domain();
                    old(self).lemma_domain();
                }
                id
            },
            None => {
                let ghost count = self.slots@.len();
                let slot_index = SlotIndex(self.slots.len() as u32);
                let generation = Generation::first();
                self.slots.push(Slot::Occupied { generation, value });
                assert(self.slots.len() == count + 1);
                self.live = self.live + 1;
                self.insertions = Ghost(self.insertions@ + 1);
                let id = TimerId { slot: slot_index, generation };
                proof {
                    lemma_grow(old(self).outline(), self.free@, self.slots@[count as int].outline());
                    assert(self.outline() =~= old(self).outline().push(
                        self.slots@[count as int].outline(),
                    ));
                    assert forall|other: TimerId| #[trigger]
                        self.issued(other) <==> old(self).issued(other) || other == id by {
                        if self.issued(other) && other.slot.0 == count {
                            assert(other == id);
                        }
                    }
                    assert(self@ =~= old(self)@.insert(id, value));
                    self.lemma_domain();
                    old(self).lemma_domain();
                }
                id
            },
        }
    }

    /// Takes the value a handle names, if it is still the one that was stored.
    ///
    /// Returns `None` for a handle whose timer has already been removed, which
    /// is the ordinary case for a timer that fired before it was cancelled.
    pub fn remove(&mut self, id: TimerId) -> (value: Option<T>)
        requires
            old(self).wf(),
        ensures
            final(self).wf(),
            value == if old(self)@.contains_key(id) {
                Some(old(self)@[id])
            } else {
                None
            },
            final(self)@ == old(self)@.remove(id),
            value is None ==> final(self)@ == old(self)@,
            final(self).spec_len() == old(self).spec_len() - if value is Some {
                1int
            } else {
                0
            },
            final(self).insertions() == old(self).insertions(),
            final(self).positions() == old(self).positions(),
            final(self).vacancies() == if value is Some {
                old(self).vacancies().push(id.spec_slot())
            } else {
                old(self).vacancies()
            },
            forall|other: TimerId| #[trigger]
                final(self).issued(other) <==> old(self).issued(other),
            forall|slot: SlotIndex| #[trigger]
                final(self).holds(slot) <==> old(self).holds(slot) && !(value is Some && slot
                    == id.spec_slot()),
            forall|slot: SlotIndex| #[trigger]
                final(self).holds(slot) ==> final(self).value_at(slot) == old(self).value_at(slot)
                    && final(self).id_of(slot) == old(self).id_of(slot),
    {
        let index: usize = id.slot.as_usize();
        proof {
            if !old(self)@.contains_key(id) {
                assert(old(self)@.remove(id) =~= old(self)@);
            }
        }
        if index >= self.slots.len() {
            return None;
        }
        let matches: bool = match &self.slots[index] {
            Slot::Occupied { generation, .. } => generation.0 == id.generation.0,
            Slot::Vacant { .. } => false,
        };
        if !matches {
            return None;
        }
        let ghost free = self.free@;
        proof {
            lemma_occupied_leaves_room(self.outline(), free, id.slot);
        }
        let vacant = Slot::Vacant { generation: id.generation, next_free: self.free_head };
        let previous = replace_at(&mut self.slots, index, vacant);
        self.free_head = Some(id.slot);
        self.live = self.live - 1;
        self.free = Ghost(free.push(id.slot));
        proof {
            lemma_vacate(old(self).outline(), free, id.slot, self.slots@[index as int].outline());
            assert(self.outline() =~= old(self).outline().update(
                index as int,
                self.slots@[index as int].outline(),
            ));
            assert(self@ =~= old(self)@.remove(id));
            self.lemma_domain();
            old(self).lemma_domain();
        }
        match previous {
            Slot::Occupied { value, .. } => Some(value),
            Slot::Vacant { .. } => None,
        }
    }

    /// Borrows the value a handle names, if it is still the one that was
    /// stored.
    pub fn get(&self, id: TimerId) -> (value: Option<&T>)
        ensures
            value == if self@.contains_key(id) {
                Some(&self@[id])
            } else {
                None
            },
    {
        let index: usize = id.slot.as_usize();
        if index >= self.slots.len() {
            return None;
        }
        match &self.slots[index] {
            Slot::Occupied { generation, value } => if generation.0 == id.generation.0 {
                Some(value)
            } else {
                None
            },
            Slot::Vacant { .. } => None,
        }
    }

    /// Borrows mutably the value a handle names.
    pub fn get_mut(&mut self, id: TimerId) -> (value: Option<&mut T>)
        requires
            old(self).wf(),
        ensures
            final(self).wf(),
            value is Some <==> old(self)@.contains_key(id),
            value matches Some(borrowed) ==> *borrowed == old(self)@[id],
            final(self)@ == match value {
                Some(borrowed) => old(self)@.insert(id, *final(borrowed)),
                None => old(self)@,
            },
            final(self).spec_len() == old(self).spec_len(),
            final(self).insertions() == old(self).insertions(),
            final(self).positions() == old(self).positions(),
            final(self).vacancies() == old(self).vacancies(),
            forall|other: TimerId| #[trigger]
                final(self).issued(other) <==> old(self).issued(other),
            forall|slot: SlotIndex| #[trigger]
                final(self).holds(slot) <==> old(self).holds(slot),
            final(self).next_position_usable() == old(self).next_position_usable(),
            forall|slot: SlotIndex| #[trigger]
                old(self).holds(slot) ==> {
                    &&& final(self).id_of(slot) == old(self).id_of(slot)
                    &&& final(self).value_at(slot) == if value is Some && slot == id.spec_slot() {
                        *final(value->0)
                    } else {
                        old(self).value_at(slot)
                    }
                },
    {
        let index: usize = id.slot.as_usize();
        if index >= self.slots.len() {
            return None;
        }
        let matches: bool = match &self.slots[index] {
            Slot::Occupied { generation, .. } => generation.0 == id.generation.0,
            Slot::Vacant { .. } => false,
        };
        if !matches {
            return None;
        }
        occupant_mut(&mut self.slots, index)
    }

    /// The handle for a position whose value is live.
    ///
    /// The wheel stores bare `SlotIndex` values, so this is how it recovers a
    /// full handle when it needs one — on expiry, where the entry it is
    /// looking at is live by construction.
    pub fn id_at(&self, slot: SlotIndex) -> (id: Option<TimerId>)
        ensures
            id == if self.holds(slot) {
                Some(self.id_of(slot))
            } else {
                None
            },
    {
        let index: usize = slot.as_usize();
        if index >= self.slots.len() {
            return None;
        }
        match &self.slots[index] {
            Slot::Occupied { generation, .. } => Some(TimerId { slot, generation: *generation }),
            Slot::Vacant { .. } => None,
        }
    }

    /// What a live handle names is what its position holds.
    pub proof fn lemma_handles(&self)
        ensures
            forall|id: TimerId| #[trigger]
                self@.contains_key(id) <==> self.holds(id.spec_slot()) && self.id_of(id.spec_slot())
                    == id,
            forall|id: TimerId| #[trigger]
                self@.contains_key(id) ==> self@[id] == self.value_at(id.spec_slot()),
            forall|slot: SlotIndex| #[trigger] self.id_of(slot).spec_slot() == slot,
    {
    }

    /// Every position is live or waiting to be reused, and never both.
    pub proof fn law_positions(&self)
        requires
            self.wf(),
        ensures
            self.spec_len() + self.vacancies().len() == self.positions(),
            self.vacancies().no_duplicates(),
            forall|slot: SlotIndex| #[trigger] self.holds(slot) ==> slot.number() < self.positions(),
            forall|slot: SlotIndex| #[trigger]
                self.vacancies().contains(slot) <==> slot.number() < self.positions() && !self.holds(slot),
    {
        reveal(threads_vacancies);
        assert forall|slot: SlotIndex| #[trigger] self.vacancies().contains(slot) implies slot.number()
            < self.positions() && !self.holds(slot) by {
            let k = choose|k: int| 0 <= k < self.free@.len() && self.free@[k] == slot;
            assert(self.free@[k].0 < self.outline().len());
        }
        assert forall|slot: SlotIndex| slot.number() < self.positions() && !self.holds(slot) implies
            #[trigger] self.vacancies().contains(slot) by {
            assert(!self.outline()[slot.0 as int].occupied);
            assert(SlotIndex(slot.0 as int as u32) == slot);
        }
    }

    /// A value was stored or taken, or neither, as far as the number of
    /// positions goes.
    pub open spec fn follows(&self, before: &Self) -> bool {
        ||| {
            &&& self.spec_len() == before.spec_len() + 1
            &&& self.positions() == if before.spec_len() == before.positions() {
                before.positions() + 1
            } else {
                before.positions()
            }
        }
        ||| self.spec_len() <= before.spec_len() && self.positions() == before.positions()
    }

    /// A slab has as many positions as values were ever live in it at once,
    /// however many were stored.
    pub proof fn law_positions_follow_the_live(states: Seq<Self>)
        requires
            states.len() > 0,
            states[0].positions() == 0,
            forall|i: int| 0 <= i < states.len() ==> (#[trigger] states[i]).wf(),
            forall|i: int| 1 <= i < states.len() ==> (#[trigger] states[i]).follows(&states[i - 1]),
        ensures
            forall|i: int| 0 <= i < states.len() ==> (#[trigger] states[i]).spec_len() <= states.last().positions(),
            exists|i: int| 0 <= i < states.len() && (#[trigger] states[i]).spec_len() == states.last().positions(),
        decreases states.len(),
    {
        states.last().law_positions();
        if states.len() == 1 {
            assert(states[0].spec_len() == states.last().positions());
        } else {
            let shorter = states.drop_last();
            let before = shorter.last();
            assert(before == states[states.len() - 2]);
            assert(states.last() == states[states.len() - 1]);
            assert forall|i: int| 1 <= i < shorter.len() implies (#[trigger] shorter[i]).follows(&shorter[i - 1]) by {
                assert(states[i].follows(&states[i - 1]));
            }
            Self::law_positions_follow_the_live(shorter);
            before.law_positions();
            assert(states.last().follows(&before));
            assert forall|i: int| 0 <= i < states.len() implies (#[trigger] states[i]).spec_len()
                <= states.last().positions() by {
                if i < shorter.len() {
                    assert(states[i] == shorter[i]);
                }
            }
            if states.last().positions() == before.positions() {
                let i = choose|i: int| 0 <= i < shorter.len() && (#[trigger] shorter[i]).spec_len() == before.positions();
                assert(states[i].spec_len() == states.last().positions());
            } else {
                assert(states[states.len() - 1].spec_len() == states.last().positions());
            }
        }
    }

    /// Only a handle that was issued can be live.
    pub proof fn lemma_live_is_issued(&self, id: TimerId)
        requires
            self.wf(),
            self@.contains_key(id),
        ensures
            self.issued(id),
    {
    }
}

} // verus!
