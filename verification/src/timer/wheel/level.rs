//! One level of a wheel: a ring of slots, each spanning the same number of
//! ticks.

use super::mask::{slots_ahead, SlotMask};
use crate::timer::slab::SlotIndex;
use crate::timer::time::Instant;
use vstd::arithmetic::power2::{is_pow2, pow2};
use vstd::prelude::*;

verus! {

/// The earlier of two instants.
pub open spec fn earlier(a: Instant, b: Instant) -> Instant {
    if a.nanos <= b.nanos {
        a
    } else {
        b
    }
}

/// The earlier of two instants.
pub fn min_instant(a: Instant, b: Instant) -> (first: Instant)
    ensures
        first == earlier(a, b),
        first.nanos <= a.nanos && first.nanos <= b.nanos,
        first == a || first == b,
{
    if a.nanos <= b.nanos {
        a
    } else {
        b
    }
}

/// One level of a wheel.
pub struct Level {
    slots: Vec<Vec<SlotIndex>>,
    mask: SlotMask,
    /// `log2` of how many ticks one slot spans, so dividing by it is a shift.
    shift: u32,
    /// `slots - 1`, so taking a slot number is a mask.
    wrap: usize,
    /// Earliest deadline per slot, for a level that is answered exactly.
    /// `None` means unknown rather than empty: an entry earlier than the one
    /// being recorded may already be present, and claiming otherwise hides it.
    earliest: Option<Vec<Option<Instant>>>,
}

impl Level {
    /// How many slots the level has.
    pub closed spec fn count(&self) -> nat {
        (self.wrap + 1) as nat
    }

    /// How many ticks one slot spans.
    pub closed spec fn span(&self) -> nat {
        pow2(self.shift as nat)
    }

    /// What a slot holds.
    pub closed spec fn bucket(&self, slot: int) -> Seq<SlotIndex> {
        self.slots@[slot]@
    }

    /// Whether the level keeps the earliest deadline of each slot.
    pub closed spec fn keeps_minima(&self) -> bool {
        self.earliest is Some
    }

    /// The earliest deadline recorded for a slot, if one is.
    pub closed spec fn known(&self, slot: int) -> Option<Instant> {
        match self.earliest {
            Some(minima) => minima@[slot],
            None => None,
        }
    }

    /// Whether every slot is empty.
    pub open spec fn vacant(&self) -> bool {
        forall|slot: int| 0 <= slot < self.count() ==> (#[trigger] self.bucket(slot)).len() == 0
    }

    /// The slot a tick belongs to.
    pub open spec fn slot_of(&self, tick: int) -> int {
        (tick / (self.span() as int)) % (self.count() as int)
    }

    /// The mask names the slots that hold something, and an empty slot has no
    /// earliest deadline.
    pub closed spec fn wf(&self) -> bool {
        &&& self.slots@.len() == self.wrap + 1
        &&& is_pow2(self.wrap + 1)
        &&& self.shift < 64
        &&& self.mask.wf()
        &&& self.mask.slots() == self.wrap + 1
        &&& forall|slot: int|
            0 <= slot < self.slots@.len() ==> (self.mask.marked(slot) <==> (#[trigger] self.slots@[slot])@.len()
                > 0)
        &&& self.earliest matches Some(minima) ==> {
            &&& minima@.len() == self.slots@.len()
            &&& forall|slot: int|
                0 <= slot < self.slots@.len() && (#[trigger] minima@[slot]) is Some
                    ==> self.slots@[slot]@.len() > 0
        }
    }

    /// A level has slots, and they span ticks.
    pub proof fn lemma_shape(&self)
        requires
            self.wf(),
        ensures
            1 <= self.count() <= usize::MAX,
            1 <= self.span() <= u64::MAX,
            forall|slot: int|
                0 <= slot < self.count() && #[trigger] self.known(slot) is Some ==> self.keeps_minima()
                    && self.bucket(slot).len() > 0,
    {
        lemma_small_span(self.shift);
        assert(self.slots.len() == self.wrap + 1);
    }

    /// A slot holds no more entries than can be counted.
    pub proof fn lemma_bucket_fits(&self, slot: int)
        requires
            self.wf(),
            0 <= slot < self.count(),
        ensures
            self.bucket(slot).len() <= usize::MAX,
    {
        assert(self.slots@[slot].len() == self.bucket(slot).len());
    }

    /// An empty level of `count` slots of `resolution` ticks each.
    pub fn new(count: usize, resolution: u64, keeps_minima: bool) -> (level: Self)
        requires
            is_pow2(count as int),
            is_pow2(resolution as int),
        ensures
            level.wf(),
            level.count() == count,
            level.span() == resolution,
            level.keeps_minima() == keeps_minima,
            level.vacant(),
            forall|slot: int| 0 <= slot < count ==> #[trigger] level.known(slot) is None,
    {
        let shift: u32 = log2(resolution);
        proof {
            lemma_pow2_words(count);
        }
        let mut slots: Vec<Vec<SlotIndex>> = Vec::new();
        let mut minima: Vec<Option<Instant>> = Vec::new();
        while slots.len() < count
            invariant
                slots@.len() <= count,
                minima@.len() == slots@.len(),
                forall|i: int| 0 <= i < slots@.len() ==> (#[trigger] slots@[i])@.len() == 0,
                forall|i: int| 0 <= i < minima@.len() ==> #[trigger] minima@[i] is None,
            decreases count - slots@.len(),
        {
            slots.push(Vec::new());
            minima.push(None);
        }
        let earliest: Option<Vec<Option<Instant>>> = if keeps_minima {
            Some(minima)
        } else {
            None
        };
        Level { slots, mask: SlotMask::new(count), shift, wrap: count - 1, earliest }
    }

    /// Which of the level's spans a tick falls in, counted from the start.
    pub fn quotient(&self, tick: u64) -> (quotient: u64)
        requires
            self.wf(),
        ensures
            quotient == tick as int / (self.span() as int),
    {
        proof {
            vstd::bits::lemma_u64_shr_is_div(tick, self.shift as u64);
            lemma_small_span(self.shift);
        }
        tick >> self.shift
    }

    /// The first tick of one of the level's spans.
    pub fn first_tick(&self, quotient: u64) -> (tick: u64)
        requires
            self.wf(),
            quotient * self.span() <= u64::MAX,
        ensures
            tick == quotient * self.span(),
    {
        proof {
            vstd::bits::lemma_u64_shl_is_mul(quotient, self.shift as u64);
        }
        quotient << self.shift
    }

    /// The slot one of the level's spans lands in.
    pub fn wrapped(&self, quotient: u64) -> (slot: usize)
        requires
            self.wf(),
        ensures
            slot == quotient as int % (self.count() as int),
            slot < self.count(),
    {
        proof {
            self.lemma_shape();
            lemma_wrap_is_mod(quotient, self.wrap);
        }
        (quotient & (self.wrap as u64)) as usize
    }

    /// The slot a tick belongs to.
    pub fn slot_for(&self, tick: u64) -> (slot: usize)
        requires
            self.wf(),
        ensures
            slot == self.slot_of(tick as int),
            slot < self.count(),
    {
        self.wrapped(self.quotient(tick))
    }

    /// How many ticks one full revolution covers.
    pub fn coverage(&self) -> (ticks: u64)
        requires
            self.wf(),
            self.span() * self.count() <= u64::MAX,
        ensures
            ticks == self.span() * self.count(),
    {
        proof {
            self.lemma_shape();
        }
        self.one_span() * (self.wrap as u64 + 1)
    }

    /// How many ticks one slot spans.
    pub fn one_span(&self) -> (ticks: u64)
        requires
            self.wf(),
        ensures
            ticks == self.span(),
    {
        proof {
            lemma_small_span(self.shift);
            vstd::bits::lemma_u64_shl_is_mul(1u64, self.shift as u64);
        }
        1u64 << self.shift
    }

    /// Whether the level holds nothing.
    pub fn is_empty(&self) -> (empty: bool)
        requires
            self.wf(),
        ensures
            empty <==> self.vacant(),
    {
        let empty: bool = self.mask.is_empty();
        proof {
            if empty {
                assert forall|slot: int| 0 <= slot < self.count() implies (#[trigger] self.bucket(slot)).len() == 0 by {
                    assert(!self.mask.marked(slot));
                }
            } else {
                let slot = choose|slot: int| 0 <= slot < self.mask.slots() && self.mask.marked(slot);
                assert(self.bucket(slot).len() > 0);
            }
        }
        empty
    }

    /// How many slots ahead of `from` the first that holds anything lies.
    pub fn distance_to_next(&self, from: usize) -> (distance: Option<usize>)
        requires
            self.wf(),
            from < self.count(),
        ensures
            distance is None <==> self.vacant(),
            distance matches Some(d) ==> {
                &&& d < self.count()
                &&& self.bucket((from + d) % (self.count() as int)).len() > 0
                &&& forall|slot: int|
                    0 <= slot < self.count() && (#[trigger] self.bucket(slot)).len() > 0 ==> d <= slots_ahead(
                        from as int,
                        slot,
                        self.count() as int,
                    )
            },
    {
        let distance: Option<usize> = self.mask.distance_to_next(from);
        proof {
            match distance {
                None => {
                    assert forall|slot: int| 0 <= slot < self.count() implies (#[trigger] self.bucket(slot)).len() == 0 by {
                        assert(!self.mask.marked(slot));
                    }
                },
                Some(d) => {
                    let found = (from + d) % (self.count() as int);
                    assert(self.slots@[found]@.len() > 0);
                    assert(self.bucket(found).len() > 0);
                    assert forall|slot: int|
                        0 <= slot < self.count() && (#[trigger] self.bucket(slot)).len() > 0 implies d <= slots_ahead(
                        from as int,
                        slot,
                        self.count() as int,
                    ) by {
                        assert(self.slots@[slot]@.len() > 0);
                        assert(self.mask.marked(slot));
                    }
                },
            }
        }
        distance
    }

    /// How many entries a slot holds.
    pub fn bucket_len(&self, slot: usize) -> (len: usize)
        requires
            self.wf(),
            slot < self.count(),
        ensures
            len == self.bucket(slot as int).len(),
    {
        self.slots[slot].len()
    }

    /// One entry of a slot.
    pub fn bucket_at(&self, slot: usize, index: usize) -> (entry: SlotIndex)
        requires
            self.wf(),
            slot < self.count(),
            index < self.bucket(slot as int).len(),
        ensures
            entry == self.bucket(slot as int)[index as int],
    {
        self.slots[slot][index]
    }

    /// The earliest deadline recorded for a slot, if one is.
    pub fn known_minimum(&self, slot: usize) -> (known: Option<Instant>)
        requires
            self.wf(),
            slot < self.count(),
        ensures
            known == self.known(slot as int),
    {
        match &self.earliest {
            Some(minima) => minima[slot],
            None => None,
        }
    }

    /// Records a slot's earliest deadline, or that it is unknown. A level that
    /// keeps none ignores this.
    pub fn set_minimum(&mut self, slot: usize, minimum: Option<Instant>)
        requires
            old(self).wf(),
            slot < old(self).count(),
            minimum is Some ==> old(self).bucket(slot as int).len() > 0,
        ensures
            final(self).wf(),
            final(self).same_shape(old(self)),
            forall|s: int| #[trigger] final(self).bucket(s) == old(self).bucket(s),
            forall|s: int|
                0 <= s < old(self).count() ==> #[trigger] final(self).known(s) == if s == slot && old(
                    self,
                ).keeps_minima() {
                    minimum
                } else {
                    old(self).known(s)
                },
    {
        match &mut self.earliest {
            Some(minima) => {
                minima.set(slot, minimum);
            },
            None => {},
        }
    }

    /// Two states of one level.
    pub open spec fn same_shape(&self, other: &Level) -> bool {
        &&& self.count() == other.count()
        &&& self.span() == other.span()
        &&& self.keeps_minima() == other.keeps_minima()
    }

    /// Adds an entry to a slot and says where in it the entry went. A known
    /// minimum is tightened; an unknown one stays unknown.
    pub fn push(&mut self, slot: usize, entry: SlotIndex, expires_at: Instant) -> (index: usize)
        requires
            old(self).wf(),
            slot < old(self).count(),
        ensures
            final(self).wf(),
            final(self).same_shape(old(self)),
            index == old(self).bucket(slot as int).len(),
            final(self).bucket(slot as int) == old(self).bucket(slot as int).push(entry),
            forall|s: int|
                0 <= s < old(self).count() && s != slot ==> #[trigger] final(self).bucket(s) == old(
                    self,
                ).bucket(s),
            forall|s: int|
                0 <= s < old(self).count() && s != slot ==> #[trigger] final(self).known(s) == old(
                    self,
                ).known(s),
            final(self).known(slot as int) == match old(self).known(slot as int) {
                Some(current) => Some(earlier(current, expires_at)),
                None => None,
            },
    {
        // Only ever tighten a known minimum. `None` means unknown, not empty:
        // an entry earlier than this one may already be here, and claiming
        // this deadline as the minimum would hide it.
        if let Some(current) = self.known_minimum(slot) {
            self.set_minimum(slot, Some(min_instant(current, expires_at)));
        }
        let ghost mid = *self;
        let ghost before = self.slots@;
        let index: usize = push_into(&mut self.slots, slot, entry);
        self.mask.set(slot);
        proof {
            assert forall|s: int| 0 <= s < self.slots@.len() implies (self.mask.marked(s) <==> (
            #[trigger] self.slots@[s])@.len() > 0) by {
                assert(mid.bucket(s) == old(self).bucket(s));
                assert(old(self).slots@[s]@ == old(self).bucket(s));
                if s != slot {
                    assert(self.slots@[s] == before[s]);
                }
            }
            assert forall|s: int|
                0 <= s < old(self).count() && s != slot implies #[trigger] self.bucket(s) == old(self).bucket(s) by {
                assert(self.slots@[s] == before[s]);
                assert(mid.bucket(s) == old(self).bucket(s));
            }
            assert(mid.bucket(slot as int) == old(self).bucket(slot as int));
            assert forall|s: int| 0 <= s < old(self).count() implies #[trigger] self.known(s) == mid.known(s) by {
            }
            assert forall|s: int|
                0 <= s < old(self).count() && s != slot implies #[trigger] self.known(s) == old(self).known(s) by {
                assert(mid.known(s) == old(self).known(s));
            }
            assert(mid.known(slot as int) == self.known(slot as int));
        }
        index
    }

    /// Detaches one entry of a slot and hands back the one that moved into its
    /// place, if any did. A slot left empty has no minimum; otherwise the
    /// minimum is left as it was.
    pub fn swap_remove(&mut self, slot: usize, index: usize) -> (moved: Option<SlotIndex>)
        requires
            old(self).wf(),
            slot < old(self).count(),
            index < old(self).bucket(slot as int).len(),
        ensures
            final(self).wf(),
            final(self).same_shape(old(self)),
            final(self).bucket(slot as int) == old(self).bucket(slot as int).update(
                index as int,
                old(self).bucket(slot as int).last(),
            ).drop_last(),
            moved == if index < old(self).bucket(slot as int).len() - 1 {
                Some(old(self).bucket(slot as int).last())
            } else {
                None
            },
            forall|s: int|
                0 <= s < old(self).count() && s != slot ==> #[trigger] final(self).bucket(s) == old(
                    self,
                ).bucket(s),
            forall|s: int|
                0 <= s < old(self).count() && s != slot ==> #[trigger] final(self).known(s) == old(
                    self,
                ).known(s),
            final(self).known(slot as int) == if old(self).bucket(slot as int).len() == 1 {
                None
            } else {
                old(self).known(slot as int)
            },
    {
        if self.slots[slot].len() == 1 {
            // An empty slot has no minimum. Leaving the old value would have
            // the next insertion tighten against a deadline that is no longer
            // here.
            let ghost before = self.bucket(slot as int);
            let taken: Vec<SlotIndex> = self.take(slot);
            assert(self.bucket(slot as int) =~= before.update(index as int, before.last()).drop_last());
            return None;
        }
        let ghost before = self.slots@;
        let moved: Option<SlotIndex> = swap_remove_from(&mut self.slots, slot, index);
        proof {
            assert forall|s: int| 0 <= s < self.slots@.len() implies (self.mask.marked(s) <==> (
            #[trigger] self.slots@[s])@.len() > 0) by {
                assert(old(self).slots@[s]@.len() > 0 <==> self.mask.marked(s));
                if s != slot {
                    assert(self.slots@[s] == before[s]);
                }
            }
            assert forall|s: int|
                0 <= s < old(self).count() && s != slot implies #[trigger] self.bucket(s) == old(self).bucket(s) by {
                assert(self.slots@[s] == before[s]);
            }
        }
        moved
    }

    /// Takes everything a slot holds.
    pub fn take(&mut self, slot: usize) -> (bucket: Vec<SlotIndex>)
        requires
            old(self).wf(),
            slot < old(self).count(),
        ensures
            final(self).wf(),
            final(self).same_shape(old(self)),
            bucket@ == old(self).bucket(slot as int),
            final(self).bucket(slot as int).len() == 0,
            final(self).known(slot as int) is None,
            forall|s: int|
                0 <= s < old(self).count() && s != slot ==> #[trigger] final(self).bucket(s) == old(
                    self,
                ).bucket(s),
            forall|s: int|
                0 <= s < old(self).count() && s != slot ==> #[trigger] final(self).known(s) == old(
                    self,
                ).known(s),
    {
        self.set_minimum(slot, None);
        let ghost mid = *self;
        let ghost before = self.slots@;
        let bucket: Vec<SlotIndex> = take_from(&mut self.slots, slot);
        self.mask.clear(slot);
        proof {
            assert forall|s: int| 0 <= s < self.slots@.len() implies (self.mask.marked(s) <==> (
            #[trigger] self.slots@[s])@.len() > 0) by {
                assert(mid.bucket(s) == old(self).bucket(s));
                assert(old(self).slots@[s]@ == old(self).bucket(s));
                if s != slot {
                    assert(self.slots@[s] == before[s]);
                }
            }
            assert forall|s: int|
                0 <= s < old(self).count() && s != slot implies #[trigger] self.bucket(s) == old(self).bucket(s) by {
                assert(self.slots@[s] == before[s]);
                assert(mid.bucket(s) == old(self).bucket(s));
            }
            assert(mid.bucket(slot as int) == old(self).bucket(slot as int));
            assert forall|s: int| 0 <= s < old(self).count() implies #[trigger] self.known(s) == mid.known(s) by {
            }
            assert forall|s: int|
                0 <= s < old(self).count() && s != slot implies #[trigger] self.known(s) == old(self).known(s) by {
                assert(mid.known(s) == old(self).known(s));
            }
            assert(mid.known(slot as int) == self.known(slot as int));
        }
        bucket
    }
}

fn push_into(slots: &mut Vec<Vec<SlotIndex>>, slot: usize, entry: SlotIndex) -> (index: usize)
    requires
        slot < old(slots)@.len(),
    ensures
        index == old(slots)@[slot as int]@.len(),
        final(slots)@.len() == old(slots)@.len(),
        final(slots)@[slot as int]@ == old(slots)@[slot as int]@.push(entry),
        forall|s: int|
            0 <= s < old(slots)@.len() && s != slot ==> #[trigger] final(slots)@[s] == old(slots)@[s],
{
    let bucket = &mut slots[slot];
    let index: usize = bucket.len();
    bucket.push(entry);
    index
}

fn swap_remove_from(slots: &mut Vec<Vec<SlotIndex>>, slot: usize, index: usize) -> (moved: Option<
    SlotIndex,
>)
    requires
        slot < old(slots)@.len(),
        index < old(slots)@[slot as int]@.len(),
    ensures
        final(slots)@.len() == old(slots)@.len(),
        final(slots)@[slot as int]@ == old(slots)@[slot as int]@.update(
            index as int,
            old(slots)@[slot as int]@.last(),
        ).drop_last(),
        moved == if index < old(slots)@[slot as int]@.len() - 1 {
            Some(old(slots)@[slot as int]@.last())
        } else {
            None
        },
        forall|s: int|
            0 <= s < old(slots)@.len() && s != slot ==> #[trigger] final(slots)@[s] == old(slots)@[s],
{
    let bucket = &mut slots[slot];
    bucket.swap_remove(index);
    if index < bucket.len() {
        Some(bucket[index])
    } else {
        None
    }
}

fn take_from(slots: &mut Vec<Vec<SlotIndex>>, slot: usize) -> (bucket: Vec<SlotIndex>)
    requires
        slot < old(slots)@.len(),
    ensures
        bucket@ == old(slots)@[slot as int]@,
        final(slots)@.len() == old(slots)@.len(),
        final(slots)@[slot as int]@.len() == 0,
        forall|s: int|
            0 <= s < old(slots)@.len() && s != slot ==> #[trigger] final(slots)@[s] == old(slots)@[s],
{
    let mut bucket: Vec<SlotIndex> = Vec::new();
    core::mem::swap(&mut slots[slot], &mut bucket);
    bucket
}

/// The power a power of two is of two.
pub fn log2(value: u64) -> (shift: u32)
    requires
        is_pow2(value as int),
    ensures
        shift < 64,
        pow2(shift as nat) == value,
{
    let mut rest: u64 = value;
    let mut shift: u32 = 0;
    proof {
        vstd::arithmetic::power2::lemma2_to64();
    }
    while rest > 1
        invariant
            is_pow2(rest as int),
            shift < 64,
            pow2(shift as nat) * rest == value,
            value <= u64::MAX,
        decreases rest,
    {
        let ghost r = rest as int;
        proof {
            reveal_with_fuel(is_pow2, 2);
            vstd::arithmetic::power2::lemma_pow2_unfold((shift + 1) as nat);
            assert(r == 2 * (r / 2));
            assert(pow2((shift + 1) as nat) * (r / 2) == pow2(shift as nat) * r) by (nonlinear_arith)
                requires
                    pow2((shift + 1) as nat) == 2 * pow2(shift as nat),
                    r == 2 * (r / 2),
            ;
            assert(pow2((shift + 1) as nat) <= value) by (nonlinear_arith)
                requires
                    pow2((shift + 1) as nat) * (r / 2) == value,
                    r / 2 >= 1,
            ;
            if shift + 1 >= 64 {
                vstd::arithmetic::power2::lemma2_to64_rest();
            }
        }
        rest = rest / 2;
        shift = shift + 1;
    }
    proof {
        reveal_with_fuel(is_pow2, 1);
        assert(rest == 1);
    }
    shift
}

proof fn lemma_small_span(shift: u32)
    requires
        shift < 64,
    ensures
        1 <= pow2(shift as nat) <= u64::MAX,
{
    vstd::arithmetic::power2::lemma_pow2_pos(shift as nat);
    vstd::arithmetic::power2::lemma2_to64();
    vstd::arithmetic::power2::lemma2_to64_rest();
    if shift < 63 {
        vstd::arithmetic::power2::lemma_pow2_strictly_increases(shift as nat, 63);
    }
}

/// A power of two of slots fills whole words, or less than one.
proof fn lemma_pow2_words(count: usize)
    requires
        is_pow2(count as int),
    ensures
        count > 0,
        count < 64 || count % 64 == 0,
        count <= usize::MAX / 2 + 1,
{
    let e = exponent_of(count as int);
    vstd::arithmetic::power2::lemma_pow2_pos(e);
    vstd::arithmetic::power2::lemma2_to64();
    vstd::arithmetic::power2::lemma2_to64_rest();
    if count >= 64 {
        if e < 6 {
            vstd::arithmetic::power2::lemma_pow2_strictly_increases(e, 6);
        }
        vstd::arithmetic::power2::lemma_pow2_adds(6, (e - 6) as nat);
        let high = pow2((e - 6) as nat);
        assert(count == 64 * high);
    }
    if count > usize::MAX / 2 + 1 {
        // The next power of two up from half the range is past the range.
        let top: nat = if usize::MAX == u32::MAX { 31 } else { 63 };
        assert(usize::MAX / 2 + 1 == pow2(top));
        if e <= top {
            if e < top {
                vstd::arithmetic::power2::lemma_pow2_strictly_increases(e, top);
            }
        } else {
            if e > top + 1 {
                vstd::arithmetic::power2::lemma_pow2_strictly_increases(top + 1, e);
            }
        }
    }
}

/// Masking with one less than a power of two takes the remainder.
proof fn lemma_wrap_is_mod(quotient: u64, wrap: usize)
    requires
        is_pow2(wrap + 1),
        wrap < usize::MAX,
    ensures
        quotient & (wrap as u64) == quotient as int % (wrap + 1),
        quotient as int % (wrap + 1) <= wrap,
{
    let n = exponent_of(wrap + 1);
    if n >= 64 {
        vstd::arithmetic::power2::lemma2_to64_rest();
        if n > 64 {
            vstd::arithmetic::power2::lemma_pow2_strictly_increases(64, n);
        }
    }
    vstd::bits::lemma_u64_low_bits_mask_is_mod(quotient, n);
    assert(vstd::bits::low_bits_mask(n) == wrap);
    vstd::arithmetic::div_mod::lemma_mod_bound(quotient as int, wrap + 1);
}

/// The power a power of two is of two.
proof fn exponent_of(value: int) -> (exponent: nat)
    requires
        is_pow2(value),
    ensures
        pow2(exponent) == value,
{
    vstd::arithmetic::power2::is_pow2_equiv(value);
    let exponent = choose|i: nat| vstd::arithmetic::power::pow(2, i) == value;
    vstd::arithmetic::power2::lemma_pow2(exponent);
    exponent
}

} // verus!
