//! Which slots of a level hold anything.
//!
//! Finding the next occupied slot is on the path a caller takes before every
//! sleep, so it is searched a word at a time rather than a bit at a time: an
//! empty 256-slot level answers in four iterations instead of 256.

use vstd::prelude::*;

verus! {

/// Whether bit `bit` of `word` is set.
pub open spec fn bit_of(word: u64, bit: u64) -> bool {
    (word >> bit) & 1u64 == 1u64
}

/// How many slots ahead of `from` the slot `slot` lies, wrapping once over
/// `slots` slots.
pub open spec fn slots_ahead(from: int, slot: int, slots: int) -> int {
    if from <= slot {
        slot - from
    } else {
        slot + slots - from
    }
}

/// One bit per slot of a level.
#[derive(Debug)]
pub struct SlotMask {
    words: Vec<u64>,
    slots: usize,
}

impl SlotMask {
    /// How many slots the mask covers.
    pub closed spec fn slots(&self) -> nat {
        self.slots as nat
    }

    /// Whether `slot` is marked as occupied.
    pub closed spec fn marked(&self, slot: int) -> bool {
        bit_of(self.words@[slot / 64], (slot % 64) as u64)
    }

    /// The mask has a word for every slot and no bit set past the last one.
    pub closed spec fn wf(&self) -> bool {
        &&& self.slots > 0
        &&& self.slots < 64 ==> self.words@.len() == 1
        &&& self.slots >= 64 ==> self.slots == self.words@.len() * 64
        &&& self.slots <= usize::MAX / 2 + 1
        &&& forall|slot: int|
            self.slots <= slot < self.words@.len() * 64 ==> !#[trigger] self.marked(slot)
    }

    /// A mask over `slots` slots, none of them occupied.
    pub fn new(slots: usize) -> (mask: Self)
        requires
            slots > 0,
            slots < 64 || slots % 64 == 0,
            slots <= usize::MAX / 2 + 1,
        ensures
            mask.wf(),
            mask.slots() == slots,
            forall|slot: int| 0 <= slot < slots ==> !#[trigger] mask.marked(slot),
    {
        let count: usize = if slots % 64 == 0 {
            slots / 64
        } else {
            slots / 64 + 1
        };
        let mut words: Vec<u64> = Vec::new();
        while words.len() < count
            invariant
                words@.len() <= count,
                forall|i: int| 0 <= i < words@.len() ==> words@[i] == 0u64,
            decreases count - words@.len(),
        {
            words.push(0);
        }
        let mask = SlotMask { words, slots };
        proof {
            assert forall|slot: int| 0 <= slot < mask.words@.len() * 64 implies !#[trigger] mask.marked(slot) by {
                let bit = (slot % 64) as u64;
                assert(((0u64 >> bit) & 1u64) == 0u64) by (bit_vector);
            }
        }
        mask
    }

    /// Marks `slot` as occupied.
    pub fn set(&mut self, slot: usize)
        requires
            old(self).wf(),
            slot < old(self).slots(),
        ensures
            final(self).wf(),
            final(self).slots() == old(self).slots(),
            forall|other: int|
                0 <= other < old(self).slots() ==> (#[trigger] final(self).marked(other)
                    <==> other == slot || old(self).marked(other)),
    {
        let index: usize = slot / 64;
        let bit: u64 = (slot % 64) as u64;
        let word: u64 = self.words[index];
        let updated: u64 = word | (1u64 << bit);
        self.words.set(index, updated);
        proof {
            assert forall|other: int| 0 <= other < self.words@.len() * 64 implies (
            #[trigger] self.marked(other) <==> other == slot || old(self).marked(other)) by {
                if other / 64 == index {
                    let b = (other % 64) as u64;
                    assert(((word | (1u64 << bit)) >> b) & 1u64 == 1u64 <==> (b == bit || (word >> b)
                        & 1u64 == 1u64)) by (bit_vector)
                        requires
                            b < 64,
                            bit < 64,
                    ;
                }
            }
        }
    }

    /// Marks `slot` as empty.
    pub fn clear(&mut self, slot: usize)
        requires
            old(self).wf(),
            slot < old(self).slots(),
        ensures
            final(self).wf(),
            final(self).slots() == old(self).slots(),
            forall|other: int|
                0 <= other < old(self).slots() ==> (#[trigger] final(self).marked(other)
                    <==> other != slot && old(self).marked(other)),
    {
        let index: usize = slot / 64;
        let bit: u64 = (slot % 64) as u64;
        let word: u64 = self.words[index];
        let updated: u64 = word & !(1u64 << bit);
        self.words.set(index, updated);
        proof {
            assert forall|other: int| 0 <= other < self.words@.len() * 64 implies (
            #[trigger] self.marked(other) <==> other != slot && old(self).marked(other)) by {
                if other / 64 == index {
                    let b = (other % 64) as u64;
                    assert(((word & !(1u64 << bit)) >> b) & 1u64 == 1u64 <==> (b != bit && (word >> b)
                        & 1u64 == 1u64)) by (bit_vector)
                        requires
                            b < 64,
                            bit < 64,
                    ;
                }
            }
        }
    }

    /// Whether no slot is occupied.
    pub fn is_empty(&self) -> (empty: bool)
        requires
            self.wf(),
        ensures
            empty <==> forall|slot: int| 0 <= slot < self.slots() ==> !#[trigger] self.marked(slot),
    {
        let mut index: usize = 0;
        while index < self.words.len()
            invariant
                self.wf(),
                index <= self.words@.len(),
                forall|slot: int| 0 <= slot < index * 64 ==> !#[trigger] self.marked(slot),
            decreases self.words@.len() - index,
        {
            let word: u64 = self.words[index];
            if word != 0 {
                proof {
                    let bit = lemma_some_bit(word);
                    let slot = index * 64 + bit;
                    assert(slot / 64 == index && slot % 64 == bit);
                    assert(self.marked(slot));
                    assert(slot < self.slots());
                }
                return false;
            }
            proof {
                assert forall|slot: int| 0 <= slot < (index + 1) * 64 implies !#[trigger] self.marked(slot) by {
                    if slot >= index * 64 {
                        let bit = (slot % 64) as u64;
                        assert(((0u64 >> bit) & 1u64) == 0u64) by (bit_vector);
                    }
                }
            }
            index = index + 1;
        }
        true
    }

    /// How many slots ahead of `from` the first occupied one lies, wrapping
    /// once. `None` when the level is empty.
    pub fn distance_to_next(&self, from: usize) -> (distance: Option<usize>)
        requires
            self.wf(),
            from < self.slots(),
        ensures
            distance is None <==> forall|slot: int|
                0 <= slot < self.slots() ==> !#[trigger] self.marked(slot),
            distance matches Some(d) ==> {
                &&& d < self.slots()
                &&& self.marked((from + d) % (self.slots() as int))
                &&& forall|slot: int|
                    0 <= slot < self.slots() && #[trigger] self.marked(slot) ==> d <= slots_ahead(
                        from as int,
                        slot,
                        self.slots() as int,
                    )
            },
    {
        let words: usize = self.words.len();
        let first: usize = from / 64;
        let bit: u64 = (from % 64) as u64;

        // One pass over the words from `from`, then the starting word once
        // more, which is where a search that wrapped ends up. That last visit
        // needs no mask of its own: reaching it means the first visit found
        // nothing at or above `from`, so only the bits below it can be set.
        let mut step: usize = 0;
        while step <= words
            invariant
                self.wf(),
                from < self.slots(),
                words == self.words@.len(),
                first == from / 64,
                bit == from % 64,
                step <= words + 1,
                forall|slot: int|
                    0 <= slot < words * 64 && searched(first as int, from as int, words as int, step as int, slot)
                        ==> !#[trigger] self.marked(slot),
            decreases words + 1 - step,
        {
            let index: usize = if step < words - first {
                first + step
            } else {
                step - (words - first)
            };
            let mut word: u64 = self.words[index];
            let ghost whole = word;
            if step == 0 {
                word = word & (u64::MAX << bit);
            }
            proof {
                assert forall|b: u64| b < 64 implies (#[trigger] bit_of(word, b) <==> bit_of(whole, b) && (step
                    == 0 ==> b >= bit)) by {
                    let max = u64::MAX;
                    assert(((whole & (0xffff_ffff_ffff_ffffu64 << bit)) >> b) & 1u64 == 1u64 <==> ((whole >> b) & 1u64
                        == 1u64 && b >= bit)) by (bit_vector)
                        requires
                            b < 64,
                            bit < 64,
                    ;
                }
            }
            if word != 0 {
                proof {
                    vstd::std_specs::bits::axiom_u64_trailing_zeros(word);
                }
                let low: usize = word.trailing_zeros() as usize;
                let slot: usize = index * 64 + low;
                let distance: usize = if slot >= from {
                    slot - from
                } else {
                    slot + self.slots - from
                };
                proof {
                    assert(bit_of(word, low as u64));
                    assert(slot / 64 == index as int && slot % 64 == low as int);
                    assert(self.marked(slot as int));
                    assert(slot < self.slots);
                    assert(distance == slots_ahead(from as int, slot as int, self.slots as int));
                    if slot >= from {
                        assert((from + distance) % (self.slots as int) == slot) by {
                            vstd::arithmetic::div_mod::lemma_small_mod(slot as nat, self.slots as nat);
                        }
                    } else {
                        assert((from + distance) % (self.slots as int) == slot) by {
                            vstd::arithmetic::div_mod::lemma_mod_add_multiples_vanish(
                                slot as int,
                                self.slots as int,
                            );
                            vstd::arithmetic::div_mod::lemma_small_mod(slot as nat, self.slots as nat);
                        }
                    }
                    assert forall|other: int| 0 <= other < self.slots && #[trigger] self.marked(other) implies distance
                        <= slots_ahead(from as int, other, self.slots as int) by {
                        assert(other < words * 64);
                        assert(!searched(first as int, from as int, words as int, step as int, other));
                        if other / 64 == index {
                            let b = (other % 64) as u64;
                            assert(bit_of(whole, b));
                            if step == 0 && b < bit {
                            } else {
                                assert(bit_of(word, b));
                                if b < low {
                                    assert((word >> b) & 1u64 == 0u64);
                                }
                            }
                        }
                    }
                }
                return Some(distance);
            }
            proof {
                assert forall|slot: int|
                    0 <= slot < words * 64 && searched(
                        first as int,
                        from as int,
                        words as int,
                        step as int + 1,
                        slot,
                    ) implies !#[trigger] self.marked(slot) by {
                    if !searched(first as int, from as int, words as int, step as int, slot) {
                        assert(slot / 64 == index);
                        let b = (slot % 64) as u64;
                        assert(((0u64 >> b) & 1u64) == 0u64) by (bit_vector);
                        assert(!bit_of(word, b));
                    }
                }
            }
            step = step + 1;
        }
        proof {
            assert forall|slot: int| 0 <= slot < self.slots() implies !#[trigger] self.marked(slot) by {
                assert(slot < words * 64);
                assert(searched(first as int, from as int, words as int, words as int + 1, slot));
            }
        }
        None
    }
}

/// The slots a search from `from` has looked at after visiting `steps` words.
spec fn searched(first: int, from: int, words: int, steps: int, slot: int) -> bool {
    ||| from <= slot < (first + steps) * 64 && steps > 0
    ||| slot < from && slot < (first + steps - words) * 64
}

/// A word that is not zero has a bit set.
proof fn lemma_some_bit(word: u64) -> (bit: u64)
    requires
        word != 0,
    ensures
        bit < 64,
        bit_of(word, bit),
{
    vstd::std_specs::bits::axiom_u64_trailing_zeros(word);
    vstd::std_specs::bits::u64_trailing_zeros(word) as u64
}

/// The slot so many slots ahead is the one that was asked about, and it is less
/// than once around.
pub proof fn law_slots_ahead_lead_there(from: int, slot: int, slots: int)
    requires
        0 <= from < slots,
        0 <= slot < slots,
    ensures
        0 <= slots_ahead(from, slot, slots) < slots,
        (from + slots_ahead(from, slot, slots)) % slots == slot,
{
    vstd::arithmetic::div_mod::lemma_small_mod(slot as nat, slots as nat);
    vstd::arithmetic::div_mod::lemma_mod_add_multiples_vanish(slot, slots);
}

} // verus!
