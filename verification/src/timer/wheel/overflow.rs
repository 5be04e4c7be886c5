//! Deadlines beyond the wheel's furthest slot.

use crate::timer::slab::SlotIndex;
use std::collections::BTreeMap;
use vstd::prelude::*;
use vstd::std_specs::cmp::OrdSpec;
use vstd::std_specs::iter::IteratorSpec;

verus! {

/// Entries parked by deadline, in nanoseconds since the clock's origin.
/// Cold: only deadlines past the wheel's reach come here.
pub struct Parked {
    buckets: BTreeMap<u128, Vec<SlotIndex>>,
}

/// An increasing sequence of keys is one in which each is less than the later
/// ones.
proof fn lemma_increasing(keys: Seq<u128>)
    requires
        vstd::std_specs::btree::increasing_seq(keys),
    ensures
        forall|i: int, j: int| 0 <= i < j < keys.len() ==> #[trigger] keys[i] < #[trigger] keys[j],
{
    broadcast use {vstd::std_specs::btree::group_btree_axioms, vstd::laws_cmp::group_laws_cmp};

    assert forall|i: int, j: int| 0 <= i < j < keys.len() implies #[trigger] keys[i] < #[trigger] keys[j] by {
        assert(keys[i].cmp_spec(&keys[j]) is Less);
    }
}

impl Parked {
    /// The entries parked under one deadline.
    pub closed spec fn bucket(&self, key: u128) -> Seq<SlotIndex> {
        if self.buckets@.contains_key(key) {
            self.buckets@[key]@
        } else {
            Seq::empty()
        }
    }

    /// No deadline is kept without an entry under it.
    pub closed spec fn wf(&self) -> bool {
        forall|key: u128| #[trigger]
            self.buckets@.contains_key(key) ==> self.buckets@[key]@.len() > 0
    }

    /// A bucket holds no more entries than can be counted.
    pub proof fn lemma_bucket_fits(&self, key: u128)
        ensures
            self.bucket(key).len() <= usize::MAX,
    {
        if self.buckets@.contains_key(key) {
            assert(self.buckets@[key].len() == self.bucket(key).len());
        }
    }

    /// Nothing parked.
    pub fn new() -> (parked: Self)
        ensures
            parked.wf(),
            forall|key: u128| (#[trigger] parked.bucket(key)).len() == 0,
    {
        Parked { buckets: BTreeMap::new() }
    }

    /// The earliest deadline anything is parked under.
    pub fn first_key(&self) -> (first: Option<u128>)
        requires
            self.wf(),
        ensures
            first is None <==> forall|key: u128| (#[trigger] self.bucket(key)).len() == 0,
            first matches Some(key) ==> {
                &&& self.bucket(key).len() > 0
                &&& forall|other: u128| (#[trigger] self.bucket(other)).len() > 0 ==> key <= other
            },
    {
        broadcast use vstd::std_specs::btree::group_btree_axioms;

        for pair in it: self.buckets.iter()
            invariant
                it.index() == 0,
                self.wf(),
                it.seq() == self.buckets.iter().remaining(),
                vstd::std_specs::btree::increasing_seq(
                    it.seq().map_values(|pair: (&u128, &Vec<SlotIndex>)| *pair.0),
                ),
        {
            proof {
                let pairs = it.seq();
                let keys = pairs.map_values(|pair: (&u128, &Vec<SlotIndex>)| *pair.0);
                lemma_increasing(keys);
                assert(self.buckets@.contains_key(*pairs[0].0));
                assert forall|other: u128| (#[trigger] self.bucket(other)).len() > 0 implies *pair.0
                    <= other by {
                    assert(self.buckets@.contains_key(other));
                    assert(pairs.contains((&other, &self.buckets@[other])));
                    let j = choose|j: int| 0 <= j < pairs.len() && pairs[j] == (&other, &self.buckets@[other]);
                    assert(keys[j] == other);
                    assert(keys[0] == *pair.0);
                }
            }
            assert(self.bucket(*pair.0).len() > 0);
            return Some(*pair.0);
        }
        proof {
            assert forall|key: u128| (#[trigger] self.bucket(key)).len() == 0 by {
                if self.buckets@.contains_key(key) {
                    assert(self.buckets.iter().remaining().contains((&key, &self.buckets@[key])));
                }
            }
        }
        None
    }

    /// The deadlines before `threshold` that anything is parked under, each
    /// once.
    pub fn keys_before(&self, threshold: u128) -> (keys: Vec<u128>)
        requires
            self.wf(),
        ensures
            keys@.no_duplicates(),
            forall|key: u128| #[trigger] keys@.contains(key) <==> key < threshold && self.bucket(key).len() > 0,
    {
        broadcast use vstd::std_specs::btree::group_btree_axioms;

        let mut keys: Vec<u128> = Vec::new();
        for pair in it: self.buckets.iter()
            invariant
                self.wf(),
                it.seq() == self.buckets.iter().remaining(),
                vstd::std_specs::btree::increasing_seq(
                    it.seq().map_values(|pair: (&u128, &Vec<SlotIndex>)| *pair.0),
                ),
                forall|j: int| 0 <= j < it.index() && *(#[trigger] it.seq()[j]).0 < threshold ==> keys@.contains(*it.seq()[j].0),
                forall|i: int| 0 <= i < keys@.len() ==> #[trigger] keys@[i] < threshold,
                forall|i: int| 0 <= i < keys@.len() ==> self.buckets@.contains_key(#[trigger] keys@[i]),
                forall|i: int, j: int|
                    0 <= i < keys@.len() && it.index() <= j < it.seq().len() ==> #[trigger] keys@[i] < *(#[trigger] it.seq()[j]).0,
                keys@.no_duplicates(),
        {
            let key: u128 = *pair.0;
            let ghost before = keys@;
            let ghost all = it.seq().map_values(|pair: (&u128, &Vec<SlotIndex>)| *pair.0);
            proof {
                lemma_increasing(all);
                assert(all[it.index() as int] == key);
                assert(self.buckets@.contains_key(*it.seq()[it.index() as int].0));
                assert forall|j: int| it.index() < j < it.seq().len() implies key < *(#[trigger] it.seq()[j]).0 by {
                    assert(all[j] == *it.seq()[j].0);
                }
            }
            if key < threshold {
                keys.push(key);
                proof {
                    assert(keys@[before.len() as int] == key);
                    assert forall|k: u128| before.contains(k) implies keys@.contains(k) by {
                        let i = choose|i: int| 0 <= i < before.len() && before[i] == k;
                        assert(keys@[i] == k);
                    }
                }
            } else {
                // Everything behind this one is parked under a later deadline.
                proof {
                    let pairs = it.seq();
                    assert forall|k: u128| #[trigger] keys@.contains(k) <==> k < threshold && self.bucket(k).len() > 0 by {
                        if k < threshold && self.bucket(k).len() > 0 {
                            assert(pairs.contains((&k, &self.buckets@[k])));
                            let j = choose|j: int| 0 <= j < pairs.len() && pairs[j] == (&k, &self.buckets@[k]);
                            assert(*pairs[j].0 < threshold);
                        }
                    }
                }
                return keys;
            }
        }
        proof {
            let pairs = self.buckets.iter().remaining();
            assert forall|key: u128| #[trigger] keys@.contains(key) <==> key < threshold && self.bucket(key).len() > 0 by {
                if key < threshold && self.bucket(key).len() > 0 {
                    assert(pairs.contains((&key, &self.buckets@[key])));
                    let j = choose|j: int| 0 <= j < pairs.len() && pairs[j] == (&key, &self.buckets@[key]);
                    assert(*pairs[j].0 < threshold);
                }
            }
        }
        keys
    }

    /// Parks an entry under a deadline and says where in that bucket it went.
    pub fn push(&mut self, key: u128, slot: SlotIndex) -> (index: usize)
        requires
            old(self).wf(),
        ensures
            final(self).wf(),
            index == old(self).bucket(key).len(),
            final(self).bucket(key) == old(self).bucket(key).push(slot),
            forall|other: u128|
                other != key ==> #[trigger] final(self).bucket(other) == old(self).bucket(other),
    {
        broadcast use vstd::std_specs::btree::group_btree_axioms;

        let mut bucket: Vec<SlotIndex> = self.take(key);
        let ghost taken = *self;
        let index: usize = bucket.len();
        bucket.push(slot);
        self.buckets.insert(key, bucket);
        proof {
            assert forall|other: u128| other != key implies #[trigger] self.bucket(other) == old(
                self,
            ).bucket(other) by {
                assert(taken.bucket(other) == old(self).bucket(other));
            }
        }
        index
    }

    /// Takes everything parked under a deadline.
    pub fn take(&mut self, key: u128) -> (bucket: Vec<SlotIndex>)
        requires
            old(self).wf(),
        ensures
            final(self).wf(),
            bucket@ == old(self).bucket(key),
            final(self).bucket(key).len() == 0,
            forall|other: u128|
                other != key ==> #[trigger] final(self).bucket(other) == old(self).bucket(other),
    {
        broadcast use vstd::std_specs::btree::group_btree_axioms;

        match self.buckets.remove(&key) {
            Some(bucket) => bucket,
            None => Vec::new(),
        }
    }

    /// Detaches one parked entry and hands back the one that moved into its
    /// place, if any did.
    pub fn swap_remove(&mut self, key: u128, index: usize) -> (moved: Option<SlotIndex>)
        requires
            old(self).wf(),
            index < old(self).bucket(key).len(),
        ensures
            final(self).wf(),
            final(self).bucket(key) == old(self).bucket(key).update(
                index as int,
                old(self).bucket(key).last(),
            ).drop_last(),
            moved == if index < old(self).bucket(key).len() - 1 {
                Some(old(self).bucket(key).last())
            } else {
                None
            },
            forall|other: u128|
                other != key ==> #[trigger] final(self).bucket(other) == old(self).bucket(other),
    {
        broadcast use vstd::std_specs::btree::group_btree_axioms;

        let mut bucket: Vec<SlotIndex> = self.take(key);
        let ghost taken = *self;
        bucket.swap_remove(index);
        let moved: Option<SlotIndex> = if index < bucket.len() {
            Some(bucket[index])
        } else {
            None
        };
        if bucket.len() > 0 {
            self.buckets.insert(key, bucket);
        }
        proof {
            assert(self.bucket(key) =~= old(self).bucket(key).update(
                index as int,
                old(self).bucket(key).last(),
            ).drop_last());
            assert forall|other: u128| other != key implies #[trigger] self.bucket(other) == old(
                self,
            ).bucket(other) by {
                assert(taken.bucket(other) == old(self).bucket(other));
            }
        }
        moved
    }
}

} // verus!
