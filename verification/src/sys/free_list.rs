//! A list whose places are handed out, given back and handed out again.

use vstd::prelude::*;

verus! {

/// Items under the place each was given.
pub struct FreeList<T> {
    slots: Vec<Option<T>>,
    free: Vec<usize>,
}

impl<T> View for FreeList<T> {
    type V = Map<usize, T>;

    /// The items, each under its place.
    closed spec fn view(&self) -> Map<usize, T> {
        Map::new(
            |id: usize| id < self.slots@.len() && self.slots@[id as int] is Some,
            |id: usize| self.slots@[id as int]->0,
        )
    }
}

impl<T> FreeList<T> {
    /// The free places are exactly the empty ones, each noted once.
    pub closed spec fn wf(&self) -> bool {
        &&& self.free@.no_duplicates()
        &&& forall|k: int|
            0 <= k < self.free@.len() ==> (#[trigger] self.free@[k]) < self.slots@.len() && self.slots@[self.free@[k] as int] is None
        &&& forall|id: int|
            0 <= id < self.slots@.len() && (#[trigger] self.slots@[id]) is None ==> self.free@.contains(id as usize)
    }

    /// How many places there are.
    pub closed spec fn places(&self) -> nat {
        self.slots@.len()
    }

    /// The places waiting to be handed out again. The one given back last is
    /// handed out first.
    pub closed spec fn vacancies(&self) -> Seq<usize> {
        self.free@
    }

    /// An empty list.
    pub fn new() -> (list: Self)
        ensures
            list.wf(),
            list@ == Map::<usize, T>::empty(),
            list.places() == 0,
            list.vacancies() == Seq::<usize>::empty(),
    {
        let list = FreeList { slots: Vec::new(), free: Vec::new() };
        assert(list@ =~= Map::<usize, T>::empty());
        list
    }

    /// Puts an item in a free place, the one given back last if there is one.
    pub fn allocate(&mut self, item: T) -> (id: usize)
        requires
            old(self).wf(),
        ensures
            final(self).wf(),
            id < usize::MAX,
            !old(self)@.contains_key(id),
            final(self)@ == old(self)@.insert(id, item),
            old(self).vacancies().len() > 0 ==> {
                &&& id == old(self).vacancies().last()
                &&& final(self).vacancies() == old(self).vacancies().drop_last()
                &&& final(self).places() == old(self).places()
            },
            old(self).vacancies().len() == 0 ==> {
                &&& id == old(self).places()
                &&& final(self).vacancies() == old(self).vacancies()
                &&& final(self).places() == old(self).places() + 1
            },
    {
        let ghost free = self.free@;
        assert(self.slots.len() == self.slots@.len());
        match self.free.pop() {
            Some(id) => {
                proof {
                    assert(free[free.len() - 1] == id);
                }
                self.slots.set(id, Some(item));
                proof {
                    assert forall|k: int| 0 <= k < self.free@.len() implies (#[trigger] self.free@[k]) < self.slots@.len()
                        && self.slots@[self.free@[k] as int] is None by {
                        assert(free[k] == self.free@[k]);
                    }
                    assert forall|other: int|
                        0 <= other < self.slots@.len() && (#[trigger] self.slots@[other]) is None implies self.free@.contains(
                        other as usize,
                    ) by {
                        assert(old(self).slots@[other] is None);
                        let k = choose|k: int| 0 <= k < free.len() && free[k] == other as usize;
                        assert(self.free@[k] == other as usize);
                    }
                    assert(self@ =~= old(self)@.insert(id, item));
                }
                id
            },
            None => {
                let id: usize = self.slots.len();
                self.slots.push(Some(item));
                proof {
                    assert(self.slots.len() == id + 1);
                    assert forall|other: int|
                        0 <= other < self.slots@.len() && (#[trigger] self.slots@[other]) is None implies self.free@.contains(
                        other as usize,
                    ) by {
                        assert(old(self).slots@[other] is None);
                    }
                    assert(self@ =~= old(self)@.insert(id, item));
                }
                id
            },
        }
    }

    /// Takes an item out and gives its place back.
    pub fn deallocate(&mut self, id: usize) -> (item: T)
        requires
            old(self).wf(),
            old(self)@.contains_key(id),
        ensures
            final(self).wf(),
            item == old(self)@[id],
            final(self)@ == old(self)@.remove(id),
            final(self).vacancies() == old(self).vacancies().push(id),
            final(self).places() == old(self).places(),
    {
        let ghost free = self.free@;
        let mut taken: Option<T> = None;
        swap_at(&mut self.slots, id, &mut taken);
        proof {
            assert(forall|k: int| 0 <= k < free.len() ==> #[trigger] free[k] != id);
        }
        self.free.push(id);
        proof {
            assert forall|k: int| 0 <= k < self.free@.len() implies (#[trigger] self.free@[k]) < self.slots@.len()
                && self.slots@[self.free@[k] as int] is None by {
                if k < free.len() {
                    assert(free[k] == self.free@[k]);
                }
            }
            assert(self.slots.len() == self.slots@.len());
            assert forall|other: int|
                0 <= other < self.slots@.len() && (#[trigger] self.slots@[other]) is None implies self.free@.contains(
                other as usize,
            ) by {
                if other == id {
                    assert(self.free@[free.len() as int] == id);
                } else {
                    assert(old(self).slots@[other] is None);
                    let k = choose|k: int| 0 <= k < free.len() && free[k] == other as usize;
                    assert(self.free@[k] == other as usize);
                }
            }
            assert(self@ =~= old(self)@.remove(id));
        }
        match taken {
            Some(item) => item,
            None => vstd::pervasive::unreached(),
        }
    }

    /// The item at a place.
    pub fn get(&self, id: usize) -> (item: Option<&T>)
        ensures
            item == if self@.contains_key(id) {
                Some(&self@[id])
            } else {
                None
            },
    {
        if id < self.slots.len() {
            self.slots[id].as_ref()
        } else {
            None
        }
    }

    /// Puts another item in the place of one and hands that back.
    pub fn replace(&mut self, id: usize, item: T) -> (previous: T)
        requires
            old(self).wf(),
            old(self)@.contains_key(id),
        ensures
            final(self).wf(),
            previous == old(self)@[id],
            final(self)@ == old(self)@.insert(id, item),
            final(self).vacancies() == old(self).vacancies(),
            final(self).places() == old(self).places(),
    {
        let mut taken: Option<T> = Some(item);
        swap_at(&mut self.slots, id, &mut taken);
        proof {
            assert forall|k: int| 0 <= k < self.free@.len() implies (#[trigger] self.free@[k]) < self.slots@.len()
                && self.slots@[self.free@[k] as int] is None by {
                assert(old(self).slots@[self.free@[k] as int] is None);
            }
            assert forall|other: int|
                0 <= other < self.slots@.len() && (#[trigger] self.slots@[other]) is None implies self.free@.contains(
                other as usize,
            ) by {
                assert(old(self).slots@[other] is None);
            }
            assert(self@ =~= old(self)@.insert(id, item));
        }
        match taken {
            Some(previous) => previous,
            None => vstd::pervasive::unreached(),
        }
    }

    /// Every place holds an item or is waiting to be handed out again, and
    /// never both.
    pub proof fn law_places(&self)
        requires
            self.wf(),
        ensures
            self.vacancies().no_duplicates(),
            forall|id: usize| #[trigger]
                self.vacancies().contains(id) <==> id < self.places() && !self@.contains_key(id),
            forall|id: usize| #[trigger] self@.contains_key(id) ==> id < self.places(),
    {
    }
}

fn swap_at<A>(items: &mut Vec<A>, index: usize, item: &mut A)
    requires
        index < old(items)@.len(),
    ensures
        final(items)@ == old(items)@.update(index as int, *old(item)),
        *final(item) == old(items)@[index as int],
{
    core::mem::swap(&mut items[index], item);
}

} // verus!
