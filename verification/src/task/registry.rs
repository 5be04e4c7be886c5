//! Tracks tasks whose thread-local resources still belong to an executor.

use vstd::prelude::*;

verus! {

/// Where a task stands in the list.
#[derive(Debug, Clone, Copy, PartialEq, Eq, Structural)]
struct Links {
    linked: bool,
    prev: Option<usize>,
    next: Option<usize>,
}

/// An executor's list of tasks requiring owner-thread cleanup, the one
/// registered last first. Unlinking touches only a task's neighbours, and so
/// does registering, once there is room for as many tasks as are numbered.
pub struct TaskRegistry {
    head: Option<usize>,
    links: Vec<Links>,
    /// The tasks on the list, from its end to its head.
    order: Ghost<Seq<usize>>,
}

impl View for TaskRegistry {
    type V = Seq<usize>;

    /// The tasks on the list, the one registered first at its front.
    closed spec fn view(&self) -> Seq<usize> {
        self.order@
    }
}

/// The links of the `k`-th task of the list.
spec fn links_at(order: Seq<usize>, k: int) -> Links {
    Links {
        linked: true,
        prev: if k + 1 < order.len() {
            Some(order[k + 1])
        } else {
            None
        },
        next: if k > 0 {
            Some(order[k - 1])
        } else {
            None
        },
    }
}

/// The links join the tasks in order, and no others.
#[verifier::opaque]
spec fn joined(links: Seq<Links>, order: Seq<usize>) -> bool {
    &&& order.no_duplicates()
    &&& forall|k: int|
        0 <= k < order.len() ==> order[k] < links.len() && links[order[k] as int] == #[trigger] links_at(order, k)
    &&& forall|task: int|
        0 <= task < links.len() && (#[trigger] links[task]).linked ==> order.contains(task as usize)
}

impl TaskRegistry {
    /// The list is consistent.
    pub closed spec fn wf(&self) -> bool {
        &&& joined(self.links@, self.order@)
        &&& self.head == if self.order@.len() == 0 {
            None
        } else {
            Some(self.order@.last())
        }
    }

    /// An empty list.
    pub fn new() -> (registry: Self)
        ensures
            registry.wf(),
            registry@ == Seq::<usize>::empty(),
    {
        proof {
            reveal(joined);
        }
        TaskRegistry { head: None, links: Vec::new(), order: Ghost(Seq::empty()) }
    }

    /// Whether a task is on the list.
    pub fn contains(&self, task: usize) -> (listed: bool)
        requires
            self.wf(),
        ensures
            listed <==> self@.contains(task),
    {
        proof {
            reveal(joined);
            if self@.contains(task) {
                let k = choose|k: int| 0 <= k < self.order@.len() && self.order@[k] == task;
                assert(self.links@[task as int] == links_at(self.order@, k));
            }
        }
        task < self.links.len() && self.links[task].linked
    }

    /// The task registered last, which shutdown takes first. Shutdown asks
    /// again after each: destructors can also remove other tasks or create
    /// new ones, so nothing may be kept across them.
    pub fn head(&self) -> (head: Option<usize>)
        requires
            self.wf(),
        ensures
            head == if self@.len() == 0 {
                None
            } else {
                Some(self@.last())
            },
    {
        self.head
    }

    /// Registers a task protected by its counted executor reference.
    pub fn insert(&mut self, task: usize)
        requires
            old(self).wf(),
            !old(self)@.contains(task),
            task < usize::MAX,
        ensures
            final(self).wf(),
            final(self)@ == old(self)@.push(task),
    {
        let ghost order = self.order@;
        while self.links.len() <= task
            invariant
                joined(self.links@, self.order@),
                self.order@ == order,
                self.head == old(self).head,
                task < usize::MAX,
            decreases task + 1 - self.links@.len(),
        {
            proof {
                lemma_grown(self.links@, order);
            }
            self.links.push(Links { linked: false, prev: None, next: None });
        }
        let head: Option<usize> = self.head;
        let ghost before = self.links@;
        proof {
            lemma_last_is_in_range(self.links@, order);
            lemma_inserted(self.links@, order, task);
        }
        self.links.set(task, Links { linked: true, prev: None, next: head });
        if let Some(first) = head {
            let second: Option<usize> = self.links[first].next;
            self.links.set(first, Links { linked: true, prev: Some(task), next: second });
        }
        self.head = Some(task);
        self.order = Ghost(order.push(task));
        proof {
            assert(self.links@ =~= inserted_links(before, order, task));
        }
    }

    /// Unlinks a registered task without releasing its executor reference.
    pub fn remove(&mut self, task: usize)
        requires
            old(self).wf(),
            old(self)@.contains(task),
        ensures
            final(self).wf(),
            final(self)@ == old(self)@.remove(old(self)@.index_of(task)),
            !final(self)@.contains(task),
    {
        let ghost order = self.order@;
        let ghost k = order.index_of(task);
        let ghost before = self.links@;
        proof {
            lemma_neighbours(before, order, k);
            assert(self.links.len() == before.len());
            lemma_removed(before, order, k);
        }
        let links: Links = self.links[task];
        match links.prev {
            Some(prev) => {
                let beyond: Option<usize> = self.links[prev].prev;
                self.links.set(prev, Links { linked: true, prev: beyond, next: links.next });
            },
            None => {
                self.head = links.next;
            },
        }
        if let Some(next) = links.next {
            let beyond: Option<usize> = self.links[next].next;
            self.links.set(next, Links { linked: true, prev: links.prev, next: beyond });
        }
        self.links.set(task, Links { linked: false, prev: None, next: None });
        self.order = Ghost(order.remove(k));
        proof {
            assert(self.links@ =~= removed_links(before, order, k));
        }
    }

    /// Registering a task and unlinking it again leaves the list as it was.
    pub proof fn law_unlinking_undoes_registering(before: Seq<usize>, task: usize)
        requires
            !before.contains(task),
        ensures
            before.push(task).remove(before.push(task).index_of(task)) == before,
    {
        let longer = before.push(task);
        assert(longer[before.len() as int] == task);
        let i = longer.index_of(task);
        assert(longer.contains(task));
        if i < before.len() {
            assert(before[i] == task);
        }
        assert(longer.remove(i) =~= before);
    }

    /// Shutdown ends when nothing new is registered: it takes the tasks in the
    /// reverse of the order in which they were registered, each once.
    pub proof fn law_taking_heads_empties_the_list(list: Seq<usize>)
        requires
            list.len() > 0,
            list.no_duplicates(),
        ensures
            list.remove(list.index_of(list.last())) == list.drop_last(),
            list.drop_last().len() < list.len(),
            !list.drop_last().contains(list.last()),
    {
        let i = list.index_of(list.last());
        assert(list.contains(list.last())) by {
            assert(list[list.len() - 1] == list.last());
        }
        assert(i == list.len() - 1);
        assert(list.remove(i) =~= list.drop_last());
    }
}

proof fn lemma_grown(links: Seq<Links>, order: Seq<usize>)
    requires
        joined(links, order),
    ensures
        joined(links.push(Links { linked: false, prev: None, next: None }), order),
{
    reveal(joined);
    let longer = links.push(Links { linked: false, prev: None, next: None });
    assert forall|task: int| 0 <= task < longer.len() && (#[trigger] longer[task]).linked implies order.contains(
        task as usize,
    ) by {
        assert(links[task].linked);
    }
}

proof fn lemma_last_is_in_range(links: Seq<Links>, order: Seq<usize>)
    requires
        joined(links, order),
    ensures
        order.len() > 0 ==> order.last() < links.len() && links[order.last() as int] == links_at(
            order,
            order.len() - 1,
        ),
{
    reveal(joined);
    if order.len() > 0 {
        let last = links_at(order, order.len() - 1);
        assert(links[order[order.len() - 1] as int] == last);
    }
}

/// The links once a task is put at the head.
spec fn inserted_links(links: Seq<Links>, order: Seq<usize>, task: usize) -> Seq<Links> {
    let first = Links {
        linked: true,
        prev: None,
        next: if order.len() == 0 {
            None
        } else {
            Some(order.last())
        },
    };
    if order.len() == 0 {
        links.update(task as int, first)
    } else {
        links.update(task as int, first).update(
            order.last() as int,
            Links { prev: Some(task), ..links[order.last() as int] },
        )
    }
}

proof fn lemma_inserted(links: Seq<Links>, order: Seq<usize>, task: usize)
    requires
        joined(links, order),
        task < links.len(),
        !order.contains(task),
    ensures
        joined(inserted_links(links, order, task), order.push(task)),
        order.len() > 0 ==> order.last() != task && links[order.last() as int].linked,
{
    reveal(joined);
    let after = inserted_links(links, order, task);
    let longer = order.push(task);
    if order.len() > 0 {
        assert(order.contains(order.last()));
        assert(links[order.last() as int] == links_at(order, order.len() - 1));
    }
    assert forall|k: int| 0 <= k < longer.len() implies longer[k] < after.len() && after[longer[k] as int]
        == #[trigger] links_at(longer, k) by {
        if k < order.len() {
            assert(longer[k] == order[k]);
            assert(order.contains(order[k]));
            assert(links[order[k] as int] == links_at(order, k));
            if k < order.len() - 1 {
                assert(order[k] != order[order.len() - 1]);
            }
        }
    }
    assert forall|t: int| 0 <= t < after.len() && (#[trigger] after[t]).linked implies longer.contains(t as usize) by {
        if t == task {
            assert(longer[order.len() as int] == task);
        } else {
            assert(links[t].linked);
            let k = choose|k: int| 0 <= k < order.len() && order[k] == t as usize;
            assert(longer[k] == t as usize);
        }
    }
}

/// The links once the `k`-th task is taken out.
spec fn removed_links(links: Seq<Links>, order: Seq<usize>, k: int) -> Seq<Links> {
    let out = links_at(order, k);
    let one = match out.prev {
        Some(prev) => links.update(prev as int, Links { next: out.next, ..links[prev as int] }),
        None => links,
    };
    let two = match out.next {
        Some(next) => one.update(next as int, Links { prev: out.prev, ..links[next as int] }),
        None => one,
    };
    two.update(order[k] as int, Links { linked: false, prev: None, next: None })
}

proof fn lemma_neighbours(links: Seq<Links>, order: Seq<usize>, k: int)
    requires
        joined(links, order),
        0 <= k < order.len(),
    ensures
        order[k] < links.len(),
        links[order[k] as int] == links_at(order, k),
        k + 1 < order.len() ==> order[k + 1] < links.len() && links[order[k + 1] as int] == links_at(order, k + 1)
            && order[k + 1] != order[k],
        k > 0 ==> order[k - 1] < links.len() && links[order[k - 1] as int] == links_at(order, k - 1) && order[k
            - 1] != order[k],
        0 < k && k + 1 < order.len() ==> order[k - 1] != order[k + 1],
{
    reveal(joined);
    assert(links[order[k] as int] == links_at(order, k));
    if k + 1 < order.len() {
        assert(links[order[k + 1] as int] == links_at(order, k + 1));
    }
    if k > 0 {
        assert(links[order[k - 1] as int] == links_at(order, k - 1));
    }
}

proof fn lemma_removed(links: Seq<Links>, order: Seq<usize>, k: int)
    requires
        joined(links, order),
        0 <= k < order.len(),
        links.len() <= usize::MAX,
    ensures
        joined(removed_links(links, order, k), order.remove(k)),
        !order.remove(k).contains(order[k]),
        k == order.len() - 1 ==> (if order.remove(k).len() == 0 {
            links_at(order, k).next is None
        } else {
            links_at(order, k).next == Some(order.remove(k).last())
        }),
        k < order.len() - 1 ==> order.remove(k).len() > 0 && order.remove(k).last() == order.last(),
{
    reveal(joined);
    let after = removed_links(links, order, k);
    let shorter = order.remove(k);
    lemma_neighbours(links, order, k);
    assert forall|j: int| 0 <= j < shorter.len() implies shorter[j] < after.len() && after[shorter[j] as int]
        == #[trigger] links_at(shorter, j) by {
        let i = if j < k {
            j
        } else {
            j + 1
        };
        assert(shorter[j] == order[i]);
        assert(links[order[i] as int] == links_at(order, i));
        assert(order[i] != order[k]);
        if k + 1 < order.len() && i != k + 1 {
            assert(order[i] != order[k + 1]);
        }
        if k > 0 && i != k - 1 {
            assert(order[i] != order[k - 1]);
        }
    }
    assert forall|t: int| 0 <= t < after.len() && (#[trigger] after[t]).linked implies shorter.contains(t as usize) by {
        assert(t != order[k]);
        assert(links[t].linked);
        let i = choose|i: int| 0 <= i < order.len() && order[i] == t as usize;
        assert(i != k);
        if i < k {
            assert(shorter[i] == t as usize);
        } else {
            assert(shorter[i - 1] == t as usize);
        }
    }
}

} // verus!
