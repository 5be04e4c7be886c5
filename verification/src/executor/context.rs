//! Executor resources retained while a task destructor can release its owner.

use crate::timer::time::Duration;
use std::collections::VecDeque;
use vstd::prelude::*;

verus! {

/// Whether a task queue is to be run soon.
#[derive(Debug, Clone, Copy, PartialEq, Eq)]
pub enum Latency {
    /// Within this time.
    Matters(Duration),
    /// Whenever there is time.
    NotImportant,
}

/// What requests made from a task queue need.
#[derive(Debug, Clone, Copy, PartialEq, Eq)]
pub struct IoRequirements {
    /// How soon its tasks are to be run.
    pub latency_req: Latency,
    /// The task queue.
    pub io_handle: usize,
}

/// How much of the executor's time a task queue is to get, beside the others.
#[derive(Debug, Clone, Copy, PartialEq, Eq, Structural)]
pub enum Shares {
    /// As much as a queue gets that nothing was asked for.
    Unset,
    /// In this proportion.
    Static(usize),
}

impl Default for Shares {
    fn default() -> (shares: Self)
        ensures
            shares == Shares::Unset,
    {
        Shares::Unset
    }
}

/// What is to be done before a context is left.
#[derive(Debug, Clone, Copy, PartialEq, Eq, Structural)]
pub enum LeaveStep {
    /// Every task of the executor is dropped.
    DropTasks,
    /// The next task is taken off this queue and dropped.
    Drain(usize),
    /// What was in force before is in force again.
    Leave,
}

/// Names a task queue.
#[derive(Debug, Clone, Copy, PartialEq, Eq, Structural)]
pub struct TaskQueueHandle {
    /// Its index.
    pub index: usize,
}

/// There is no such task queue.
#[derive(Debug, Clone, Copy, PartialEq, Eq, Structural)]
pub struct QueueNotFound {
    /// The index it was looked for under.
    pub index: usize,
}

/// A task queue, as long as anything holds on to it.
pub struct TaskQueue<R> {
    /// Its name.
    pub name: String,
    /// How much of the executor's time it is to get.
    pub shares: Shares,
    /// What requests made from it need.
    pub io_requirements: IoRequirements,
    /// What is to be run, in order.
    pub runnables: VecDeque<R>,
    /// It was asked to let others run.
    pub yielded: bool,
    /// It takes part in scheduling.
    pub active: bool,
    /// It can be found by its handle. A queue that was removed cannot.
    pub available: bool,
}

impl<R> TaskQueue<R> {
    /// A queue that nothing was put on yet.
    pub open spec fn is_fresh(&self, name: Seq<char>, shares: Shares, latency: Latency, index: usize) -> bool {
        &&& self.name@ == name
        &&& self.shares == shares
        &&& self.io_requirements == IoRequirements { latency_req: latency, io_handle: index }
        &&& self.runnables@.len() == 0
        &&& !self.yielded
        &&& !self.active
        &&& self.available
    }

    /// The same queue but for what is on it and whether it takes part in
    /// scheduling.
    pub open spec fn same_queue(&self, before: &Self) -> bool {
        &&& self.name == before.name
        &&& self.shares == before.shares
        &&& self.io_requirements == before.io_requirements
        &&& self.yielded == before.yielded
        &&& self.available == before.available
    }
}

/// What was in force before a context was entered to drop a task.
#[derive(Debug, Clone, Copy, PartialEq, Eq)]
pub struct Previous {
    /// The queue that was executing.
    pub active_executing: Option<usize>,
    /// The requirements the reactor went by.
    pub io_requirements: IoRequirements,
}

/// An executor's task queues.
pub struct ExecutorContext<R> {
    /// The executor.
    pub id: usize,
    /// The task queues, under their indices.
    pub queues: Vec<TaskQueue<R>>,
    /// The queue that is executing.
    pub active_executing: Option<usize>,
    /// The requirements the reactor goes by.
    pub io_requirements: IoRequirements,
}

impl<R> ExecutorContext<R> {
    /// The queue that is executing is one of the queues.
    pub open spec fn wf(&self) -> bool {
        self.active_executing matches Some(index) ==> index < self.queues@.len()
    }

    /// A queue can be found under this index.
    pub open spec fn finds(&self, index: usize) -> bool {
        index < self.queues@.len() && self.queues@[index as int].available
    }

    /// All but the queues is as it was.
    pub open spec fn same_but_queues(&self, before: &Self) -> bool {
        &&& self.id == before.id
        &&& self.active_executing == before.active_executing
        &&& self.io_requirements == before.io_requirements
    }

    /// An executor without task queues.
    pub fn new(id: usize) -> (context: Self)
        ensures
            context.wf(),
            context.id == id,
            context.queues@.len() == 0,
            context.active_executing is None,
            context.io_requirements == (IoRequirements { latency_req: Latency::NotImportant, io_handle: 0 }),
    {
        ExecutorContext {
            id,
            queues: Vec::new(),
            active_executing: None,
            io_requirements: IoRequirements { latency_req: Latency::NotImportant, io_handle: 0 },
        }
    }

    /// The executor.
    pub fn id(&self) -> (id: usize)
        ensures
            id == self.id,
    {
        self.id
    }

    /// Makes a task queue. Indices count up, and none is given twice.
    pub fn create_task_queue(&mut self, shares: Shares, latency: Latency, name: String) -> (handle: TaskQueueHandle)
        requires
            old(self).wf(),
        ensures
            final(self).wf(),
            final(self).same_but_queues(old(self)),
            handle.index == old(self).queues@.len(),
            final(self).queues@.len() == old(self).queues@.len() + 1,
            final(self).queues@.drop_last() == old(self).queues@,
            final(self).queues@.last().is_fresh(name@, shares, latency, handle.index),
            final(self).finds(handle.index),
            final(self).queues@.last().runnables@.len() == 0,
            final(self).queues@.last().io_requirements.io_handle == handle.index,
            final(self).queues@.last().io_requirements.latency_req == latency,
            final(self).queues@.last().shares == shares,
    {
        let index: usize = self.queues.len();
        self.queues.push(
            TaskQueue {
                name,
                shares,
                io_requirements: IoRequirements { latency_req: latency, io_handle: index },
                runnables: VecDeque::new(),
                yielded: false,
                active: false,
                available: true,
            },
        );
        assert(self.queues@.drop_last() =~= old(self).queues@);
        TaskQueueHandle { index }
    }

    /// Whether there is a queue of this handle.
    pub fn get_queue(&self, handle: &TaskQueueHandle) -> (queue: Option<usize>)
        ensures
            queue == if self.finds(handle.index) {
                Some(handle.index)
            } else {
                None
            },
            queue is Some <==> handle.index < self.queues@.len() && self.queues@[handle.index as int].available,
    {
        if handle.index < self.queues.len() && self.queues[handle.index].available {
            Some(handle.index)
        } else {
            None
        }
    }

    /// The queue that a task without one is dropped on: the default queue if
    /// there is one, any other if not, and one made for that where there is
    /// none.
    pub fn cleanup_queue(&mut self) -> (index: usize)
        requires
            old(self).wf(),
        ensures
            final(self).wf(),
            final(self).same_but_queues(old(self)),
            final(self).finds(index),
            old(self).finds(0) ==> index == 0,
            (exists|i: usize| old(self).finds(i)) ==> final(self).queues@ == old(self).queues@,
            !(exists|i: usize| old(self).finds(i)) ==> {
                &&& index == old(self).queues@.len()
                &&& final(self).queues@.len() == old(self).queues@.len() + 1
                &&& final(self).queues@.drop_last() == old(self).queues@
                &&& final(self).queues@.last().is_fresh("cleanup"@, Shares::Unset, Latency::NotImportant, index)
            },
    {
        let mut index: usize = 0;
        while index < self.queues.len()
            invariant
                *self == *old(self),
                self.wf(),
                index <= self.queues@.len(),
                forall|i: usize| #![trigger self.finds(i)] i < index ==> !self.finds(i),
            decreases self.queues@.len() - index,
        {
            if self.queues[index].available {
                assert(self.finds(index));
                return index;
            }
            index = index + 1;
        }
        proof {
            assert forall|i: usize| !old(self).finds(i) by {
            }
        }
        let handle: TaskQueueHandle = self.create_task_queue(
            Shares::default(),
            Latency::NotImportant,
            "cleanup".to_string(),
        );
        assert(self.queues@[handle.index as int] == self.queues@.last());
        handle.index
    }

    /// Puts a task on a queue, also while another executor runs, and has the
    /// queue take part in scheduling.
    pub fn schedule(&mut self, queue: usize, runnable: R)
        requires
            old(self).wf(),
            queue < old(self).queues@.len(),
        ensures
            final(self).wf(),
            final(self).same_but_queues(old(self)),
            final(self).queues@.len() == old(self).queues@.len(),
            forall|i: int|
                0 <= i < old(self).queues@.len() && i != queue ==> #[trigger] final(self).queues@[i] == old(self).queues@[i],
            final(self).queues@[queue as int].same_queue(&old(self).queues@[queue as int]),
            final(self).queues@[queue as int].runnables@ == old(self).queues@[queue as int].runnables@.push(runnable),
            final(self).queues@[queue as int].active,
    {
        push_to(&mut self.queues, queue, runnable);
    }

    /// Puts a canceled task whose queue was removed on the queue that such
    /// tasks are dropped on. Returns that queue.
    pub fn schedule_cleanup(&mut self, runnable: R) -> (queue: usize)
        requires
            old(self).wf(),
        ensures
            final(self).wf(),
            final(self).same_but_queues(old(self)),
            final(self).finds(queue),
            old(self).finds(0) ==> queue == 0,
            final(self).queues@[queue as int].runnables@.last() == runnable,
            final(self).queues@[queue as int].active,
            (exists|i: usize| old(self).finds(i)) ==> {
                &&& final(self).queues@.len() == old(self).queues@.len()
                &&& old(self).finds(queue)
                &&& final(self).queues@[queue as int].same_queue(&old(self).queues@[queue as int])
                &&& final(self).queues@[queue as int].runnables@ == old(self).queues@[queue as int].runnables@.push(runnable)
            },
            !(exists|i: usize| old(self).finds(i)) ==> {
                &&& queue == old(self).queues@.len()
                &&& final(self).queues@.len() == old(self).queues@.len() + 1
                &&& final(self).queues@[queue as int].name@ == "cleanup"@
                &&& final(self).queues@[queue as int].shares == Shares::Unset
                &&& final(self).queues@[queue as int].io_requirements == (IoRequirements {
                    latency_req: Latency::NotImportant,
                    io_handle: queue,
                })
                &&& !final(self).queues@[queue as int].yielded
                &&& final(self).queues@[queue as int].available
                &&& final(self).queues@[queue as int].runnables@ == seq![runnable]
            },
            forall|i: int|
                0 <= i < old(self).queues@.len() && i != queue ==> #[trigger] final(self).queues@[i] == old(self).queues@[i],
    {
        let queue: usize = self.cleanup_queue();
        let ghost mid = *self;
        proof {
            if !(exists|i: usize| old(self).finds(i)) {
                assert forall|i: int| 0 <= i < old(self).queues@.len() implies mid.queues@[i] == old(self).queues@[i] by {
                    assert(mid.queues@.drop_last()[i] == old(self).queues@[i]);
                }
            }
        }
        self.schedule(queue, runnable);
        queue
    }

    /// The queue that is executing.
    pub fn current_task_queue(&self) -> (handle: TaskQueueHandle)
        requires
            self.active_executing is Some,
        ensures
            Some(handle.index) == self.active_executing,
    {
        match self.active_executing {
            Some(index) => TaskQueueHandle { index },
            None => vstd::pervasive::unreached(),
        }
    }

    /// Has the queue that is executing let others run.
    pub fn mark_me_for_yield(&mut self)
        requires
            old(self).wf(),
            old(self).active_executing is Some,
        ensures
            final(self).wf(),
            final(self).same_but_queues(old(self)),
            ({
                let me = old(self).active_executing->0 as int;
                final(self).queues@ == old(self).queues@.update(
                    me,
                    (TaskQueue { yielded: true, ..old(self).queues@[me] }),
                )
            }),
    {
        if let Some(me) = self.active_executing {
            mark_yielded(&mut self.queues, me);
        }
    }

    /// The queue that a task goes on that was spawned without naming one: the
    /// one that is executing, and outside of any the default one.
    pub fn spawn_internal(&self) -> (queue: usize)
        requires
            self.wf(),
            self.active_executing is Some || self.finds(0),
        ensures
            queue < self.queues@.len(),
            queue == self.active_executing.unwrap_or(0),
    {
        match self.active_executing {
            Some(index) => index,
            None => 0,
        }
    }

    /// The queue that a task goes on that was spawned naming one.
    pub fn spawn_into(&self, handle: TaskQueueHandle) -> (queue: Result<usize, QueueNotFound>)
        ensures
            queue == if self.finds(handle.index) {
                Ok::<usize, QueueNotFound>(handle.index)
            } else {
                Err(QueueNotFound { index: handle.index })
            },
    {
        match self.get_queue(&handle) {
            Some(queue) => Ok(queue),
            None => Err(QueueNotFound { index: handle.index }),
        }
    }

    /// The queue in whose name a task is dropped: its own, if there is one
    /// still, or the one that is executing, or the one for such tasks.
    pub open spec fn cleans_on(&self, queue: Option<usize>, index: usize) -> bool {
        match queue {
            Some(own) => index == own,
            None => match self.active_executing {
                Some(active) => index == active,
                None => true,
            },
        }
    }

    /// Enters the context to drop a task: from now on a queue is executing and
    /// the reactor goes by its requirements. Returns what was in force before.
    pub fn enter_cleanup(&mut self, queue: Option<usize>) -> (previous: Previous)
        requires
            old(self).wf(),
            queue matches Some(index) ==> index < old(self).queues@.len(),
        ensures
            final(self).wf(),
            final(self).id == old(self).id,
            previous == (Previous {
                active_executing: old(self).active_executing,
                io_requirements: old(self).io_requirements,
            }),
            final(self).active_executing is Some,
            old(self).cleans_on(queue, final(self).active_executing->0),
            queue matches Some(own) ==> final(self).active_executing == Some(own),
            queue is None && old(self).active_executing is Some ==> final(self).active_executing == old(self).active_executing,
            final(self).io_requirements == final(self).queues@[final(self).active_executing->0 as int].io_requirements,
            queue is Some || old(self).active_executing is Some ==> final(self).queues@ == old(self).queues@,
            queue is None && old(self).active_executing is None ==> {
                &&& final(self).finds(final(self).active_executing->0)
                &&& old(self).finds(0) ==> final(self).active_executing == Some(0usize)
                &&& (exists|i: usize| old(self).finds(i)) ==> final(self).queues@ == old(self).queues@
                &&& !(exists|i: usize| old(self).finds(i)) ==> final(self).queues@.len() == old(self).queues@.len() + 1
                    && final(self).queues@.drop_last() == old(self).queues@ && final(self).queues@.last().is_fresh(
                    "cleanup"@,
                    Shares::Unset,
                    Latency::NotImportant,
                    final(self).active_executing->0,
                )
            },
    {
        let previous = Previous { active_executing: self.active_executing, io_requirements: self.io_requirements };
        let index: usize = match queue {
            Some(index) => index,
            None => match self.active_executing {
                Some(index) => index,
                None => self.cleanup_queue(),
            },
        };
        self.active_executing = Some(index);
        self.io_requirements = self.queues[index].io_requirements;
        previous
    }

    /// Leaves the context, however the task's destructor ended: what was in
    /// force before is in force again.
    pub fn leave_cleanup(&mut self, previous: Previous)
        requires
            previous.active_executing matches Some(index) ==> index < old(self).queues@.len(),
        ensures
            final(self).wf(),
            *final(self) == (ExecutorContext {
                active_executing: previous.active_executing,
                io_requirements: previous.io_requirements,
                ..*old(self)
            }),
    {
        self.active_executing = previous.active_executing;
        self.io_requirements = previous.io_requirements;
    }

    /// Takes the next task off a queue.
    pub fn get_task(&mut self, queue: usize) -> (task: Option<R>)
        requires
            old(self).wf(),
            queue < old(self).queues@.len(),
        ensures
            final(self).wf(),
            final(self).same_but_queues(old(self)),
            final(self).queues@.len() == old(self).queues@.len(),
            forall|i: int|
                0 <= i < old(self).queues@.len() && i != queue ==> #[trigger] final(self).queues@[i] == old(self).queues@[i],
            final(self).queues@[queue as int].same_queue(&old(self).queues@[queue as int]),
            final(self).queues@[queue as int].active == old(self).queues@[queue as int].active,
            match task {
                None => old(self).queues@[queue as int].runnables@.len() == 0
                    && final(self).queues@[queue as int].runnables@.len() == 0,
                Some(task) => {
                    let runnables = old(self).queues@[queue as int].runnables@;
                    &&& runnables.len() > 0
                    &&& task == runnables[0]
                    &&& final(self).queues@[queue as int].runnables@ == runnables.skip(1)
                },
            },
    {
        pop_from(&mut self.queues, queue)
    }

    /// The next queue that can be found and still has tasks on it, from `from`
    /// on and before `until`. Once there is none, a shutdown that dropped every
    /// task before has finished.
    pub fn next_to_drain(&self, from: usize, until: usize) -> (queue: Option<usize>)
        requires
            from <= until <= self.queues@.len(),
        ensures
            match queue {
                Some(index) => {
                    &&& from <= index < until
                    &&& self.finds(index) && self.queues@[index as int].runnables@.len() > 0
                    &&& forall|i: int| from <= i < index ==> !((#[trigger] self.queues@[i]).available && self.queues@[i].runnables@.len() > 0)
                },
                None => forall|i: int|
                    from <= i < until ==> !((#[trigger] self.queues@[i]).available && self.queues@[i].runnables@.len() > 0),
            },
    {
        let mut index: usize = from;
        while index < until
            invariant
                from <= index <= until <= self.queues@.len(),
                forall|i: int| from <= i < index ==> !((#[trigger] self.queues@[i]).available && self.queues@[i].runnables@.len() > 0),
            decreases until - index,
        {
            if self.queues[index].available && self.queues[index].runnables.len() > 0 {
                return Some(index);
            }
            index = index + 1;
        }
        None
    }

    /// What a context is not left without, once a task's destructor has ended.
    ///
    /// An executor that is shutting down first drops every task it has, and
    /// then what is left on its queues, one after the other, those that were
    /// there when this began. Destructors run meanwhile that may put more on
    /// a queue, so it is asked again after each, `from` being the queue that
    /// was drained last.
    pub fn leave_step(&self, shutting_down: bool, tasks_dropped: bool, from: usize, until: usize) -> (step: LeaveStep)
        requires
            from <= until <= self.queues@.len(),
        ensures
            step is DropTasks <==> shutting_down && !tasks_dropped,
            match step {
                LeaveStep::DropTasks => true,
                LeaveStep::Drain(index) => {
                    &&& shutting_down
                    &&& from <= index < until
                    &&& self.finds(index) && self.queues@[index as int].runnables@.len() > 0
                    &&& forall|i: int| from <= i < index ==> !((#[trigger] self.queues@[i]).available && self.queues@[i].runnables@.len() > 0)
                },
                LeaveStep::Leave => shutting_down ==> forall|i: int|
                    from <= i < until ==> !((#[trigger] self.queues@[i]).available && self.queues@[i].runnables@.len() > 0),
            },
    {
        if !shutting_down {
            return LeaveStep::Leave;
        }
        if !tasks_dropped {
            return LeaveStep::DropTasks;
        }
        match self.next_to_drain(from, until) {
            Some(queue) => LeaveStep::Drain(queue),
            None => LeaveStep::Leave,
        }
    }

    /// Entering a context and leaving it, whatever was done to its queues in
    /// between, brings back what was in force before.
    pub proof fn law_leaving_restores(before: &Self, previous: Previous, after: &Self)
        requires
            before.wf(),
            previous == (Previous {
                active_executing: before.active_executing,
                io_requirements: before.io_requirements,
            }),
            after.queues@.len() >= before.queues@.len(),
        ensures
            previous.active_executing matches Some(index) ==> index < after.queues@.len(),
            (ExecutorContext {
                active_executing: previous.active_executing,
                io_requirements: previous.io_requirements,
                ..*after
            }).same_but_queues(&(ExecutorContext { id: after.id, ..*before })),
    {
    }
}

fn push_to<R>(queues: &mut Vec<TaskQueue<R>>, queue: usize, runnable: R)
    requires
        queue < old(queues)@.len(),
    ensures
        final(queues)@.len() == old(queues)@.len(),
        forall|i: int| 0 <= i < old(queues)@.len() && i != queue ==> #[trigger] final(queues)@[i] == old(queues)@[i],
        final(queues)@[queue as int].same_queue(&old(queues)@[queue as int]),
        final(queues)@[queue as int].runnables@ == old(queues)@[queue as int].runnables@.push(runnable),
        final(queues)@[queue as int].active,
{
    let queue: &mut TaskQueue<R> = &mut queues[queue];
    queue.runnables.push_back(runnable);
    queue.active = true;
}

fn pop_from<R>(queues: &mut Vec<TaskQueue<R>>, queue: usize) -> (task: Option<R>)
    requires
        queue < old(queues)@.len(),
    ensures
        final(queues)@.len() == old(queues)@.len(),
        forall|i: int| 0 <= i < old(queues)@.len() && i != queue ==> #[trigger] final(queues)@[i] == old(queues)@[i],
        final(queues)@[queue as int].same_queue(&old(queues)@[queue as int]),
        final(queues)@[queue as int].active == old(queues)@[queue as int].active,
        match task {
            None => old(queues)@[queue as int].runnables@.len() == 0 && final(queues)@[queue as int].runnables@.len() == 0,
            Some(task) => {
                let runnables = old(queues)@[queue as int].runnables@;
                &&& runnables.len() > 0
                &&& task == runnables[0]
                &&& final(queues)@[queue as int].runnables@ == runnables.skip(1)
            },
        },
{
    let queue: &mut TaskQueue<R> = &mut queues[queue];
    queue.runnables.pop_front()
}

fn mark_yielded<R>(queues: &mut Vec<TaskQueue<R>>, queue: usize)
    requires
        queue < old(queues)@.len(),
    ensures
        final(queues)@ == old(queues)@.update(
            queue as int,
            (TaskQueue { yielded: true, ..old(queues)@[queue as int] }),
        ),
{
    let queue: &mut TaskQueue<R> = &mut queues[queue];
    queue.yielded = true;
}

/// Recovers an idle owner's context, if everything it is made of is still
/// alive.
pub fn upgrade<Q, T, R>(queues: Option<Q>, tasks: Option<T>, reactor: Option<R>, id: usize) -> (context: Option<
    (Q, T, usize, R),
>)
    ensures
        context is Some <==> queues is Some && tasks is Some && reactor is Some,
        context matches Some(context) ==> context == (queues->0, tasks->0, id, reactor->0),
{
    match (queues, tasks, reactor) {
        (Some(queues), Some(tasks), Some(reactor)) => Some((queues, tasks, id, reactor)),
        _ => None,
    }
}

} // verus!
