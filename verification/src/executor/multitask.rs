//! Running tasks on the task queues of an executor.

use super::context::{IoRequirements, Latency};
use crate::task::join_handle::JoinHandle;
use crate::task::raw::{CancelStep, JoinStep, RawTask};
use vstd::prelude::*;

verus! {

/// A spawned future.
///
/// When a task is dropped, it gets canceled and won't be polled again.
#[derive(Debug)]
pub struct Task<R> {
    handle: Option<JoinHandle<R>>,
}

impl<R> Task<R> {
    /// The number of the task its handle is still held of.
    pub closed spec fn spec_task(&self) -> Option<usize> {
        match self.handle {
            Some(handle) => Some(handle.spec_task()),
            None => None,
        }
    }

    /// Holds a task's handle.
    pub fn new(handle: JoinHandle<R>) -> (task: Self)
        ensures
            task.spec_task() == Some(handle.spec_task()),
    {
        Task { handle: Some(handle) }
    }

    /// Detaches the task to let it keep running in the background.
    pub fn detach(&mut self) -> (handle: JoinHandle<R>)
        requires
            old(self).spec_task() is Some,
        ensures
            Some(handle.spec_task()) == old(self).spec_task(),
            final(self).spec_task() is None,
    {
        match self.handle.take() {
            Some(handle) => handle,
            None => vstd::pervasive::unreached(),
        }
    }

    /// Cancels the task; its handle then waits for it to stop running.
    pub fn cancel(&mut self, raw: &mut RawTask<R>) -> (canceled: (JoinHandle<R>, CancelStep))
        requires
            old(self).spec_task() is Some,
            old(raw).wf(),
            old(raw).has_room(),
        ensures
            Some(canceled.0.spec_task()) == old(self).spec_task(),
            final(self).spec_task() is None,
            final(raw).wf(),
            final(raw).advances(old(raw)),
            canceled.1 == old(raw).cancel_step(),
            *final(raw) == old(raw).cancelled(),
    {
        let handle: JoinHandle<R> = self.detach();
        let step: CancelStep = handle.cancel(raw);
        (handle, step)
    }

    /// What dropping the task does: one that was not detached is canceled.
    pub fn dropped(&self, raw: &mut RawTask<R>) -> (step: Option<CancelStep>)
        requires
            old(raw).wf(),
            old(raw).has_room(),
        ensures
            step is Some <==> self.spec_task() is Some,
            step matches Some(step) ==> {
                &&& final(raw).wf()
                &&& final(raw).advances(old(raw))
                &&& step == old(raw).cancel_step()
                &&& *final(raw) == old(raw).cancelled()
            },
            step is None ==> *final(raw) == *old(raw),
    {
        match &self.handle {
            Some(handle) => Some(handle.cancel(raw)),
            None => None,
        }
    }

    /// Waits for the task. Awaiting a canceled one is a mistake of the caller,
    /// who learns of it by an empty output.
    pub fn poll(&self, raw: &mut RawTask<R>) -> (step: JoinStep<R>)
        requires
            self.spec_task() is Some,
            old(raw).wf(),
            old(raw).handle,
        ensures
            final(raw).wf(),
            final(raw).advances(old(raw)),
            step is Pending <==> !JoinHandle::<R>::settled(old(raw)),
            step is Pending ==> *final(raw) == (RawTask { awaiter: true, ..*old(raw) }),
            step matches JoinStep::Ready { output, notify } ==> {
                &&& notify == old(raw).awaiter
                &&& output == if old(raw).closed {
                    None
                } else {
                    old(raw).output
                }
                &&& output is None <==> old(raw).closed
                &&& *final(raw) == if old(raw).closed {
                    RawTask { awaiter: false, ..*old(raw) }
                } else {
                    RawTask { awaiter: false, closed: true, output: None, ..*old(raw) }
                }
            },
    {
        match &self.handle {
            Some(handle) => handle.poll(raw),
            None => vstd::pervasive::unreached(),
        }
    }
}

/// Where a task goes when it becomes runnable.
#[derive(Debug, Clone, Copy, PartialEq, Eq, Structural)]
pub enum Destination {
    /// Onto its queue.
    Queue,
    /// It is canceled and goes onto the owner's cleanup queue: its own queue
    /// was removed, and destruction is deferred until reactor borrows are
    /// released.
    Cleanup,
    /// It is dropped in its owner's context, which is entered for that, on its
    /// queue if there still is one.
    DropInContext,
    /// It is dropped: its owner is gone.
    Drop,
}

/// Shared scheduling metadata outlives queue removal without retaining its
/// owner.
#[derive(Debug, Clone, Copy, PartialEq, Eq, Structural)]
pub struct Scheduler {
    /// The queue.
    pub queue: usize,
    /// The executor whose queue it is.
    pub owner_id: usize,
}

impl Scheduler {
    /// The scheduling state shared by a queue and its tasks.
    pub fn new(queue: usize, owner_id: usize) -> (scheduler: Self)
        ensures
            scheduler == (Scheduler { queue, owner_id }),
    {
        Scheduler { queue, owner_id }
    }

    /// Where a task goes when it becomes runnable while `running` runs on this
    /// thread.
    pub open spec fn destination(
        &self,
        running: Option<usize>,
        queue_alive: bool,
        owner_alive: bool,
        cancelled: bool,
    ) -> Destination {
        if running == Some(self.owner_id) {
            if queue_alive {
                Destination::Queue
            } else {
                Destination::Cleanup
            }
        } else if !owner_alive {
            Destination::Drop
        } else if queue_alive && !cancelled {
            Destination::Queue
        } else {
            Destination::DropInContext
        }
    }

    /// Decides where a task goes when it becomes runnable.
    pub fn schedule(&self, running: Option<usize>, queue_alive: bool, owner_alive: bool, cancelled: bool) -> (to: Destination)
        ensures
            to == self.destination(running, queue_alive, owner_alive, cancelled),
    {
        match running {
            Some(id) if id == self.owner_id => {
                if queue_alive {
                    Destination::Queue
                } else {
                    Destination::Cleanup
                }
            },
            _ => self.schedule_inactive(queue_alive, owner_alive, cancelled),
        }
    }

    /// Decides where a task goes while its owner does not run on this thread.
    fn schedule_inactive(&self, queue_alive: bool, owner_alive: bool, cancelled: bool) -> (to: Destination)
        ensures
            forall|running: Option<usize>|
                running != Some(self.owner_id) ==> to == #[trigger] self.destination(
                    running,
                    queue_alive,
                    owner_alive,
                    cancelled,
                ),
    {
        if !owner_alive {
            return Destination::Drop;
        }
        if queue_alive && !cancelled {
            Destination::Queue
        } else {
            Destination::DropInContext
        }
    }

    /// A task whose owner is alive is never dropped outside its owner's
    /// context, and one whose queue is alive and that was not canceled is never
    /// dropped at all.
    pub proof fn law_no_task_is_lost(&self, running: Option<usize>, queue_alive: bool, owner_alive: bool, cancelled: bool)
        requires
            owner_alive,
        ensures
            !(self.destination(running, queue_alive, owner_alive, cancelled) is Drop),
            queue_alive && !cancelled ==> self.destination(running, queue_alive, owner_alive, cancelled) is Queue,
    {
    }

    /// A task goes onto a queue only where there is one. Nothing is dropped on
    /// the spot where its owner runs, which may be in the middle of anything:
    /// there a task goes onto its queue, cancelled or not, or else onto the
    /// cleanup queue. What was cancelled elsewhere is dropped in its owner's
    /// context, and without it only where the owner is gone.
    pub proof fn law_where_tasks_go(&self, running: Option<usize>, queue_alive: bool, owner_alive: bool, cancelled: bool)
        ensures
            ({
                let to = self.destination(running, queue_alive, owner_alive, cancelled);
                let here = running == Some(self.owner_id);
                &&& to is Queue ==> queue_alive
                &&& here ==> !(to is Drop) && !(to is DropInContext)
                &&& here && queue_alive ==> to is Queue
                &&& !here ==> !(to is Cleanup)
                &&& !here && !owner_alive <==> to is Drop
                &&& !here && cancelled ==> !(to is Queue)
            }),
    {
    }
}

/// Whether a queue's tasks are to be run soon.
pub fn latency_matters(requirements: &IoRequirements) -> (matters: bool)
    ensures
        matters <==> requirements.latency_req is Matters,
{
    match requirements.latency_req {
        Latency::Matters(_) => true,
        Latency::NotImportant => false,
    }
}

} // verus!
