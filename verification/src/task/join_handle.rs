//! Awaiting the result of a task.

use super::raw::{CancelStep, HandleStep, Holders, JoinStep, RawTask};
use core::marker::PhantomData;
use vstd::prelude::*;

verus! {

/// A handle that awaits the result of a task.
///
/// Waiting resolves to an `Option<R>` where:
///
/// * `None` indicates the task has panicked or was canceled.
/// * `Some(result)` indicates the task has completed with `result` of type `R`.
#[derive(Debug)]
pub struct JoinHandle<R> {
    task: usize,
    _marker: PhantomData<R>,
}

impl<R> JoinHandle<R> {
    /// The number of the task.
    pub closed spec fn spec_task(&self) -> usize {
        self.task
    }

    /// A handle to the task its owner knows under `task`.
    pub fn new(task: usize) -> (handle: Self)
        ensures
            handle.spec_task() == task,
    {
        JoinHandle { task, _marker: PhantomData }
    }

    /// The number of the task.
    pub fn task(&self) -> (task: usize)
        ensures
            task == self.spec_task(),
    {
        self.task
    }

    /// Cancels the task.
    ///
    /// If the task has already completed, calling this method will have no
    /// effect.
    ///
    /// When a task is canceled, its future will not be polled again.
    pub fn cancel(&self, task: &mut RawTask<R>) -> (step: CancelStep)
        requires
            old(task).wf(),
            old(task).has_room(),
        ensures
            final(task).wf(),
            final(task).advances(old(task)),
            step == old(task).cancel_step(),
            *final(task) == old(task).cancelled(),
    {
        task.cancel()
    }

    /// Drops the handle.
    pub fn release(self, task: &mut RawTask<R>) -> (step: HandleStep<R>)
        requires
            old(task).wf(),
            old(task).handle,
        ensures
            final(task).wf(),
            final(task).advances(old(task)),
            !final(task).handle,
            step is Destroy <==> old(task).schedule_dropped && old(task).references == 1,
            step matches HandleStep::Destroy(output) ==> output == old(task).output && final(task).references == 0
                && final(task).inert(),
            step matches HandleStep::Continue(output) ==> output == old(task).output && *final(task) == (RawTask {
                handle: false,
                output: None,
                closed: old(task).closed || old(task).output is Some,
                holders: Ghost((Holders { wakers: old(task).holders@.wakers + 1, ..old(task).holders@ })),
                ..*old(task)
            }),
    {
        task.drop_handle()
    }

    /// The task is over as far as its handle can tell.
    pub open spec fn settled(task: &RawTask<R>) -> bool {
        if task.closed {
            task.future_dropped && !task.running
        } else {
            task.completed
        }
    }

    /// Waits for the task. One that was cancelled counts as over once its
    /// future is dropped: a queued runnable can outlive executor shutdown.
    pub fn poll(&self, task: &mut RawTask<R>) -> (step: JoinStep<R>)
        requires
            old(task).wf(),
            old(task).handle,
        ensures
            final(task).wf(),
            final(task).advances(old(task)),
            step is Pending <==> !Self::settled(old(task)),
            step is Pending ==> *final(task) == (RawTask { awaiter: true, ..*old(task) }),
            step matches JoinStep::Ready { output, notify } ==> {
                &&& notify == old(task).awaiter
                &&& output == if old(task).closed {
                    None
                } else {
                    old(task).output
                }
                &&& old(task).closed || output is Some
                &&& *final(task) == if old(task).closed {
                    RawTask { awaiter: false, ..*old(task) }
                } else {
                    RawTask { awaiter: false, closed: true, output: None, ..*old(task) }
                }
            },
    {
        if task.closed {
            if !task.future_dropped || task.running {
                task.awaiter = true;
                return JoinStep::Pending;
            }
            return JoinStep::Ready { output: None, notify: task.take_awaiter() };
        }
        if !task.completed {
            task.awaiter = true;
            return JoinStep::Pending;
        }
        let mut output: Option<R> = None;
        core::mem::swap(&mut task.output, &mut output);
        task.closed = true;
        JoinStep::Ready { output, notify: task.take_awaiter() }
    }
}

/// Waiting ends as soon as there is nothing left to wait for, and not before.
/// A task that completed and was not cancelled is over; one that was cancelled
/// is over once its future is dropped and nothing of it runs; and a task that
/// may still be polled never is.
pub proof fn law_waiting_ends_with_the_task<R>(task: &RawTask<R>)
    requires
        task.wf(),
    ensures
        task.completed && !task.closed ==> JoinHandle::<R>::settled(task),
        task.completed && !task.running ==> JoinHandle::<R>::settled(task),
        task.schedule_dropped ==> JoinHandle::<R>::settled(task),
        task.closed && task.future_dropped && !task.running ==> JoinHandle::<R>::settled(task),
        JoinHandle::<R>::settled(task) ==> task.future_dropped,
        JoinHandle::<R>::settled(task) ==> task.closed || task.output is Some,
        task.closed && task.running ==> !JoinHandle::<R>::settled(task),
        !task.closed && !task.completed ==> !JoinHandle::<R>::settled(task),
{
}

} // verus!
