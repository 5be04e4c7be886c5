//! The state of one task and the steps it takes.
//!
//! A task is a future, a schedule function and, once the future is ready, an
//! output. None of them is held here but the output: this is the header that
//! says which of them are still there and who holds a counted reference to
//! the task. Where a step of the task's life calls out — into the future, its
//! destructor, the schedule function or a waker — the step ends and says so in
//! its result; whoever drives the task makes the call and takes the next step.
//! What is called may take steps of the same task before it returns.

use vstd::prelude::*;

verus! {

/// The most references a task may have.
pub const MAX_REFERENCES: u64 = 0x7fff_ffff_ffff_ffff;

/// Who holds the counted references, besides the join handle.
pub ghost struct Holders {
    /// The owning executor's registry, which protects the schedule function.
    pub registry: bool,
    /// The runnable: queued, being run, or about to be dropped.
    pub runnable: bool,
    /// Wakers, notifications on their way to the owner, and references that
    /// are about to be given up.
    pub wakers: nat,
}

/// A task, without its future and its schedule function.
pub struct RawTask<R> {
    /// The executor that owns the task.
    pub owner: usize,
    /// Whether the owner should be woken at once for it.
    pub latency_matters: bool,
    /// A runnable is queued, or is to be queued once the poll returns.
    pub scheduled: bool,
    /// The future is being polled or dropped.
    pub running: bool,
    /// The future returned its output.
    pub completed: bool,
    /// Cancelled, or the output was taken. The future is not polled again.
    pub closed: bool,
    /// The join handle is there.
    pub handle: bool,
    /// The future is gone.
    pub future_dropped: bool,
    /// The schedule function is gone.
    pub schedule_dropped: bool,
    /// The output, until somebody takes it.
    pub output: Option<R>,
    /// Counted references.
    pub references: u64,
    /// Wakes still have an effect.
    pub active: bool,
    /// The schedule function is being called or dropped.
    pub scheduling: bool,
    /// In the registry's list.
    pub linked: bool,
    /// Somebody waits for the task to end.
    pub awaiter: bool,
    /// Whose references those are.
    pub holders: Ghost<Holders>,
}

/// What a wake comes to.
#[derive(Debug, Clone, Copy, PartialEq, Eq, Structural)]
pub enum WakeStep {
    /// Nothing: the task is over, or is to run anyway.
    Ignore,
    /// Hand a clone of the waker to the owner, which alone may touch the rest.
    QueueForeign,
    /// The running poll will schedule the task when it returns.
    Marked,
    /// Hand a new runnable to the schedule function.
    Schedule,
}

/// What handing a runnable to the schedule function comes to.
#[derive(Debug, Clone, Copy, PartialEq, Eq, Structural)]
pub enum ScheduleStep {
    /// The function is gone and so is the runnable; with it the task, if this
    /// was the last reference.
    Released {
        /// Free the task.
        destroy: bool,
    },
    /// Call the function with the runnable.
    Call {
        /// What to pass on when it returns.
        was_scheduling: bool,
    },
}

/// What cancelling comes to.
#[derive(Debug, Clone, Copy, PartialEq, Eq, Structural)]
pub enum CancelStep {
    /// The task was over already.
    Ignored,
    /// Hand a new runnable to the schedule function, whose run will drop the
    /// future, and then notify.
    Schedule,
    /// A runnable is there and will see to the rest; notify.
    Notify,
}

/// What closing comes to.
#[derive(Debug, Clone, Copy, PartialEq, Eq, Structural)]
pub enum CloseStep {
    /// The future is being polled or dropped; who does that sees to the rest.
    Busy,
    /// Drop the future, then end the closing.
    DropFuture,
    /// The future was gone already.
    Settled {
        /// Notify who waits.
        notify: bool,
    },
}

/// What dropping a waker comes to.
#[derive(Debug, Clone, Copy, PartialEq, Eq, Structural)]
pub enum DropWakerStep {
    /// That was the last reference: free the task.
    Destroy,
    /// Nobody but the registry and this waker is left. Send the reference to
    /// the owner, which cleans up.
    QueueCleanup,
    /// As above, and this is the owner: clean up, then give up the reference.
    Cleanup,
    /// The reference is given up.
    Dropped,
}

/// What a clean-up notification comes to.
#[derive(Debug, Clone, Copy, PartialEq, Eq, Structural)]
pub enum CleanupStep {
    /// Nothing is left to clean up, or somebody else holds the task again.
    Nothing,
    /// Hand a clone of the notification to the owner.
    QueueForeign,
    /// The task was abandoned and is cancelled.
    Cancel(CancelStep),
}

/// What running comes to.
#[derive(Debug, Clone, Copy, PartialEq, Eq, Structural)]
pub enum RunStep {
    /// The task is over: drop the runnable.
    DropTask,
    /// Poll the future.
    Poll,
}

/// What a poll that did not finish comes to.
#[derive(Debug, Clone, Copy, PartialEq, Eq, Structural)]
pub enum PendingStep {
    /// Cancelled meanwhile: drop the future, then end the poll.
    DropFuture,
    /// Woken meanwhile: hand the runnable back to the schedule function.
    Reschedule,
    /// Nobody is left who could wake the task or wait for it: close it.
    Close,
    /// The task waits to be woken.
    Idle,
}

/// What dropping the join handle comes to.
#[derive(Debug)]
pub enum HandleStep<R> {
    /// That was the last reference: free the task, then drop the output.
    Destroy(Option<R>),
    /// Clean up, cancel if abandoned, drop the reference, then the output.
    Continue(Option<R>),
}

/// What waiting for the task comes to.
#[derive(Debug)]
pub enum JoinStep<R> {
    /// It is not over; who waits has been noted.
    Pending,
    /// It was cancelled or it panicked, or it ended with the output.
    Ready {
        /// The output.
        output: Option<R>,
        /// Notify who else waits.
        notify: bool,
    },
}

/// The references of one holder that is there or not.
pub open spec fn counted(there: bool) -> nat {
    if there {
        1
    } else {
        0
    }
}

impl<R> RawTask<R> {
    /// Nothing is left of the task but its header, in no list.
    pub open spec fn inert(&self) -> bool {
        &&& self.future_dropped
        &&& self.schedule_dropped
        &&& self.output is None
        &&& !self.handle
        &&& !self.linked
        &&& !self.awaiter
    }

    /// Every reference is accounted for, and what is left of the task agrees
    /// with how far it got.
    pub open spec fn wf(&self) -> bool {
        let holders = self.holders@;
        &&& self.references == counted(holders.registry) + counted(self.handle) + counted(holders.runnable)
            + holders.wakers
        &&& self.references <= MAX_REFERENCES
        &&& self.schedule_dropped ==> self.future_dropped && !self.running
        &&& self.future_dropped ==> self.closed || self.completed || self.running
        &&& self.completed ==> self.future_dropped && (self.closed || self.output is Some)
        &&& self.output is Some ==> self.completed && self.handle
        &&& self.linked ==> holders.registry
        &&& !holders.registry ==> self.schedule_dropped && !self.scheduling && !self.linked && !self.awaiter
        &&& self.schedule_dropped && !self.scheduling ==> !self.awaiter && !self.linked
        &&& holders.runnable ==> self.scheduled || self.running || self.closed || self.completed
        &&& self.scheduled ==> holders.runnable
        &&& self.active ==> !self.closed && !self.completed && !self.schedule_dropped
        &&& !self.active ==> self.closed || self.completed || self.running && self.future_dropped
        &&& self.running && !self.closed ==> holders.runnable
    }

    /// How far a task got is never undone: what was dropped, ended or
    /// cancelled stays so, and wakes that lost their effect do not regain it.
    pub open spec fn advances(&self, before: &Self) -> bool {
        &&& self.owner == before.owner
        &&& before.completed ==> self.completed
        &&& before.closed ==> self.closed
        &&& before.future_dropped ==> self.future_dropped
        &&& before.schedule_dropped ==> self.schedule_dropped
        &&& self.handle ==> before.handle
        &&& self.active ==> before.active
        &&& self.linked ==> before.linked
        &&& before.completed && self.output is Some ==> before.output is Some
    }

    /// Whether the task has room for another reference.
    pub open spec fn has_room(&self) -> bool {
        self.references < MAX_REFERENCES
    }

    /// A task just spawned: the initial runnable, the join handle and the
    /// executor's registry each own one counted reference.
    pub fn allocate(owner: usize, latency_matters: bool) -> (task: Self)
        ensures
            task.wf(),
            task == (RawTask::<R> {
                owner,
                latency_matters,
                scheduled: true,
                running: false,
                completed: false,
                closed: false,
                handle: true,
                future_dropped: false,
                schedule_dropped: false,
                output: None,
                references: 3,
                active: true,
                scheduling: false,
                linked: true,
                awaiter: false,
                holders: Ghost(Holders { registry: true, runnable: true, wakers: 0 }),
            }),
    {
        RawTask {
            owner,
            latency_matters,
            scheduled: true,
            running: false,
            completed: false,
            closed: false,
            handle: true,
            future_dropped: false,
            schedule_dropped: false,
            output: None,
            references: 3,
            active: true,
            scheduling: false,
            linked: true,
            awaiter: false,
            holders: Ghost(Holders { registry: true, runnable: true, wakers: 0 }),
        }
    }

    /// Whether the executor whose context this thread is in owns the task.
    pub fn is_local(&self, context: Option<usize>) -> (local: bool)
        ensures
            local <==> context == Some(self.owner),
    {
        match context {
            Some(id) => id == self.owner,
            None => false,
        }
    }

    /// What a wake comes to.
    pub open spec fn wake_step(&self, local: bool) -> WakeStep {
        if !self.active {
            WakeStep::Ignore
        } else if !local {
            WakeStep::QueueForeign
        } else if self.completed || self.closed || self.scheduled {
            WakeStep::Ignore
        } else if self.running {
            WakeStep::Marked
        } else {
            WakeStep::Schedule
        }
    }

    /// Wakes a task. Only the owning executor may access its local state.
    pub fn do_wake(&mut self, local: bool) -> (step: WakeStep)
        requires
            old(self).wf(),
            old(self).has_room(),
        ensures
            final(self).wf(),
            final(self).advances(old(self)),
            step == old(self).wake_step(local),
            *final(self) == (match step {
                WakeStep::Ignore => *old(self),
                WakeStep::QueueForeign => RawTask {
                    references: (old(self).references + 1) as u64,
                    holders: Ghost(
                        (Holders { wakers: old(self).holders@.wakers + 1, ..old(self).holders@ }),
                    ),
                    ..*old(self)
                },
                WakeStep::Marked => RawTask { scheduled: true, ..*old(self) },
                WakeStep::Schedule => RawTask {
                    scheduled: true,
                    references: (old(self).references + 1) as u64,
                    holders: Ghost((Holders { runnable: true, ..old(self).holders@ })),
                    ..*old(self)
                },
            }),
            old(self).active && !local ==> step is QueueForeign && final(self).references == old(self).references + 1,
            old(self).active && local ==> final(self).scheduled && (old(self).scheduled || (old(self).running && step is Marked)
                || step is Schedule),
    {
        if !self.active {
            return WakeStep::Ignore;
        }
        if !local {
            self.clone_waker();
            return WakeStep::QueueForeign;
        }
        if self.completed || self.closed || self.scheduled {
            return WakeStep::Ignore;
        }
        self.scheduled = true;
        if self.running {
            WakeStep::Marked
        } else {
            self.references = self.references + 1;
            self.holders = Ghost(Holders { runnable: true, ..self.holders@ });
            WakeStep::Schedule
        }
    }

    /// Counts another waker.
    pub fn clone_waker(&mut self)
        requires
            old(self).wf(),
            old(self).has_room(),
        ensures
            final(self).wf(),
            final(self).advances(old(self)),
            *final(self) == (RawTask {
                references: (old(self).references + 1) as u64,
                holders: Ghost((Holders { wakers: old(self).holders@.wakers + 1, ..old(self).holders@ })),
                ..*old(self)
            }),
    {
        self.references = self.references + 1;
        self.holders = Ghost(Holders { wakers: self.holders@.wakers + 1, ..self.holders@ });
    }

    /// Gives up a reference that stands for a waker. Says whether it was the
    /// last, after which the task is freed.
    pub fn release(&mut self) -> (destroy: bool)
        requires
            old(self).wf(),
            old(self).holders@.wakers > 0,
        ensures
            final(self).wf(),
            final(self).advances(old(self)),
            destroy <==> old(self).references == 1,
            destroy ==> final(self).inert(),
            *final(self) == (RawTask {
                references: (old(self).references - 1) as u64,
                holders: Ghost(
                    (Holders { wakers: (old(self).holders@.wakers - 1) as nat, ..old(self).holders@ }),
                ),
                ..*old(self)
            }),
    {
        self.references = self.references - 1;
        self.holders = Ghost(Holders { wakers: (self.holders@.wakers - 1) as nat, ..self.holders@ });
        self.references == 0
    }

    /// Gives up the runnable of a task that is over. Says whether that was the
    /// last reference.
    pub fn release_runnable(&mut self) -> (destroy: bool)
        requires
            old(self).wf(),
            old(self).holders@.runnable,
            !old(self).scheduled,
            !old(self).running || old(self).closed,
        ensures
            final(self).wf(),
            final(self).advances(old(self)),
            destroy <==> old(self).references == 1,
            destroy ==> final(self).inert(),
            *final(self) == (RawTask {
                references: (old(self).references - 1) as u64,
                holders: Ghost((Holders { runnable: false, ..old(self).holders@ })),
                ..*old(self)
            }),
    {
        self.references = self.references - 1;
        self.holders = Ghost(Holders { runnable: false, ..self.holders@ });
        self.references == 0
    }

    /// Gives up the registry's reference once the owner has cleaned up. Says
    /// whether it was the last.
    pub fn release_registry(&mut self) -> (destroy: bool)
        requires
            old(self).wf(),
            old(self).holders@.registry,
            old(self).schedule_dropped,
            !old(self).scheduling,
        ensures
            final(self).wf(),
            final(self).advances(old(self)),
            destroy <==> old(self).references == 1,
            destroy ==> final(self).inert(),
            *final(self) == (RawTask {
                references: (old(self).references - 1) as u64,
                holders: Ghost((Holders { registry: false, ..old(self).holders@ })),
                ..*old(self)
            }),
    {
        self.references = self.references - 1;
        self.holders = Ghost(Holders { registry: false, ..self.holders@ });
        self.references == 0
    }

    /// What dropping a waker comes to.
    pub open spec fn drop_waker_step(&self, local: bool, accepts_foreign: bool) -> DropWakerStep {
        if self.references == 1 {
            DropWakerStep::Destroy
        } else if self.references == 2 && self.active && accepts_foreign {
            if local {
                DropWakerStep::Cleanup
            } else {
                DropWakerStep::QueueCleanup
            }
        } else {
            DropWakerStep::Dropped
        }
    }

    /// Drops a waker. A future nobody can wake any more is abandoned, and the
    /// last waker to go arranges for the owner to clean it up: it keeps its
    /// reference meanwhile, so the task is still there when the owner comes.
    ///
    /// One call is one atomic step. With references counted by several
    /// threads, a caller that lost a race for the count takes the step again.
    pub fn drop_waker(&mut self, local: bool, accepts_foreign: bool) -> (step: DropWakerStep)
        requires
            old(self).wf(),
            old(self).holders@.wakers > 0,
        ensures
            final(self).wf(),
            final(self).advances(old(self)),
            step == old(self).drop_waker_step(local, accepts_foreign),
            step is Destroy ==> final(self).references == 0 && final(self).inert(),
            *final(self) == (if step is Destroy || step is Dropped {
                RawTask {
                    references: (old(self).references - 1) as u64,
                    holders: Ghost(
                        (Holders {
                            wakers: (old(self).holders@.wakers - 1) as nat,
                            ..old(self).holders@
                        }),
                    ),
                    ..*old(self)
                }
            } else {
                *old(self)
            }),
    {
        if self.references == 1 {
            self.release();
            return DropWakerStep::Destroy;
        }
        if self.references == 2 && self.active && accepts_foreign {
            if !local {
                return DropWakerStep::QueueCleanup;
            }
            return DropWakerStep::Cleanup;
        }
        self.release();
        DropWakerStep::Dropped
    }

    /// What a clean-up notification comes to.
    pub open spec fn cleanup_step(&self, local: bool) -> CleanupStep {
        if !self.active {
            CleanupStep::Nothing
        } else if !local {
            CleanupStep::QueueForeign
        } else if !self.handle && !self.scheduled && !self.running && self.references == 2 {
            CleanupStep::Cancel(self.cancel_step())
        } else {
            CleanupStep::Nothing
        }
    }

    /// A last-drop notification schedules cancellation without polling again.
    /// Destruction runs through the scheduler so it has a task queue context
    /// and does not reenter reactor resources borrowed by the waker's caller.
    pub fn do_cleanup(&mut self, local: bool) -> (step: CleanupStep)
        requires
            old(self).wf(),
            old(self).has_room(),
        ensures
            final(self).wf(),
            final(self).advances(old(self)),
            step == old(self).cleanup_step(local),
            *final(self) == (match step {
                CleanupStep::Nothing => *old(self),
                CleanupStep::QueueForeign => RawTask {
                    references: (old(self).references + 1) as u64,
                    holders: Ghost(
                        (Holders { wakers: old(self).holders@.wakers + 1, ..old(self).holders@ }),
                    ),
                    ..*old(self)
                },
                CleanupStep::Cancel(_) => old(self).cancelled(),
            }),
    {
        if !self.active {
            return CleanupStep::Nothing;
        }
        if !local {
            self.clone_waker();
            return CleanupStep::QueueForeign;
        }
        if !self.handle && !self.scheduled && !self.running && self.references == 2 {
            return CleanupStep::Cancel(self.cancel());
        }
        CleanupStep::Nothing
    }

    /// Hands a runnable to the schedule function. The registry's reference
    /// protects the function until [`RawTask::schedule_returned`], including
    /// when it runs or drops the task before it returns.
    pub fn schedule_owned(&mut self) -> (step: ScheduleStep)
        requires
            old(self).wf(),
            old(self).holders@.runnable,
            old(self).schedule_dropped ==> !old(self).scheduled,
        ensures
            final(self).wf(),
            final(self).advances(old(self)),
            step == if old(self).schedule_dropped {
                ScheduleStep::Released { destroy: old(self).references == 1 }
            } else {
                ScheduleStep::Call { was_scheduling: old(self).scheduling }
            },
            step matches ScheduleStep::Released { destroy } ==> (destroy ==> final(self).inert()),
            *final(self) == (if old(self).schedule_dropped {
                RawTask {
                    references: (old(self).references - 1) as u64,
                    holders: Ghost((Holders { runnable: false, ..old(self).holders@ })),
                    ..*old(self)
                }
            } else {
                RawTask { scheduling: true, ..*old(self) }
            }),
    {
        if self.schedule_dropped {
            return ScheduleStep::Released { destroy: self.release_runnable() };
        }
        let was_scheduling: bool = self.scheduling;
        self.scheduling = true;
        ScheduleStep::Call { was_scheduling }
    }

    /// The schedule function returned. Recursive calls keep the task marked
    /// until the outermost returns; then the owner may clean up.
    pub fn schedule_returned(&mut self, was_scheduling: bool)
        requires
            old(self).wf(),
            old(self).scheduling,
            !old(self).schedule_dropped,
        ensures
            final(self).wf(),
            final(self).advances(old(self)),
            *final(self) == (RawTask { scheduling: was_scheduling, ..*old(self) }),
    {
        self.scheduling = was_scheduling;
    }

    /// Whether everything is in place for the owner to clean up.
    pub open spec fn cleanable(&self) -> bool {
        !self.schedule_dropped && self.future_dropped && !self.running && !self.scheduling
    }

    /// Begins to release what only the owner may: says whether the schedule
    /// function is to be dropped now. The registry protects all callbacks.
    pub fn cleanup_owner(&mut self) -> (clean: bool)
        requires
            old(self).wf(),
        ensures
            final(self).wf(),
            final(self).advances(old(self)),
            clean <==> old(self).cleanable(),
            *final(self) == (if clean {
                RawTask { active: false, scheduling: true, schedule_dropped: true, ..*old(self) }
            } else {
                *old(self)
            }),
    {
        if self.schedule_dropped || !self.future_dropped || self.running || self.scheduling {
            return false;
        }
        self.active = false;
        self.scheduling = true;
        self.schedule_dropped = true;
        true
    }

    /// Whether somebody waits, who is then to be notified.
    pub fn take_awaiter(&mut self) -> (notify: bool)
        requires
            old(self).wf(),
        ensures
            final(self).wf(),
            final(self).advances(old(self)),
            notify == old(self).awaiter,
            *final(self) == (RawTask { awaiter: false, ..*old(self) }),
    {
        let notify: bool = self.awaiter;
        self.awaiter = false;
        notify
    }

    /// The schedule function is dropped and who waited is notified. Says
    /// whether the task is still to be taken off the registry's list. The
    /// registry's reference can be given up after that.
    pub fn cleanup_owner_done(&mut self) -> (unlink: bool)
        requires
            old(self).wf(),
            old(self).schedule_dropped,
            old(self).scheduling,
            !old(self).awaiter,
        ensures
            final(self).wf(),
            final(self).advances(old(self)),
            unlink == old(self).linked,
            *final(self) == (RawTask { scheduling: false, linked: false, ..*old(self) }),
            final(self).holders@.registry,
    {
        self.scheduling = false;
        let unlink: bool = self.linked;
        self.linked = false;
        unlink
    }

    /// What closing comes to.
    pub open spec fn close_step(&self) -> CloseStep {
        if self.running {
            CloseStep::Busy
        } else if !self.future_dropped {
            CloseStep::DropFuture
        } else {
            CloseStep::Settled { notify: self.awaiter }
        }
    }

    /// Cancels without polling. The task counts as running while its future's
    /// destructor executes, so what that does to the task is deferred.
    pub fn close(&mut self) -> (step: CloseStep)
        requires
            old(self).wf(),
        ensures
            final(self).wf(),
            final(self).advances(old(self)),
            step == old(self).close_step(),
            *final(self) == (match step {
                CloseStep::Busy => RawTask { closed: true, active: false, ..*old(self) },
                CloseStep::DropFuture => RawTask {
                    closed: true,
                    active: false,
                    scheduled: false,
                    running: true,
                    future_dropped: true,
                    ..*old(self)
                },
                CloseStep::Settled { .. } => RawTask {
                    closed: true,
                    active: false,
                    scheduled: false,
                    awaiter: false,
                    ..*old(self)
                },
            }),
    {
        self.closed = true;
        self.active = false;
        if self.running {
            return CloseStep::Busy;
        }
        self.scheduled = false;
        if !self.future_dropped {
            self.running = true;
            self.future_dropped = true;
            return CloseStep::DropFuture;
        }
        let notify: bool = self.awaiter;
        self.awaiter = false;
        CloseStep::Settled { notify }
    }

    /// The future's destructor returned. Says whether to notify who waits.
    pub fn future_is_dropped(&mut self) -> (notify: bool)
        requires
            old(self).wf(),
            old(self).running,
            old(self).closed,
            old(self).future_dropped,
        ensures
            final(self).wf(),
            final(self).advances(old(self)),
            notify == old(self).awaiter,
            *final(self) == (RawTask { running: false, scheduled: false, awaiter: false, ..*old(self) }),
    {
        self.running = false;
        self.scheduled = false;
        let notify: bool = self.awaiter;
        self.awaiter = false;
        notify
    }

    /// What cancelling comes to.
    pub open spec fn cancel_step(&self) -> CancelStep {
        if self.completed || self.closed {
            CancelStep::Ignored
        } else if self.scheduled || self.running {
            CancelStep::Notify
        } else {
            CancelStep::Schedule
        }
    }

    /// The task once it is cancelled.
    pub open spec fn cancelled(&self) -> Self {
        match self.cancel_step() {
            CancelStep::Ignored => *self,
            CancelStep::Notify => RawTask { closed: true, active: false, ..*self },
            CancelStep::Schedule => RawTask {
                closed: true,
                active: false,
                scheduled: true,
                references: (self.references + 1) as u64,
                holders: Ghost((Holders { runnable: true, ..self.holders@ })),
                ..*self
            },
        }
    }

    /// Cancels the task. If it has already completed, this has no effect.
    /// Its future will not be polled again.
    pub fn cancel(&mut self) -> (step: CancelStep)
        requires
            old(self).wf(),
            old(self).has_room(),
        ensures
            final(self).wf(),
            final(self).advances(old(self)),
            step == old(self).cancel_step(),
            *final(self) == old(self).cancelled(),
    {
        if self.completed || self.closed {
            return CancelStep::Ignored;
        }
        self.closed = true;
        self.active = false;
        if self.scheduled || self.running {
            return CancelStep::Notify;
        }
        self.scheduled = true;
        self.references = self.references + 1;
        self.holders = Ghost(Holders { runnable: true, ..self.holders@ });
        CancelStep::Schedule
    }

    /// Drops the join handle and any unread output. Its reference now stands
    /// for a waker's, to be dropped as one.
    pub fn drop_handle(&mut self) -> (step: HandleStep<R>)
        requires
            old(self).wf(),
            old(self).handle,
        ensures
            final(self).wf(),
            final(self).advances(old(self)),
            match step {
                HandleStep::Destroy(output) => output == old(self).output && old(self).schedule_dropped
                    && old(self).references == 1 && final(self).inert() && *final(self) == (RawTask {
                    handle: false,
                    output: None,
                    closed: old(self).closed || old(self).output is Some,
                    references: 0,
                    ..*old(self)
                }),
                HandleStep::Continue(output) => output == old(self).output && !(
                old(self).schedule_dropped && old(self).references == 1) && *final(self) == (RawTask {
                    handle: false,
                    output: None,
                    closed: old(self).closed || old(self).output is Some,
                    holders: Ghost(
                        (Holders { wakers: old(self).holders@.wakers + 1, ..old(self).holders@ }),
                    ),
                    ..*old(self)
                }),
            },
    {
        self.handle = false;
        let mut output: Option<R> = None;
        core::mem::swap(&mut self.output, &mut output);
        if output.is_some() {
            self.closed = true;
        }
        self.holders = Ghost(Holders { wakers: self.holders@.wakers + 1, ..self.holders@ });
        if self.schedule_dropped && self.references == 1 {
            self.release();
            HandleStep::Destroy(output)
        } else {
            HandleStep::Continue(output)
        }
    }

    /// After the join handle is gone and the owner has cleaned up what it
    /// could: a future that only the registry and this reference keep is
    /// abandoned and cancelled.
    pub fn drop_handle_abandons(&mut self) -> (step: CancelStep)
        requires
            old(self).wf(),
            old(self).has_room(),
        ensures
            final(self).wf(),
            final(self).advances(old(self)),
            ({
                let abandoned = !old(self).scheduled && !old(self).running && !old(self).closed && !old(
                    self,
                ).completed && old(self).references == 2;
                &&& step == if abandoned {
                    CancelStep::Schedule
                } else {
                    CancelStep::Ignored
                }
                &&& *final(self) == if abandoned {
                    old(self).cancelled()
                } else {
                    *old(self)
                }
            }),
    {
        if !self.scheduled && !self.running && !self.closed && !self.completed && self.references == 2 {
            self.cancel()
        } else {
            CancelStep::Ignored
        }
    }

    /// Takes the task off the registry's list before its destructors are
    /// invoked, and keeps it until the shutdown is done with it: the registry
    /// may own the only other reference.
    pub fn shutdown(&mut self)
        requires
            old(self).wf(),
            old(self).has_room(),
            old(self).linked,
        ensures
            final(self).wf(),
            final(self).advances(old(self)),
            *final(self) == (RawTask {
                linked: false,
                references: (old(self).references + 1) as u64,
                holders: Ghost((Holders { wakers: old(self).holders@.wakers + 1, ..old(self).holders@ })),
                ..*old(self)
            }),
    {
        self.clone_waker();
        self.linked = false;
    }

    /// What running comes to.
    pub open spec fn run_step(&self) -> RunStep {
        if self.closed || self.completed {
            RunStep::DropTask
        } else {
            RunStep::Poll
        }
    }

    /// Takes up a runnable. A task that is over is not polled.
    pub fn run(&mut self) -> (step: RunStep)
        requires
            old(self).wf(),
            old(self).holders@.runnable,
            !old(self).closed && !old(self).completed ==> !old(self).running,
        ensures
            final(self).wf(),
            final(self).advances(old(self)),
            step == old(self).run_step(),
            step is Poll ==> !old(self).future_dropped,
            *final(self) == (match step {
                RunStep::DropTask => *old(self),
                RunStep::Poll => RawTask { scheduled: false, running: true, ..*old(self) },
            }),
    {
        if self.closed || self.completed {
            return RunStep::DropTask;
        }
        self.scheduled = false;
        self.running = true;
        RunStep::Poll
    }

    /// The future is ready and is to be dropped before its output is stored.
    pub fn poll_ready(&mut self)
        requires
            old(self).wf(),
            old(self).running,
            !old(self).future_dropped,
        ensures
            final(self).wf(),
            final(self).advances(old(self)),
            *final(self) == (RawTask { active: false, future_dropped: true, ..*old(self) }),
    {
        self.active = false;
        self.future_dropped = true;
    }

    /// Stores the output, or hands it back to be dropped when nobody is going
    /// to read it.
    pub fn store_output(&mut self, output: R) -> (unread: Option<R>)
        requires
            old(self).wf(),
            old(self).running,
            old(self).future_dropped,
            !old(self).completed,
            !old(self).active,
        ensures
            final(self).wf(),
            final(self).advances(old(self)),
            *final(self) == (if old(self).handle && !old(self).closed {
                RawTask { scheduled: false, completed: true, output: Some(output), ..*old(self) }
            } else {
                RawTask { scheduled: false, completed: true, closed: true, ..*old(self) }
            }),
            unread == if old(self).handle && !old(self).closed {
                None
            } else {
                Some(output)
            },
    {
        self.scheduled = false;
        self.completed = true;
        if !self.handle || self.closed {
            self.closed = true;
            return Some(output);
        }
        self.output = Some(output);
        None
    }

    /// The poll that completed the task is over. Says whether to notify who
    /// waits.
    pub fn poll_completed(&mut self) -> (notify: bool)
        requires
            old(self).wf(),
            old(self).running,
            old(self).completed,
        ensures
            final(self).wf(),
            final(self).advances(old(self)),
            notify == old(self).awaiter,
            *final(self) == (RawTask { running: false, awaiter: false, ..*old(self) }),
    {
        self.running = false;
        let notify: bool = self.awaiter;
        self.awaiter = false;
        notify
    }

    /// What a poll that did not finish comes to.
    pub open spec fn pending_step(&self) -> PendingStep {
        if self.closed {
            PendingStep::DropFuture
        } else if self.scheduled {
            PendingStep::Reschedule
        } else if !self.handle && self.references == 2 {
            PendingStep::Close
        } else {
            PendingStep::Idle
        }
    }

    /// The poll did not finish the task. Unless the runnable is handed on, its
    /// reference now stands for a waker's, to be dropped as one.
    pub fn poll_pending(&mut self) -> (step: PendingStep)
        requires
            old(self).wf(),
            old(self).running,
            !old(self).future_dropped,
            old(self).holders@.runnable,
        ensures
            final(self).wf(),
            final(self).advances(old(self)),
            step == old(self).pending_step(),
            *final(self) == (match step {
                PendingStep::DropFuture => RawTask { future_dropped: true, ..*old(self) },
                PendingStep::Reschedule => RawTask { running: false, ..*old(self) },
                PendingStep::Close => RawTask {
                    running: false,
                    holders: Ghost(
                        (Holders {
                            runnable: false,
                            wakers: old(self).holders@.wakers + 1,
                            ..old(self).holders@
                        }),
                    ),
                    ..*old(self)
                },
                PendingStep::Idle => RawTask {
                    running: false,
                    holders: Ghost(
                        (Holders {
                            runnable: false,
                            wakers: old(self).holders@.wakers + 1,
                            ..old(self).holders@
                        }),
                    ),
                    ..*old(self)
                },
            }),
    {
        if self.closed {
            self.future_dropped = true;
            return PendingStep::DropFuture;
        }
        self.running = false;
        if self.scheduled {
            return PendingStep::Reschedule;
        }
        self.holders = Ghost(
            Holders { runnable: false, wakers: self.holders@.wakers + 1, ..self.holders@ },
        );
        if !self.handle && self.references == 2 {
            PendingStep::Close
        } else {
            PendingStep::Idle
        }
    }

    /// The runnable of a task that is over stands for a waker from here on, to
    /// be dropped as one.
    pub fn retire_runnable(&mut self)
        requires
            old(self).wf(),
            old(self).holders@.runnable,
            !old(self).scheduled,
            !old(self).running || old(self).closed,
        ensures
            final(self).wf(),
            final(self).advances(old(self)),
            *final(self) == (RawTask {
                holders: Ghost(
                    (Holders {
                        runnable: false,
                        wakers: old(self).holders@.wakers + 1,
                        ..old(self).holders@
                    }),
                ),
                ..*old(self)
            }),
    {
        self.holders = Ghost(
            Holders { runnable: false, wakers: self.holders@.wakers + 1, ..self.holders@ },
        );
    }

    /// The poll unwound: the task is cancelled. Says whether its future is to
    /// be dropped before [`RawTask::future_is_dropped`].
    pub fn poll_unwound(&mut self) -> (drop_future: bool)
        requires
            old(self).wf(),
            old(self).running,
        ensures
            final(self).wf(),
            final(self).advances(old(self)),
            drop_future == !old(self).future_dropped,
            *final(self) == (RawTask {
                closed: true,
                active: false,
                future_dropped: true,
                ..*old(self)
            }),
    {
        self.closed = true;
        self.active = false;
        let drop_future: bool = !self.future_dropped;
        self.future_dropped = true;
        drop_future
    }

    /// When the last reference is given up, only the inert header is left: the
    /// future, the schedule function and the output are gone, nobody waits,
    /// and no list names the task.
    pub proof fn law_freed_is_inert(&self)
        requires
            self.wf(),
            self.references == 0,
        ensures
            self.inert(),
            !self.scheduled,
            !self.running,
            !self.active,
    {
    }

    /// No wake is lost. A wake of a task that can still be polled and is not to
    /// run anyway always comes to something: from another thread, to a counted
    /// notification for the owner; from the owner's, to the running poll
    /// handing the task on when it returns, or to a runnable for the schedule
    /// function. And a notification from another thread is worth a wake from
    /// the owner's: taken there, while the notification still holds its
    /// reference, it has the task run unless it is to run anyway.
    pub proof fn law_no_wake_is_lost(&self, local: bool)
        requires
            self.wf(),
            self.active,
        ensures
            !local ==> self.wake_step(local) is QueueForeign,
            local && self.scheduled ==> self.wake_step(local) is Ignore && self.holders@.runnable,
            local && !self.scheduled && self.running ==> self.wake_step(local) is Marked,
            local && !self.scheduled && !self.running ==> self.wake_step(local) is Schedule,
            forall|notified: Self|
                notified.active && notified.wf() && notified.scheduled == self.scheduled && notified.running == self.running
                    ==> #[trigger] notified.wake_step(true) == self.wake_step(true),
    {
    }

    /// A wake during a poll is not lost either: a poll that returns without
    /// having finished hands the task on exactly where it was woken and not
    /// cancelled, and a task that was cancelled meanwhile has its future
    /// dropped instead.
    pub proof fn law_a_wake_during_a_poll_counts(&self)
        requires
            self.wf(),
            self.running,
        ensures
            self.closed ==> self.pending_step() is DropFuture,
            !self.closed && self.scheduled ==> self.pending_step() is Reschedule,
            !self.closed && !self.scheduled ==> self.pending_step() is Close || self.pending_step() is Idle,
            self.pending_step() is Close ==> !self.handle && self.references == 2,
            self.pending_step() is Idle ==> self.handle || self.references != 2,
    {
    }

    /// A runnable is polled unless the task is over, and a task that is over
    /// is not polled.
    pub proof fn law_what_can_be_polled_is(&self)
        ensures
            self.run_step() is Poll <==> !self.closed && !self.completed,
            self.run_step() is DropTask <==> self.closed || self.completed,
    {
    }

    /// A future that nobody can wake or wait for any more is not forgotten: the
    /// last waker to go keeps its reference and has the owner clean up, on
    /// whichever thread it goes, as long as the owner takes notifications; and
    /// the owner then cancels the task, which hands its runnable to the
    /// schedule function.
    pub proof fn law_the_abandoned_are_cleaned_up(&self, local: bool, accepts_foreign: bool)
        requires
            self.wf(),
            self.references == 2,
            self.active,
            !self.handle,
            !self.scheduled,
            !self.running,
        ensures
            accepts_foreign && !local ==> self.drop_waker_step(local, accepts_foreign) is QueueCleanup,
            accepts_foreign && local ==> self.drop_waker_step(local, accepts_foreign) is Cleanup,
            !accepts_foreign ==> self.drop_waker_step(local, accepts_foreign) is Dropped,
            self.cleanup_step(true) == CleanupStep::Cancel(CancelStep::Schedule),
            self.cleanup_step(false) is QueueForeign,
            self.cancelled().run_step() is DropTask,
            self.cancelled().close_step() is DropFuture,
    {
    }

    /// A waker that is not the last to go only gives up its reference, and the
    /// last reference of all frees the task.
    pub proof fn law_wakers_give_up_their_reference(&self, local: bool, accepts_foreign: bool)
        ensures
            self.drop_waker_step(local, accepts_foreign) is Destroy <==> self.references == 1,
            self.references > 2 ==> self.drop_waker_step(local, accepts_foreign) is Dropped,
            self.references != 1 && !self.active ==> self.drop_waker_step(local, accepts_foreign) is Dropped,
            self.active && self.handle ==> self.cleanup_step(true) is Nothing,
            self.active && self.references > 2 ==> self.cleanup_step(true) is Nothing,
    {
    }

    /// Cancelling ends a task that is not over and touches no other: from then
    /// on it is not polled, and there is a runnable that will drop its future,
    /// a new one where there was none.
    pub proof fn law_cancelling_ends_a_task(&self)
        requires
            self.wf(),
        ensures
            self.closed || self.completed ==> self.cancel_step() is Ignored && self.cancelled() == *self,
            !self.closed && !self.completed ==> {
                let after = self.cancelled();
                &&& after.closed && !after.active && after.run_step() is DropTask
                &&& after.holders@.runnable
                &&& after.output == self.output && after.handle == self.handle && after.awaiter == self.awaiter
                &&& after.future_dropped == self.future_dropped && after.running == self.running
                &&& self.scheduled || self.running ==> self.cancel_step() is Notify && after.references == self.references
                &&& !self.scheduled && !self.running ==> self.cancel_step() is Schedule && after.scheduled
                    && (self.references < MAX_REFERENCES ==> after.references == self.references + 1)
            },
    {
    }

    /// Closing drops the future unless it is being polled or dropped, or is
    /// gone already, in which case who waits is notified.
    pub proof fn law_closing_drops_the_future(&self)
        ensures
            self.running ==> self.close_step() is Busy,
            !self.running && !self.future_dropped ==> self.close_step() is DropFuture,
            !self.running && self.future_dropped ==> self.close_step() == (CloseStep::Settled { notify: self.awaiter }),
    {
    }

    /// The owner cleans up as soon as it may: once the future is gone and is
    /// neither being polled nor dropped, and the schedule function is not being
    /// called; and it does so once.
    pub proof fn law_cleaned_up_as_soon_as_it_may(&self)
        ensures
            self.future_dropped && !self.running && !self.scheduling && !self.schedule_dropped ==> self.cleanable(),
            !self.future_dropped || self.running || self.scheduling || self.schedule_dropped ==> !self.cleanable(),
    {
    }

    /// While the join handle is there, so is the task, and a task that
    /// completed without being cancelled keeps its output for it.
    pub proof fn law_the_handle_keeps_the_output(&self)
        requires
            self.wf(),
            self.handle,
        ensures
            self.references > 0,
            self.completed && !self.closed ==> self.output is Some,
    {
    }

    /// A cancelled task is not polled again, whatever step comes next.
    pub proof fn law_cancelled_is_not_polled(&self, later: &Self)
        requires
            self.closed,
            later.wf(),
            later.advances(self),
        ensures
            later.run_step() is DropTask,
            forall|local: bool| later.wake_step(local) is Ignore,
    {
    }

    /// A future is dropped once: no step that says to drop it can follow one
    /// that did.
    pub proof fn law_the_future_is_dropped_once(&self, later: &Self)
        requires
            self.future_dropped,
            later.advances(self),
        ensures
            !(later.close_step() is DropFuture),
            later.wf() && !later.running ==> later.run_step() is DropTask,
    {
    }

    /// A task that wakes have no effect on stays so.
    pub proof fn law_wakes_stay_ignored(&self, later: &Self, local: bool)
        requires
            !self.active,
            later.advances(self),
        ensures
            later.wake_step(local) is Ignore,
            later.cleanup_step(local) is Nothing,
    {
    }

    /// Progress is progress: steps taken one after the other only ever take a
    /// task further.
    pub proof fn law_advancing_is_transitive(&self, middle: &Self, before: &Self)
        requires
            self.advances(middle),
            middle.advances(before),
        ensures
            self.advances(before),
    {
    }
}

} // verus!
