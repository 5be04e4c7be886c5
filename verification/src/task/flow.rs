//! Carrying a task's steps through, one call at a time.
//!
//! Running, scheduling, cancelling, shutting down and dropping a task each
//! call out more than once: into the future, its destructor, the schedule
//! function or a waker. A [`Flow`] is one of these between two calls. It says
//! what to call next and is resumed when that returns. What is called may take
//! the same task through other flows meanwhile.

use super::raw::{
    CancelStep, CleanupStep, CloseStep, DropWakerStep, HandleStep, Holders, PendingStep, RawTask, RunStep, ScheduleStep, WakeStep,
};
use vstd::prelude::*;

verus! {

/// What to call next on a task's behalf.
#[derive(Debug)]
pub enum Action<R> {
    /// Poll the future.
    Poll,
    /// Drop the future.
    DropFuture,
    /// Drop the schedule function.
    DropSchedule,
    /// Drop an output that nobody is going to read.
    DropOutput(R),
    /// Hand the runnable to the schedule function.
    Schedule,
    /// Wake who waits for the task to end.
    Notify,
    /// Take the task off the registry's list.
    Unlink,
    /// Hand a clone of the waker to the owner.
    QueueWake,
    /// Hand the reference to the owner, to clean up with.
    QueueCleanup,
    /// Free the task: only the inert header is left.
    Free,
    /// Nothing: this is over. Whether the task was scheduled again.
    Return(bool),
}

/// What a call came to.
#[derive(Debug)]
pub enum Event<R> {
    /// It returned.
    Returned,
    /// The poll completed.
    Ready(R),
    /// The poll did not complete.
    Pending,
    /// It unwound. A poll, the schedule function and an output's destructor
    /// may; nothing else that is called does. The task is cleaned up before
    /// the unwinding goes on.
    Unwound,
}

/// What follows once a cancelled task was handed to the schedule function.
#[derive(Debug)]
pub enum Cancelled<R> {
    /// Nothing.
    Return,
    /// A reference is given up, and then an output dropped.
    Release(Option<R>),
    /// A reference is dropped as a waker is, and then an output dropped.
    Drop(Option<R>),
}

/// What follows once the owner has cleaned up what it could.
#[derive(Debug)]
pub enum After<R> {
    /// Nothing. Whether the task was scheduled again.
    Return(bool),
    /// The runnable is given up.
    ReleaseRunnable,
    /// A reference is given up.
    ReleaseReference,
    /// The poll's reference is given up, which may still be the runnable.
    EndRun(bool),
    /// A future that nobody is left for is cancelled, and the handle's
    /// reference dropped.
    DropHandle(Option<R>),
    /// Who waits is notified of the cancellation.
    Cancelled(Cancelled<R>),
    /// The schedule function unwound from the cancellation, and nobody is
    /// notified of it until the runnable is run or dropped.
    Abandoned(Cancelled<R>),
}

/// A flow between two calls: what to do when the call returns.
#[derive(Debug)]
pub enum Flow<R> {
    /// The future is being polled.
    Polling,
    /// The future completed and is being dropped.
    Storing(R),
    /// An output nobody is going to read is being dropped.
    Stored,
    /// The future was cancelled and is being dropped.
    Closing(After<R>),
    /// Who waited is being notified.
    Notified(After<R>),
    /// The schedule function is being dropped.
    Cleaning(After<R>),
    /// Who waited is being notified, after the schedule function was dropped.
    Cleaned(After<R>),
    /// The task is being taken off the registry's list.
    Unlinked(After<R>),
    /// The schedule function is being called. Whether it was being called
    /// before already.
    Scheduling(bool, After<R>),
    /// Who waited is being notified of a cancellation.
    CancelNotified(Cancelled<R>),
    /// The task is being freed, and then an output dropped. Whether the task
    /// was scheduled again before.
    Freed(Option<R>, bool),
    /// Nothing is left to do.
    Over,
}

/// What a flow comes to.
#[derive(Debug)]
pub struct Next<R> {
    /// What to call next.
    pub action: Action<R>,
    /// What to do when that returns.
    pub flow: Flow<R>,
}

impl<R> Cancelled<R> {
    /// How many references that stand for wakers this still holds.
    pub open spec fn owed(self) -> nat {
        match self {
            Cancelled::Return => 0,
            Cancelled::Release(_) => 1,
            Cancelled::Drop(_) => 1,
        }
    }
}

impl<R> After<R> {
    /// How many references that stand for wakers this still holds.
    pub open spec fn owed(self) -> nat {
        match self {
            After::Return(_) => 0,
            After::ReleaseRunnable => 0,
            After::ReleaseReference => 1,
            After::EndRun(runnable) => if runnable {
                0
            } else {
                1
            },
            After::DropHandle(_) => 1,
            After::Cancelled(rest) => rest.owed(),
            After::Abandoned(rest) => rest.owed(),
        }
    }

    /// What still follows when the schedule function unwinds: everything that
    /// gives something up, but nobody is notified of a cancellation.
    pub open spec fn unwound(self) -> After<R> {
        match self {
            After::Cancelled(rest) => After::Abandoned(rest),
            after => after,
        }
    }

    /// This still holds the runnable.
    pub open spec fn owes_runnable(self) -> bool {
        match self {
            After::ReleaseRunnable => true,
            After::EndRun(runnable) => runnable,
            _ => false,
        }
    }

    /// What it holds is there to be given up.
    pub open spec fn held(self, task: &RawTask<R>) -> bool {
        &&& self.owes_runnable() ==> task.holders@.runnable
        &&& self.owed() <= task.holders@.wakers
    }

    /// The task is over where the runnable is to be given up.
    pub open spec fn settled(self, task: &RawTask<R>) -> bool {
        &&& self.held(task)
        &&& self.owes_runnable() ==> !task.scheduled && (task.closed || task.completed) && (!task.running || task.closed)
    }
}

impl<R> Flow<R> {
    /// What is to follow, in the end.
    pub open spec fn after(self) -> After<R> {
        match self {
            Flow::Polling => After::EndRun(true),
            Flow::Storing(_) => After::EndRun(true),
            Flow::Stored => After::EndRun(true),
            Flow::Closing(after) => after,
            Flow::Notified(after) => after,
            Flow::Cleaning(after) => after,
            Flow::Cleaned(after) => after,
            Flow::Unlinked(after) => after,
            Flow::Scheduling(_, after) => after,
            Flow::CancelNotified(rest) => After::Cancelled(rest),
            Flow::Freed(_, scheduled) => After::Return(scheduled),
            Flow::Over => After::Return(false),
        }
    }

    /// How many references that stand for wakers the flow still holds.
    pub open spec fn owed(self) -> nat {
        self.after().owed()
    }

    /// The flow still holds the runnable.
    pub open spec fn owes_runnable(self) -> bool {
        self.after().owes_runnable()
    }

    /// The task is where the flow left it, as far as that matters to it.
    pub open spec fn fits(self, task: &RawTask<R>) -> bool {
        &&& self.after().held(task)
        &&& match self {
            Flow::Polling => task.running && !task.future_dropped,
            Flow::Storing(_) => task.running && task.future_dropped && !task.completed && !task.active,
            Flow::Stored => task.running && task.completed && !task.scheduled,
            Flow::Closing(_) => task.running && task.closed && task.future_dropped,
            Flow::Notified(after) => after.settled(task),
            Flow::Cleaning(after) => after.settled(task) && task.schedule_dropped && task.scheduling,
            Flow::Cleaned(after) => after.settled(task) && task.schedule_dropped && task.scheduling && !task.awaiter,
            Flow::Unlinked(after) => after.settled(task) && task.schedule_dropped && !task.scheduling
                && task.holders@.registry,
            Flow::Scheduling(_, after) => after.settled(task) && task.scheduling && !task.schedule_dropped,
            Flow::CancelNotified(_) => true,
            Flow::Freed(_, _) => true,
            Flow::Over => true,
        }
    }
}

impl<R> Next<R> {
    /// Whether every reference is accounted for: those the flow held before
    /// and does not hold any more were given up or handed on, the runnable by
    /// handing it to the schedule function; nobody else's were touched; and
    /// the task is freed when the last of all was given up, and only then.
    pub open spec fn accounts(self, task: &RawTask<R>, before: &RawTask<R>, owed: nat, owes_runnable: bool) -> bool {
        &&& self.flow.fits(task)
        &&& task.holders@.wakers - self.flow.owed() == before.holders@.wakers - owed
        &&& owes_runnable ==> task.holders@.runnable == (self.flow.owes_runnable() || self.action is Schedule)
        &&& !owes_runnable ==> !self.flow.owes_runnable() && task.holders@.runnable == (before.holders@.runnable
            || self.action is Schedule)
        &&& task.holders@.registry ==> before.holders@.registry
        &&& self.action is Free <==> task.references == 0 && before.references > 0
        &&& self.action is Free ==> task.inert()
    }

    /// Neither is the future polled nor anything handed to the owner.
    pub open spec fn goes_on(self) -> bool {
        !(self.action is Poll) && !(self.action is QueueWake) && !(self.action is QueueCleanup)
    }

    /// Whether what is called agrees with what was done to the task: nothing
    /// is dropped, notified or unlinked twice, and nothing is polled that is
    /// over.
    pub open spec fn agrees(self, task: &RawTask<R>, before: &RawTask<R>) -> bool {
        &&& self.action is Poll ==> task.running && !task.closed && !task.completed && !task.future_dropped
        &&& (self.action is DropFuture <==> task.future_dropped && !before.future_dropped)
        &&& (self.action is DropSchedule <==> task.schedule_dropped && !before.schedule_dropped)
        &&& self.action is Notify ==> before.awaiter && !task.awaiter
        &&& self.action is Unlink ==> before.linked && !task.linked
        &&& self.action is Schedule ==> task.scheduling && !task.schedule_dropped
        &&& self.flow is Over <==> self.action is Return || self.action is QueueWake || self.action is QueueCleanup
    }
}

/// Calls that are being made on the task's behalf are not interfered with: a
/// poll or a destructor that runs still runs, a schedule function that is
/// being called or dropped still is, and a task that is over is not scheduled.
pub open spec fn undisturbed<R>(task: &RawTask<R>, before: &RawTask<R>) -> bool {
    &&& before.running ==> task.running && task.future_dropped == before.future_dropped && task.completed
        == before.completed
    &&& before.scheduling ==> task.scheduling && task.schedule_dropped == before.schedule_dropped
    &&& (before.closed || before.completed) && !before.scheduled ==> !task.scheduled
    &&& before.schedule_dropped && !before.awaiter ==> !task.awaiter
}

/// A flow between two calls still fits the task after it was taken through
/// other flows meanwhile, as long as these did not interfere with the call
/// and gave up no reference of the flow's.
pub proof fn law_flows_nest<R>(flow: Flow<R>, before: &RawTask<R>, task: &RawTask<R>)
    requires
        flow.fits(before),
        before.wf(),
        task.wf(),
        task.advances(before),
        undisturbed(task, before),
        flow.after().held(task),
        flow is Unlinked ==> task.holders@.registry && !task.scheduling,
        flow.owes_runnable() && !before.running ==> !task.running,
    ensures
        flow.fits(task),
{
}

/// What ends a flow.
pub open spec fn spec_over<R>(scheduled: bool) -> Next<R> {
    Next { action: Action::Return(scheduled), flow: Flow::Over }
}

/// What ends a flow whose task is freed, or that has only an output left to
/// drop.
pub open spec fn spec_freed<R>(output: Option<R>, scheduled: bool) -> Next<R> {
    match output {
        Some(output) => Next { action: Action::DropOutput(output), flow: Flow::Freed(None, scheduled) },
        None => spec_over(scheduled),
    }
}

/// What ends a flow that held a reference until now.
pub open spec fn spec_released<R>(destroy: bool, output: Option<R>) -> Next<R> {
    if destroy {
        Next { action: Action::Free, flow: Flow::Freed(output, false) }
    } else {
        spec_freed(output, false)
    }
}

/// The task without a reference that stood for a waker.
pub open spec fn without_waker<R>(task: RawTask<R>) -> RawTask<R> {
    RawTask {
        references: (task.references - 1) as u64,
        holders: Ghost(Holders { wakers: (task.holders@.wakers - 1) as nat, ..task.holders@ }),
        ..task
    }
}

/// The task without its runnable.
pub open spec fn without_runnable<R>(task: RawTask<R>) -> RawTask<R> {
    RawTask {
        references: (task.references - 1) as u64,
        holders: Ghost(Holders { runnable: false, ..task.holders@ }),
        ..task
    }
}

/// The task without the registry's reference.
pub open spec fn without_registry<R>(task: RawTask<R>) -> RawTask<R> {
    RawTask {
        references: (task.references - 1) as u64,
        holders: Ghost(Holders { registry: false, ..task.holders@ }),
        ..task
    }
}

/// The task whose runnable stands for a waker.
pub open spec fn retired<R>(task: RawTask<R>) -> RawTask<R> {
    RawTask {
        holders: Ghost(Holders { runnable: false, wakers: task.holders@.wakers + 1, ..task.holders@ }),
        ..task
    }
}

/// A runnable goes to the schedule function.
pub open spec fn handed_over<R>(task: RawTask<R>, after: After<R>) -> (RawTask<R>, Next<R>) {
    (
        RawTask { scheduling: true, ..task },
        Next { action: Action::Schedule, flow: Flow::Scheduling(task.scheduling, after) },
    )
}

/// The owner drops a reference as a waker is dropped.
pub open spec fn reference_dropped<R>(task: RawTask<R>, accepts_foreign: bool, output: Option<R>) -> (RawTask<R>, Next<R>) {
    match task.drop_waker_step(true, accepts_foreign) {
        DropWakerStep::Cleanup => if task.cleanup_step(true) is Cancel {
            handed_over(task.cancelled(), After::Cancelled(Cancelled::Release(output)))
        } else {
            (without_waker(task), spec_released(false, output))
        },
        step => (without_waker(task), spec_released(step is Destroy, output)),
    }
}

/// Who waits was notified of a cancellation.
pub open spec fn cancel_ended<R>(task: RawTask<R>, accepts_foreign: bool, rest: Cancelled<R>) -> (RawTask<R>, Next<R>) {
    match rest {
        Cancelled::Return => (task, spec_over(false)),
        Cancelled::Release(output) => (without_waker(task), spec_released(task.references == 1, output)),
        Cancelled::Drop(output) => reference_dropped(task, accepts_foreign, output),
    }
}

/// A poll gives up its reference, which may still be the runnable.
pub open spec fn run_ended<R>(task: RawTask<R>, accepts_foreign: bool, runnable: bool, cleaned: bool) -> (
    RawTask<R>,
    Next<R>,
) {
    if !cleaned {
        reference_dropped(
            if runnable {
                retired(task)
            } else {
                task
            },
            accepts_foreign,
            None,
        )
    } else if runnable {
        (without_runnable(task), spec_released(task.references == 1, None))
    } else {
        (without_waker(task), spec_released(task.references == 1, None))
    }
}

/// A future that nobody is left for is cancelled, and the handle's reference
/// dropped.
pub open spec fn handle_ended<R>(task: RawTask<R>, accepts_foreign: bool, output: Option<R>) -> (RawTask<R>, Next<R>) {
    if !task.scheduled && !task.running && !task.closed && !task.completed && task.references == 2 {
        handed_over(task.cancelled(), After::Cancelled(Cancelled::Drop(output)))
    } else {
        reference_dropped(task, accepts_foreign, output)
    }
}

/// The owner has cleaned up what it could.
pub open spec fn ended<R>(task: RawTask<R>, accepts_foreign: bool, after: After<R>, cleaned: bool) -> (
    RawTask<R>,
    Next<R>,
) {
    let left = if cleaned {
        without_registry(task)
    } else {
        task
    };
    match after {
        After::Return(scheduled) => (
            left,
            if cleaned && left.references == 0 {
                Next { action: Action::Free, flow: Flow::Freed(None, scheduled) }
            } else {
                spec_over(scheduled)
            },
        ),
        After::ReleaseRunnable => (without_runnable(left), spec_released(left.references == 1, None)),
        After::ReleaseReference => (without_waker(left), spec_released(left.references == 1, None)),
        After::EndRun(runnable) => run_ended(left, accepts_foreign, runnable, cleaned),
        After::DropHandle(output) => handle_ended(left, accepts_foreign, output),
        After::Cancelled(rest) => if cleaned && left.references == 0 {
            (left, spec_released(true, None))
        } else if left.awaiter {
            (
                RawTask { awaiter: false, ..left },
                Next { action: Action::Notify, flow: Flow::CancelNotified(rest) },
            )
        } else {
            cancel_ended(left, accepts_foreign, rest)
        },
        After::Abandoned(rest) => if cleaned && left.references == 0 {
            (left, spec_released(true, None))
        } else {
            cancel_ended(left, accepts_foreign, rest)
        },
    }
}

/// The owner cleans up, if everything is in place for that.
pub open spec fn finished<R>(task: RawTask<R>, accepts_foreign: bool, after: After<R>) -> (RawTask<R>, Next<R>) {
    if task.cleanable() {
        (
            RawTask { active: false, scheduling: true, schedule_dropped: true, ..task },
            Next { action: Action::DropSchedule, flow: Flow::Cleaning(after) },
        )
    } else {
        ended(task, accepts_foreign, after, false)
    }
}

/// The schedule function is dropped and who waited is notified.
pub open spec fn unlinked<R>(task: RawTask<R>, accepts_foreign: bool, after: After<R>) -> (RawTask<R>, Next<R>) {
    let left = RawTask { scheduling: false, linked: false, ..task };
    if task.linked {
        (left, Next { action: Action::Unlink, flow: Flow::Unlinked(after) })
    } else {
        ended(left, accepts_foreign, after, true)
    }
}

/// The task is cancelled without being polled.
pub open spec fn closed_then<R>(task: RawTask<R>, accepts_foreign: bool, after: After<R>) -> (RawTask<R>, Next<R>) {
    match task.close_step() {
        CloseStep::Busy => finished(RawTask { closed: true, active: false, ..task }, accepts_foreign, after),
        CloseStep::DropFuture => (
            RawTask {
                closed: true,
                active: false,
                scheduled: false,
                running: true,
                future_dropped: true,
                ..task
            },
            Next { action: Action::DropFuture, flow: Flow::Closing(after) },
        ),
        CloseStep::Settled { notify } => {
            let left = RawTask { closed: true, active: false, scheduled: false, awaiter: false, ..task };
            if notify {
                (left, Next { action: Action::Notify, flow: Flow::Notified(after) })
            } else {
                finished(left, accepts_foreign, after)
            }
        },
    }
}

/// A poll is over.
pub open spec fn poll_over<R>(task: RawTask<R>, accepts_foreign: bool, event: Event<R>) -> (RawTask<R>, Next<R>) {
    match event {
        Event::Ready(output) => (
            RawTask { active: false, future_dropped: true, ..task },
            Next { action: Action::DropFuture, flow: Flow::Storing(output) },
        ),
        Event::Unwound => (
            RawTask { closed: true, active: false, future_dropped: true, ..task },
            Next { action: Action::DropFuture, flow: Flow::Closing(After::ReleaseRunnable) },
        ),
        _ => match task.pending_step() {
            PendingStep::DropFuture => (
                RawTask { future_dropped: true, ..task },
                Next { action: Action::DropFuture, flow: Flow::Closing(After::EndRun(true)) },
            ),
            PendingStep::Reschedule => handed_over(RawTask { running: false, ..task }, After::Return(true)),
            PendingStep::Close => closed_then(
                retired(RawTask { running: false, ..task }),
                accepts_foreign,
                After::EndRun(false),
            ),
            PendingStep::Idle => finished(
                retired(RawTask { running: false, ..task }),
                accepts_foreign,
                After::EndRun(false),
            ),
        },
    }
}

/// The poll that completed the task is over.
pub open spec fn completion_over<R>(task: RawTask<R>, accepts_foreign: bool) -> (RawTask<R>, Next<R>) {
    let left = RawTask { running: false, awaiter: false, ..task };
    if task.awaiter {
        (left, Next { action: Action::Notify, flow: Flow::Notified(After::EndRun(true)) })
    } else {
        finished(left, accepts_foreign, After::EndRun(true))
    }
}

/// The destructor of an output that nobody is going to read unwound from the
/// poll that completed the task.
pub open spec fn completion_unwound<R>(task: RawTask<R>, accepts_foreign: bool) -> (RawTask<R>, Next<R>) {
    let left = RawTask {
        closed: true,
        active: false,
        future_dropped: true,
        running: false,
        scheduled: false,
        awaiter: false,
        ..task
    };
    if task.awaiter {
        (left, Next { action: Action::Notify, flow: Flow::Notified(After::ReleaseRunnable) })
    } else {
        finished(left, accepts_foreign, After::ReleaseRunnable)
    }
}

/// Where a flow goes, once what it called has returned.
pub open spec fn resumed<R>(task: RawTask<R>, accepts_foreign: bool, flow: Flow<R>, event: Event<R>) -> (
    RawTask<R>,
    Next<R>,
) {
    match flow {
        Flow::Polling => poll_over(task, accepts_foreign, event),
        Flow::Storing(output) => if task.handle && !task.closed {
            completion_over(
                RawTask { scheduled: false, completed: true, output: Some(output), ..task },
                accepts_foreign,
            )
        } else {
            (
                RawTask { scheduled: false, completed: true, closed: true, ..task },
                Next { action: Action::DropOutput(output), flow: Flow::Stored },
            )
        },
        Flow::Stored => if event is Unwound {
            completion_unwound(task, accepts_foreign)
        } else {
            completion_over(task, accepts_foreign)
        },
        Flow::Closing(after) => {
            let left = RawTask { running: false, scheduled: false, awaiter: false, ..task };
            if task.awaiter {
                (left, Next { action: Action::Notify, flow: Flow::Notified(after) })
            } else {
                finished(left, accepts_foreign, after)
            }
        },
        Flow::Notified(after) => finished(task, accepts_foreign, after),
        Flow::Cleaning(after) => if task.awaiter {
            (
                RawTask { awaiter: false, ..task },
                Next { action: Action::Notify, flow: Flow::Cleaned(after) },
            )
        } else {
            unlinked(task, accepts_foreign, after)
        },
        Flow::Cleaned(after) => unlinked(task, accepts_foreign, after),
        Flow::Unlinked(after) => ended(task, accepts_foreign, after, true),
        Flow::Scheduling(was_scheduling, after) => finished(
            RawTask { scheduling: was_scheduling, ..task },
            accepts_foreign,
            if event is Unwound {
                after.unwound()
            } else {
                after
            },
        ),
        Flow::CancelNotified(rest) => cancel_ended(task, accepts_foreign, rest),
        Flow::Freed(output, scheduled) => (task, spec_freed(output, scheduled)),
        Flow::Over => (task, spec_over(false)),
    }
}

/// A schedule function that unwinds leaves the task as one that returns does:
/// it counts as being called as much as it did before, what can be cleaned up
/// is, and every reference the flow holds is given up. All that is left out is
/// that somebody is notified of a cancellation.
pub proof fn law_schedule_may_unwind<R>(
    task: RawTask<R>,
    accepts_foreign: bool,
    was_scheduling: bool,
    after: After<R>,
)
    ensures
        ({
            let flow = Flow::Scheduling(was_scheduling, after);
            let left = RawTask { scheduling: was_scheduling, ..task };
            let unwound = resumed(task, accepts_foreign, flow, Event::Unwound);
            &&& unwound == finished(left, accepts_foreign, after.unwound())
            &&& after.unwound().owed() == after.owed()
            &&& after.unwound().owes_runnable() == after.owes_runnable()
            &&& !(after is Cancelled) ==> unwound == resumed(task, accepts_foreign, flow, Event::Returned)
            &&& left.cleanable() ==> unwound.1.action is DropSchedule && unwound.0.schedule_dropped
        }),
{
}

/// An output's destructor that unwinds from the poll that completed the task
/// leaves the task over: closed and completed, without its future and not to be
/// run again. Who waits is notified, and then, or at once where nobody waits,
/// the schedule function is dropped unless it is being called; the runnable is
/// still to be given up, or was.
pub proof fn law_output_may_unwind<R>(task: RawTask<R>, accepts_foreign: bool)
    requires
        task.wf(),
        Flow::<R>::Stored.fits(&task),
    ensures
        ({
            let (left, next) = resumed(task, accepts_foreign, Flow::Stored, Event::Unwound);
            &&& left.closed && left.completed && left.future_dropped
            &&& !left.running && !left.scheduled && !left.active && !left.awaiter
            &&& task.awaiter ==> next.action is Notify && next.flow == Flow::<R>::Notified(After::ReleaseRunnable)
            &&& !task.awaiter && !task.scheduling ==> next.action is DropSchedule && next.flow == Flow::<R>::Cleaning(
                After::ReleaseRunnable,
            )
            &&& !task.awaiter && task.scheduling ==> !left.holders@.runnable
        }),
{
}

/// What running a task is answered with, given what is still to follow:
/// whether the task was scheduled again.
pub open spec fn answer<R>(after: After<R>) -> bool {
    match after {
        After::Return(scheduled) => scheduled,
        _ => false,
    }
}

/// A poll is over that did not complete, and the task was woken meanwhile and
/// not cancelled.
pub open spec fn reschedules<R>(task: RawTask<R>, flow: Flow<R>, event: Event<R>) -> bool {
    flow is Polling && !(event is Ready) && !(event is Unwound) && task.pending_step() is Reschedule
}

/// What a flow comes to next gives this answer, or leaves it to be given.
spec fn stands<R>(next: Next<R>, after: After<R>) -> bool {
    &&& next.flow is Over ==> next.action == Action::<R>::Return(answer(after))
    &&& !(next.flow is Over) ==> answer(next.flow.after()) == answer(after)
    &&& after is Return && !(next.flow is Over) ==> next.flow.after() == after
}

proof fn lemma_stands_when_dropped<R>(task: RawTask<R>, accepts_foreign: bool, output: Option<R>, after: After<R>)
    requires
        !(after is Return),
    ensures
        stands(reference_dropped(task, accepts_foreign, output).1, after),
{
}

proof fn lemma_stands_when_ended<R>(task: RawTask<R>, accepts_foreign: bool, after: After<R>, cleaned: bool)
    ensures
        stands(ended(task, accepts_foreign, after, cleaned).1, after),
{
    let left = if cleaned {
        without_registry(task)
    } else {
        task
    };
    match after {
        After::EndRun(runnable) => {
            let kept = if runnable {
                retired(left)
            } else {
                left
            };
            lemma_stands_when_dropped(kept, accepts_foreign, None, after);
        },
        After::DropHandle(output) => {
            lemma_stands_when_dropped(left, accepts_foreign, output, after);
        },
        After::Cancelled(Cancelled::Drop(output)) => {
            lemma_stands_when_dropped(left, accepts_foreign, output, after);
        },
        After::Abandoned(Cancelled::Drop(output)) => {
            lemma_stands_when_dropped(left, accepts_foreign, output, after);
        },
        _ => {},
    }
}

proof fn lemma_stands_when_finished<R>(task: RawTask<R>, accepts_foreign: bool, after: After<R>)
    ensures
        stands(finished(task, accepts_foreign, after).1, after),
{
    lemma_stands_when_ended(task, accepts_foreign, after, false);
}

proof fn lemma_stands_when_unlinked<R>(task: RawTask<R>, accepts_foreign: bool, after: After<R>)
    ensures
        stands(unlinked(task, accepts_foreign, after).1, after),
{
    lemma_stands_when_ended(RawTask { scheduling: false, linked: false, ..task }, accepts_foreign, after, true);
}

proof fn lemma_stands_when_closed<R>(task: RawTask<R>, accepts_foreign: bool, after: After<R>)
    ensures
        stands(closed_then(task, accepts_foreign, after).1, after),
{
    lemma_stands_when_finished(RawTask { closed: true, active: false, ..task }, accepts_foreign, after);
    lemma_stands_when_finished(
        RawTask { closed: true, active: false, scheduled: false, awaiter: false, ..task },
        accepts_foreign,
        after,
    );
}

proof fn lemma_stands_when_completed<R>(task: RawTask<R>, accepts_foreign: bool)
    ensures
        stands(completion_over(task, accepts_foreign).1, After::EndRun(true)),
{
    lemma_stands_when_finished(
        RawTask { running: false, awaiter: false, ..task },
        accepts_foreign,
        After::EndRun(true),
    );
}

proof fn lemma_stands_when_resumed<R>(task: RawTask<R>, accepts_foreign: bool, flow: Flow<R>, event: Event<R>)
    requires
        !(flow is Over),
        !(flow is Polling),
    ensures
        stands(resumed(task, accepts_foreign, flow, event).1, flow.after()),
{
    match flow {
        Flow::Storing(output) => {
            lemma_stands_when_completed(
                RawTask { scheduled: false, completed: true, output: Some(output), ..task },
                accepts_foreign,
            );
        },
        Flow::Stored => {
            lemma_stands_when_completed(task, accepts_foreign);
            lemma_stands_when_finished(
                RawTask {
                    closed: true,
                    active: false,
                    future_dropped: true,
                    running: false,
                    scheduled: false,
                    awaiter: false,
                    ..task
                },
                accepts_foreign,
                After::ReleaseRunnable,
            );
        },
        Flow::Closing(after) => {
            let left = RawTask { running: false, scheduled: false, awaiter: false, ..task };
            lemma_stands_when_finished(left, accepts_foreign, after);
        },
        Flow::Notified(after) => {
            lemma_stands_when_finished(task, accepts_foreign, after);
        },
        Flow::Cleaning(after) => {
            lemma_stands_when_unlinked(task, accepts_foreign, after);
        },
        Flow::Cleaned(after) => {
            lemma_stands_when_unlinked(task, accepts_foreign, after);
        },
        Flow::Unlinked(after) => {
            lemma_stands_when_ended(task, accepts_foreign, after, true);
        },
        Flow::Scheduling(was_scheduling, after) => {
            let left = RawTask { scheduling: was_scheduling, ..task };
            lemma_stands_when_finished(left, accepts_foreign, after);
            lemma_stands_when_finished(left, accepts_foreign, after.unwound());
        },
        Flow::CancelNotified(Cancelled::Drop(output)) => {
            lemma_stands_when_dropped(task, accepts_foreign, output, flow.after());
        },
        _ => {},
    }
}

proof fn lemma_stands_when_polled<R>(task: RawTask<R>, accepts_foreign: bool, event: Event<R>)
    ensures
        ({
            let next = poll_over(task, accepts_foreign, event).1;
            if reschedules(task, Flow::Polling, event) {
                next.action is Schedule && !(next.flow is Over) && answer(next.flow.after())
            } else {
                stands(next, After::EndRun(true))
            }
        }),
{
    let idle = retired(RawTask { running: false, ..task });
    lemma_stands_when_closed(idle, accepts_foreign, After::EndRun(false));
    lemma_stands_when_finished(idle, accepts_foreign, After::EndRun(false));
}

/// Running a task is answered with `true` exactly where the poll did not
/// complete, the task was woken meanwhile and was not cancelled, so that its
/// runnable went to the schedule function. The answer stands from there on,
/// whatever is called in between and whether or not the task is freed before
/// it is given.
pub proof fn law_the_answer_stands<R>(task: RawTask<R>, accepts_foreign: bool, flow: Flow<R>, event: Event<R>)
    requires
        !(flow is Over),
    ensures
        ({
            let next = resumed(task, accepts_foreign, flow, event).1;
            let rescheduled = reschedules(task, flow, event);
            &&& next.flow is Over ==> next.action == Action::<R>::Return(answer(flow.after())) && !rescheduled
            &&& !(next.flow is Over) ==> answer(next.flow.after()) == (rescheduled || answer(flow.after()))
            &&& rescheduled ==> next.action is Schedule
            &&& flow.after() is Return && !(next.flow is Over) ==> next.flow.after() == flow.after()
        }),
{
    if flow is Polling {
        lemma_stands_when_polled(task, accepts_foreign, event);
    } else {
        lemma_stands_when_resumed(task, accepts_foreign, flow, event);
    }
}

/// What `law_the_answer_stands` says of one step, where `hit` is whether it had
/// the task scheduled again.
spec fn carries<R>(next: Next<R>, flow: Flow<R>, hit: bool) -> bool {
    &&& next.flow is Over ==> next.action == Action::<R>::Return(answer(flow.after())) && !hit
    &&& !(next.flow is Over) ==> answer(next.flow.after()) == (hit || answer(flow.after()))
}

proof fn lemma_answer_carried<R>(nexts: Seq<Next<R>>, flows: Seq<Flow<R>>, hits: Seq<bool>)
    requires
        flows.len() > 0,
        nexts.len() == flows.len(),
        hits.len() == flows.len(),
        !answer(flows[0].after()),
        forall|i: int| 0 <= i < flows.len() ==> carries(nexts[i], #[trigger] flows[i], hits[i]),
        forall|i: int| 0 < i < flows.len() ==> !(#[trigger] flows[i] is Over) && flows[i] == nexts[i - 1].flow,
    ensures
        nexts.last().flow is Over ==> nexts.last().action == Action::<R>::Return(hits.contains(true)),
        !(nexts.last().flow is Over) ==> answer(nexts.last().flow.after()) == hits.contains(true),
    decreases flows.len(),
{
    let last = flows.len() - 1;
    assert(carries(nexts[last], flows[last], hits[last]));
    if last > 0 {
        let fewer = flows.drop_last();
        assert forall|i: int| 0 <= i < fewer.len() implies carries(
            nexts.drop_last()[i],
            #[trigger] fewer[i],
            hits.drop_last()[i],
        ) by {
            assert(carries(nexts[i], flows[i], hits[i]));
        }
        assert forall|i: int| 0 < i < fewer.len() implies !(#[trigger] fewer[i] is Over) && fewer[i]
            == nexts.drop_last()[i - 1].flow by {
            assert(flows[i] == nexts[i - 1].flow);
        }
        lemma_answer_carried(nexts.drop_last(), fewer, hits.drop_last());
        assert(nexts.drop_last().last().flow == flows[last]);
        assert(hits.contains(true) == (hits.drop_last().contains(true) || hits[last])) by {
            if hits.drop_last().contains(true) {
                let i = choose|i: int| 0 <= i < last && hits.drop_last()[i] == true;
                assert(hits[i] == true);
            }
            if hits.contains(true) {
                let i = choose|i: int| 0 <= i <= last && hits[i] == true;
                if i < last {
                    assert(hits.drop_last()[i] == true);
                }
            }
        }
    } else {
        assert(hits.contains(true) == hits[0]);
    }
}

/// A flow is answered, in the end, with whether a poll on its way had the task
/// scheduled again. Whatever other flows do to the task between the calls has
/// no bearing on that.
pub proof fn law_flows_are_answered<R>(
    tasks: Seq<RawTask<R>>,
    accepts_foreign: Seq<bool>,
    flows: Seq<Flow<R>>,
    events: Seq<Event<R>>,
    nexts: Seq<Next<R>>,
)
    requires
        flows.len() > 0,
        nexts.len() == flows.len(),
        !answer(flows[0].after()),
        forall|i: int| 0 <= i < flows.len() ==> !(#[trigger] flows[i] is Over),
        forall|i: int|
            0 <= i < flows.len() ==> #[trigger] nexts[i] == resumed(tasks[i], accepts_foreign[i], flows[i], events[i]).1,
        forall|i: int| 0 < i < flows.len() ==> #[trigger] flows[i] == nexts[i - 1].flow,
    ensures
        ({
            let scheduled = exists|i: int|
                0 <= i < flows.len() && reschedules(tasks[i], #[trigger] flows[i], events[i]);
            &&& nexts.last().flow is Over ==> nexts.last().action == Action::<R>::Return(scheduled)
            &&& !(nexts.last().flow is Over) ==> answer(nexts.last().flow.after()) == scheduled
        }),
{
    let hits = Seq::new(flows.len(), |i: int| reschedules(tasks[i], flows[i], events[i]));
    assert forall|i: int| 0 <= i < flows.len() implies carries(nexts[i], #[trigger] flows[i], hits[i]) by {
        law_the_answer_stands(tasks[i], accepts_foreign[i], flows[i], events[i]);
        assert(nexts[i] == resumed(tasks[i], accepts_foreign[i], flows[i], events[i]).1);
    }
    lemma_answer_carried(nexts, flows, hits);
    if hits.contains(true) {
        let i = choose|i: int| 0 <= i < flows.len() && hits[i] == true;
        assert(reschedules(tasks[i], flows[i], events[i]));
    }
    if exists|i: int| 0 <= i < flows.len() && reschedules(tasks[i], #[trigger] flows[i], events[i]) {
        let i = choose|i: int| 0 <= i < flows.len() && reschedules(tasks[i], #[trigger] flows[i], events[i]);
        assert(hits[i] == true);
    }
}

/// Ends a flow.
fn over<R>(scheduled: bool) -> (next: Next<R>)
    ensures
        next == spec_over::<R>(scheduled),
{
    Next { action: Action::Return(scheduled), flow: Flow::Over }
}

/// Ends a flow that held a reference until now.
fn released<R>(destroy: bool, output: Option<R>) -> (next: Next<R>)
    ensures
        next == spec_released(destroy, output),
{
    if destroy {
        return Next { action: Action::Free, flow: Flow::Freed(output, false) };
    }
    resume_freed(output, false)
}

impl<R> RawTask<R> {
    /// Drops a reference as a waker is dropped, by the owner.
    fn drop_reference(&mut self, accepts_foreign: bool, output: Option<R>) -> (next: Next<R>)
        requires
            old(self).wf(),
            old(self).has_room(),
            old(self).holders@.wakers >= 1,
        ensures
            final(self).wf(),
            final(self).advances(old(self)),
            undisturbed(final(self), old(self)),
            next.accounts(final(self), old(self), 1, false),
            next.agrees(final(self), old(self)),
            next.goes_on(),
            (*final(self), next) == reference_dropped(*old(self), accepts_foreign, output),
    {
        match self.drop_waker(true, accepts_foreign) {
            DropWakerStep::Destroy => released(true, output),
            DropWakerStep::Cleanup => {
                match self.do_cleanup(true) {
                    CleanupStep::Cancel(CancelStep::Schedule) => self.hand_over(
                        After::Cancelled(Cancelled::Release(output)),
                    ),
                    _ => {
                        let destroy: bool = self.release();
                        released(destroy, output)
                    },
                }
            },
            _ => released(false, output),
        }
    }

    /// Hands a runnable that was just counted to the schedule function.
    fn hand_over(&mut self, after: After<R>) -> (next: Next<R>)
        requires
            old(self).wf(),
            old(self).holders@.runnable,
            old(self).scheduled,
            !old(self).schedule_dropped,
            !after.owes_runnable(),
            after.held(old(self)),
        ensures
            final(self).wf(),
            final(self).advances(old(self)),
            undisturbed(final(self), old(self)),
            next.flow.fits(final(self)),
            (*final(self), next) == handed_over(*old(self), after),
    {
        match self.schedule_owned() {
            ScheduleStep::Call { was_scheduling } => Next {
                action: Action::Schedule,
                flow: Flow::Scheduling(was_scheduling, after),
            },
            ScheduleStep::Released { .. } => vstd::pervasive::unreached(),
        }
    }

    /// Notifies who waits of a cancellation, and goes on.
    fn notify_cancelled(&mut self, accepts_foreign: bool, rest: Cancelled<R>) -> (next: Next<R>)
        requires
            old(self).wf(),
            old(self).has_room(),
            rest.owed() <= old(self).holders@.wakers,
        ensures
            final(self).wf(),
            final(self).advances(old(self)),
            undisturbed(final(self), old(self)),
            next.accounts(final(self), old(self), rest.owed(), false),
            next.agrees(final(self), old(self)),
            next.goes_on(),
            (*final(self), next) == if old(self).awaiter {
                (
                    RawTask { awaiter: false, ..*old(self) },
                    Next { action: Action::Notify, flow: Flow::CancelNotified(rest) },
                )
            } else {
                cancel_ended(*old(self), accepts_foreign, rest)
            },
    {
        if self.take_awaiter() {
            return Next { action: Action::Notify, flow: Flow::CancelNotified(rest) };
        }
        self.end_cancel(accepts_foreign, rest)
    }

    /// What follows once who waits was notified of a cancellation.
    fn end_cancel(&mut self, accepts_foreign: bool, rest: Cancelled<R>) -> (next: Next<R>)
        requires
            old(self).wf(),
            old(self).has_room(),
            rest.owed() <= old(self).holders@.wakers,
        ensures
            final(self).wf(),
            final(self).advances(old(self)),
            undisturbed(final(self), old(self)),
            next.accounts(final(self), old(self), rest.owed(), false),
            next.agrees(final(self), old(self)),
            next.goes_on(),
            (*final(self), next) == cancel_ended(*old(self), accepts_foreign, rest),
    {
        match rest {
            Cancelled::Return => over(false),
            Cancelled::Release(output) => {
                let destroy: bool = self.release();
                released(destroy, output)
            },
            Cancelled::Drop(output) => self.drop_reference(accepts_foreign, output),
        }
    }

    /// Gives up the reference of a poll, which may still be the runnable.
    fn end_run(&mut self, accepts_foreign: bool, runnable: bool, cleaned: bool) -> (next: Next<R>)
        requires
            old(self).wf(),
            old(self).has_room(),
            After::<R>::EndRun(runnable).settled(old(self)),
        ensures
            final(self).wf(),
            final(self).advances(old(self)),
            undisturbed(final(self), old(self)),
            next.accounts(final(self), old(self), After::<R>::EndRun(runnable).owed(), runnable),
            next.agrees(final(self), old(self)),
            next.goes_on(),
            (*final(self), next) == run_ended(*old(self), accepts_foreign, runnable, cleaned),
    {
        if cleaned {
            let destroy: bool = if runnable {
                self.release_runnable()
            } else {
                self.release()
            };
            released(destroy, None)
        } else {
            if runnable {
                self.retire_runnable();
            }
            self.drop_reference(accepts_foreign, None)
        }
    }

    /// Cancels a future that nobody is left for, and drops the handle's
    /// reference.
    fn end_handle(&mut self, accepts_foreign: bool, output: Option<R>) -> (next: Next<R>)
        requires
            old(self).wf(),
            old(self).has_room(),
            old(self).holders@.wakers >= 1,
        ensures
            final(self).wf(),
            final(self).advances(old(self)),
            undisturbed(final(self), old(self)),
            next.accounts(final(self), old(self), 1, false),
            next.agrees(final(self), old(self)),
            next.goes_on(),
            (*final(self), next) == handle_ended(*old(self), accepts_foreign, output),
    {
        match self.drop_handle_abandons() {
            CancelStep::Schedule => self.hand_over(After::Cancelled(Cancelled::Drop(output))),
            _ => self.drop_reference(accepts_foreign, output),
        }
    }

    /// What follows once the owner has cleaned up what it could, and has given
    /// up the registry's reference if it was `cleaned` just now.
    fn end(&mut self, accepts_foreign: bool, after: After<R>, cleaned: bool) -> (next: Next<R>)
        requires
            old(self).wf(),
            old(self).has_room(),
            after.settled(old(self)),
            cleaned ==> old(self).holders@.registry && old(self).schedule_dropped && !old(self).scheduling,
        ensures
            final(self).wf(),
            final(self).advances(old(self)),
            !cleaned ==> undisturbed(final(self), old(self)),
            next.accounts(final(self), old(self), after.owed(), after.owes_runnable()),
            next.agrees(final(self), old(self)),
            next.goes_on(),
            (*final(self), next) == ended(*old(self), accepts_foreign, after, cleaned),
    {
        let destroy: bool = if cleaned {
            self.release_registry()
        } else {
            false
        };
        match after {
            After::Return(scheduled) => if destroy {
                Next { action: Action::Free, flow: Flow::Freed(None, scheduled) }
            } else {
                over(scheduled)
            },
            After::ReleaseRunnable => {
                let destroy: bool = self.release_runnable();
                released(destroy, None)
            },
            After::ReleaseReference => {
                let destroy: bool = self.release();
                released(destroy, None)
            },
            After::EndRun(runnable) => self.end_run(accepts_foreign, runnable, cleaned),
            After::DropHandle(output) => self.end_handle(accepts_foreign, output),
            After::Cancelled(rest) => if destroy {
                released(true, None)
            } else {
                self.notify_cancelled(accepts_foreign, rest)
            },
            After::Abandoned(rest) => if destroy {
                released(true, None)
            } else {
                self.end_cancel(accepts_foreign, rest)
            },
        }
    }

    /// Releases what only the owner may, if everything is in place for that,
    /// and then the registry's reference. The registry protects all callbacks;
    /// its release may free the task.
    fn finish(&mut self, accepts_foreign: bool, after: After<R>) -> (next: Next<R>)
        requires
            old(self).wf(),
            old(self).has_room(),
            after.settled(old(self)),
        ensures
            final(self).wf(),
            final(self).advances(old(self)),
            undisturbed(final(self), old(self)),
            next.accounts(final(self), old(self), after.owed(), after.owes_runnable()),
            next.agrees(final(self), old(self)),
            next.goes_on(),
            (*final(self), next) == finished(*old(self), accepts_foreign, after),
    {
        if self.cleanup_owner() {
            return Next { action: Action::DropSchedule, flow: Flow::Cleaning(after) };
        }
        self.end(accepts_foreign, after, false)
    }

    /// Who waited was notified of what the owner cleaned up: takes the task off
    /// the registry's list.
    fn unlink(&mut self, accepts_foreign: bool, after: After<R>) -> (next: Next<R>)
        requires
            old(self).wf(),
            old(self).has_room(),
            after.settled(old(self)),
            old(self).schedule_dropped,
            old(self).scheduling,
            !old(self).awaiter,
        ensures
            final(self).wf(),
            final(self).advances(old(self)),
            next.accounts(final(self), old(self), after.owed(), after.owes_runnable()),
            next.agrees(final(self), old(self)),
            next.goes_on(),
            (*final(self), next) == unlinked(*old(self), accepts_foreign, after),
    {
        if self.cleanup_owner_done() {
            return Next { action: Action::Unlink, flow: Flow::Unlinked(after) };
        }
        self.end(accepts_foreign, after, true)
    }

    /// Cancels without polling, and goes on.
    fn close_then(&mut self, accepts_foreign: bool, after: After<R>) -> (next: Next<R>)
        requires
            old(self).wf(),
            old(self).has_room(),
            after.held(old(self)),
            after.owes_runnable() ==> !(old(self).running && old(self).scheduled),
        ensures
            final(self).wf(),
            final(self).advances(old(self)),
            undisturbed(final(self), old(self)),
            final(self).closed,
            next.accounts(final(self), old(self), after.owed(), after.owes_runnable()),
            next.agrees(final(self), old(self)),
            next.goes_on(),
            (*final(self), next) == closed_then(*old(self), accepts_foreign, after),
    {
        match self.close() {
            CloseStep::Busy => self.finish(accepts_foreign, after),
            CloseStep::DropFuture => Next { action: Action::DropFuture, flow: Flow::Closing(after) },
            CloseStep::Settled { notify } => if notify {
                Next { action: Action::Notify, flow: Flow::Notified(after) }
            } else {
                self.finish(accepts_foreign, after)
            },
        }
    }

    /// Takes up a runnable: polls the future, unless the task is over.
    pub fn begin_run(&mut self, accepts_foreign: bool) -> (next: Next<R>)
        requires
            old(self).wf(),
            old(self).has_room(),
            old(self).holders@.runnable,
            old(self).running ==> !old(self).scheduled && (old(self).closed || old(self).completed),
        ensures
            final(self).wf(),
            final(self).advances(old(self)),
            undisturbed(final(self), old(self)),
            next.accounts(final(self), old(self), 0, true),
            next.agrees(final(self), old(self)),
            (*final(self), next) == if old(self).closed || old(self).completed {
                closed_then(*old(self), accepts_foreign, After::ReleaseRunnable)
            } else {
                (
                    RawTask { scheduled: false, running: true, ..*old(self) },
                    Next { action: Action::Poll, flow: Flow::Polling },
                )
            },
    {
        match self.run() {
            RunStep::Poll => Next { action: Action::Poll, flow: Flow::Polling },
            RunStep::DropTask => self.close_then(accepts_foreign, After::ReleaseRunnable),
        }
    }

    /// Drops a runnable: cancels the task.
    pub fn begin_drop_task(&mut self, accepts_foreign: bool) -> (next: Next<R>)
        requires
            old(self).wf(),
            old(self).has_room(),
            old(self).holders@.runnable,
            !(old(self).running && old(self).scheduled),
        ensures
            final(self).wf(),
            final(self).advances(old(self)),
            undisturbed(final(self), old(self)),
            final(self).closed,
            next.accounts(final(self), old(self), 0, true),
            next.agrees(final(self), old(self)),
            next.goes_on(),
            (*final(self), next) == closed_then(*old(self), accepts_foreign, After::ReleaseRunnable),
    {
        self.close_then(accepts_foreign, After::ReleaseRunnable)
    }

    /// Shuts a task down that was just taken off the registry's list, before
    /// its destructors are invoked, which can reenter executor shutdown.
    pub fn begin_shutdown(&mut self, accepts_foreign: bool) -> (next: Next<R>)
        requires
            old(self).wf(),
            old(self).references + 1 < super::raw::MAX_REFERENCES,
            old(self).linked,
        ensures
            final(self).wf(),
            final(self).advances(old(self)),
            undisturbed(final(self), old(self)),
            final(self).closed,
            !final(self).linked,
            next.accounts(final(self), old(self), 0, false),
            (*final(self), next) == closed_then(
                (RawTask {
                    linked: false,
                    references: (old(self).references + 1) as u64,
                    holders: Ghost((Holders { wakers: old(self).holders@.wakers + 1, ..old(self).holders@ })),
                    ..*old(self)
                }),
                accepts_foreign,
                After::ReleaseReference,
            ),
    {
        self.shutdown();
        self.close_then(accepts_foreign, After::ReleaseReference)
    }

    /// Hands a queued runnable to the schedule function again.
    pub fn begin_schedule(&mut self) -> (next: Next<R>)
        requires
            old(self).wf(),
            old(self).holders@.runnable,
            old(self).schedule_dropped ==> !old(self).scheduled,
        ensures
            final(self).wf(),
            final(self).advances(old(self)),
            undisturbed(final(self), old(self)),
            next.accounts(final(self), old(self), 0, true),
            next.agrees(final(self), old(self)),
            next.action is Schedule <==> !old(self).schedule_dropped,
            (*final(self), next) == if old(self).schedule_dropped {
                (without_runnable(*old(self)), spec_released(old(self).references == 1, None))
            } else {
                handed_over(*old(self), After::Return(false))
            },
    {
        match self.schedule_owned() {
            ScheduleStep::Released { destroy } => released(destroy, None),
            ScheduleStep::Call { was_scheduling } => Next {
                action: Action::Schedule,
                flow: Flow::Scheduling(was_scheduling, After::Return(false)),
            },
        }
    }

    /// Cancels a task: its future will not be polled again.
    pub fn begin_cancel(&mut self) -> (next: Next<R>)
        requires
            old(self).wf(),
            old(self).references + 1 < super::raw::MAX_REFERENCES,
        ensures
            final(self).wf(),
            final(self).advances(old(self)),
            undisturbed(final(self), old(self)),
            final(self).closed || final(self).completed,
            next.accounts(final(self), old(self), 0, false),
            next.agrees(final(self), old(self)),
            old(self).closed || old(self).completed ==> *final(self) == *old(self) && next.action == Action::<R>::Return(
                false,
            ),
            next.action is Schedule <==> old(self).cancel_step() is Schedule,
            next.action is Notify <==> old(self).cancel_step() is Notify && old(self).awaiter,
            next.flow == if next.action is Schedule {
                Flow::Scheduling(old(self).scheduling, After::Cancelled(Cancelled::<R>::Return))
            } else if next.action is Notify {
                Flow::CancelNotified(Cancelled::<R>::Return)
            } else {
                Flow::Over
            },
            *final(self) == match old(self).cancel_step() {
                CancelStep::Ignored => *old(self),
                CancelStep::Schedule => RawTask { scheduling: true, ..old(self).cancelled() },
                CancelStep::Notify => RawTask { awaiter: false, ..old(self).cancelled() },
            },
    {
        match self.cancel() {
            CancelStep::Ignored => over(false),
            CancelStep::Schedule => self.hand_over(After::Cancelled(Cancelled::Return)),
            CancelStep::Notify => if self.take_awaiter() {
                Next { action: Action::Notify, flow: Flow::CancelNotified(Cancelled::Return) }
            } else {
                over(false)
            },
        }
    }

    /// Drops the join handle, and with it an output nobody read.
    pub fn begin_drop_handle(&mut self, accepts_foreign: bool) -> (next: Next<R>)
        requires
            old(self).wf(),
            old(self).has_room(),
            old(self).handle,
        ensures
            final(self).wf(),
            final(self).advances(old(self)),
            undisturbed(final(self), old(self)),
            !final(self).handle,
            final(self).output is None,
            next.accounts(final(self), old(self), 0, false),
            next.agrees(final(self), old(self)),
            ({
                let left = RawTask {
                    handle: false,
                    output: None,
                    closed: old(self).closed || old(self).output is Some,
                    holders: Ghost((Holders { wakers: old(self).holders@.wakers + 1, ..old(self).holders@ })),
                    ..*old(self)
                };
                (*final(self), next) == if old(self).schedule_dropped && old(self).references == 1 {
                    (without_waker(left), spec_released(true, old(self).output))
                } else {
                    finished(left, accepts_foreign, After::DropHandle(old(self).output))
                }
            }),
    {
        match self.drop_handle() {
            HandleStep::Destroy(output) => released(true, output),
            HandleStep::Continue(output) => self.finish(accepts_foreign, After::DropHandle(output)),
        }
    }

    /// Wakes a task.
    pub fn begin_wake(&mut self, local: bool) -> (next: Next<R>)
        requires
            old(self).wf(),
            old(self).has_room(),
        ensures
            final(self).wf(),
            final(self).advances(old(self)),
            undisturbed(final(self), old(self)),
            next.agrees(final(self), old(self)),
            next.action == match old(self).wake_step(local) {
                WakeStep::Ignore | WakeStep::Marked => Action::<R>::Return(false),
                WakeStep::QueueForeign => Action::QueueWake,
                WakeStep::Schedule => Action::Schedule,
            },
            next.flow == if old(self).wake_step(local) is Schedule {
                Flow::Scheduling(old(self).scheduling, After::<R>::Return(false))
            } else {
                Flow::Over
            },
            next.flow.fits(final(self)),
            old(self).active && !local ==> next.action is QueueWake,
            old(self).active && local && !old(self).scheduled && !old(self).running ==> next.action is Schedule,
            old(self).active && local ==> final(self).scheduled,
            !(next.action is QueueWake) ==> next.accounts(final(self), old(self), 0, false),
            *final(self) == match old(self).wake_step(local) {
                WakeStep::Ignore => *old(self),
                WakeStep::Marked => RawTask { scheduled: true, ..*old(self) },
                WakeStep::QueueForeign => RawTask {
                    references: (old(self).references + 1) as u64,
                    holders: Ghost((Holders { wakers: old(self).holders@.wakers + 1, ..old(self).holders@ })),
                    ..*old(self)
                },
                WakeStep::Schedule => RawTask {
                    scheduled: true,
                    scheduling: true,
                    references: (old(self).references + 1) as u64,
                    holders: Ghost((Holders { runnable: true, ..old(self).holders@ })),
                    ..*old(self)
                },
            },
    {
        match self.do_wake(local) {
            WakeStep::Ignore | WakeStep::Marked => over(false),
            WakeStep::QueueForeign => Next { action: Action::QueueWake, flow: Flow::Over },
            WakeStep::Schedule => self.hand_over(After::Return(false)),
        }
    }

    /// Drops a waker. A reference handed to the owner stays counted.
    pub fn begin_drop_waker(&mut self, local: bool, accepts_foreign: bool) -> (next: Next<R>)
        requires
            old(self).wf(),
            old(self).has_room(),
            old(self).holders@.wakers >= 1,
        ensures
            final(self).wf(),
            final(self).advances(old(self)),
            undisturbed(final(self), old(self)),
            next.action is QueueCleanup <==> old(self).drop_waker_step(local, accepts_foreign) is QueueCleanup,
            next.action is QueueCleanup ==> *final(self) == *old(self) && next.flow is Over,
            !(next.action is QueueCleanup) ==> next.accounts(final(self), old(self), 1, false) && next.agrees(
                final(self),
                old(self),
            ),
            local ==> (*final(self), next) == reference_dropped(*old(self), accepts_foreign, None),
            !local && !(next.action is QueueCleanup) ==> *final(self) == without_waker(*old(self)) && next
                == spec_released::<R>(old(self).references == 1, None),
    {
        if local {
            return self.drop_reference(accepts_foreign, None);
        }
        match self.drop_waker(false, accepts_foreign) {
            DropWakerStep::Destroy => released(true, None),
            DropWakerStep::QueueCleanup => Next { action: Action::QueueCleanup, flow: Flow::Over },
            _ => over(false),
        }
    }

    /// Takes a clean-up notification: an abandoned task is cancelled without
    /// being polled again.
    pub fn begin_cleanup(&mut self, local: bool) -> (next: Next<R>)
        requires
            old(self).wf(),
            old(self).has_room(),
        ensures
            final(self).wf(),
            final(self).advances(old(self)),
            undisturbed(final(self), old(self)),
            next.flow.fits(final(self)),
            next.agrees(final(self), old(self)),
            match old(self).cleanup_step(local) {
                CleanupStep::Nothing => next == spec_over::<R>(false) && *final(self) == *old(self),
                CleanupStep::QueueForeign => next.action is QueueCleanup && next.flow is Over && *final(self) == (RawTask {
                    references: (old(self).references + 1) as u64,
                    holders: Ghost((Holders { wakers: old(self).holders@.wakers + 1, ..old(self).holders@ })),
                    ..*old(self)
                }),
                CleanupStep::Cancel(_) => (*final(self), next) == handed_over(
                    old(self).cancelled(),
                    After::Cancelled(Cancelled::Return),
                ),
            },
            !(next.action is QueueCleanup) ==> next.accounts(final(self), old(self), 0, false),
    {
        match self.do_cleanup(local) {
            CleanupStep::Nothing => over(false),
            CleanupStep::QueueForeign => Next { action: Action::QueueCleanup, flow: Flow::Over },
            CleanupStep::Cancel(_) => self.hand_over(After::Cancelled(Cancelled::Return)),
        }
    }

    /// A poll is over.
    fn polled(&mut self, accepts_foreign: bool, event: Event<R>) -> (next: Next<R>)
        requires
            old(self).wf(),
            old(self).has_room(),
            Flow::<R>::Polling.fits(old(self)),
            !(event is Returned),
        ensures
            final(self).wf(),
            final(self).advances(old(self)),
            next.accounts(final(self), old(self), 0, true),
            next.agrees(final(self), old(self)),
            next.goes_on(),
            (*final(self), next) == poll_over(*old(self), accepts_foreign, event),
    {
        match event {
            Event::Ready(output) => {
                self.poll_ready();
                Next { action: Action::DropFuture, flow: Flow::Storing(output) }
            },
            Event::Pending => match self.poll_pending() {
                PendingStep::DropFuture => Next {
                    action: Action::DropFuture,
                    flow: Flow::Closing(After::EndRun(true)),
                },
                PendingStep::Reschedule => self.hand_over(After::Return(true)),
                PendingStep::Close => self.close_then(accepts_foreign, After::EndRun(false)),
                PendingStep::Idle => self.finish(accepts_foreign, After::EndRun(false)),
            },
            Event::Unwound => {
                self.poll_unwound();
                Next { action: Action::DropFuture, flow: Flow::Closing(After::ReleaseRunnable) }
            },
            Event::Returned => vstd::pervasive::unreached(),
        }
    }

    /// The poll that completed the task is over.
    fn completed_then(&mut self, accepts_foreign: bool) -> (next: Next<R>)
        requires
            old(self).wf(),
            old(self).has_room(),
            Flow::<R>::Stored.fits(old(self)),
        ensures
            final(self).wf(),
            final(self).advances(old(self)),
            next.accounts(final(self), old(self), 0, true),
            next.agrees(final(self), old(self)),
            next.goes_on(),
            (*final(self), next) == completion_over(*old(self), accepts_foreign),
    {
        if self.poll_completed() {
            return Next { action: Action::Notify, flow: Flow::Notified(After::EndRun(true)) };
        }
        self.finish(accepts_foreign, After::EndRun(true))
    }

    /// The poll that completed the task is over, unwinding from the output's
    /// destructor.
    fn completed_unwinding(&mut self, accepts_foreign: bool) -> (next: Next<R>)
        requires
            old(self).wf(),
            old(self).has_room(),
            Flow::<R>::Stored.fits(old(self)),
        ensures
            final(self).wf(),
            final(self).advances(old(self)),
            next.accounts(final(self), old(self), 0, true),
            next.agrees(final(self), old(self)),
            next.goes_on(),
            (*final(self), next) == completion_unwound(*old(self), accepts_foreign),
    {
        self.poll_unwound();
        if self.future_is_dropped() {
            return Next { action: Action::Notify, flow: Flow::Notified(After::ReleaseRunnable) };
        }
        self.finish(accepts_foreign, After::ReleaseRunnable)
    }

    /// Goes on with a flow once what it called has returned or unwound.
    pub fn resume(&mut self, accepts_foreign: bool, flow: Flow<R>, event: Event<R>) -> (next: Next<R>)
        requires
            old(self).wf(),
            old(self).has_room(),
            flow.fits(old(self)),
            !(flow is Freed),
            !(flow is Over),
            match flow {
                Flow::Polling => !(event is Returned),
                Flow::Stored => event is Returned || event is Unwound,
                Flow::Scheduling(_, _) => event is Returned || event is Unwound,
                _ => event is Returned,
            },
        ensures
            final(self).wf(),
            final(self).advances(old(self)),
            next.accounts(final(self), old(self), flow.owed(), flow.owes_runnable()),
            next.agrees(final(self), old(self)),
            next.goes_on(),
            (*final(self), next) == resumed(*old(self), accepts_foreign, flow, event),
    {
        match flow {
            Flow::Polling => self.polled(accepts_foreign, event),
            Flow::Storing(output) => {
                match self.store_output(output) {
                    Some(unread) => Next { action: Action::DropOutput(unread), flow: Flow::Stored },
                    None => self.completed_then(accepts_foreign),
                }
            },
            Flow::Stored => match event {
                Event::Unwound => self.completed_unwinding(accepts_foreign),
                _ => self.completed_then(accepts_foreign),
            },
            Flow::Closing(after) => if self.future_is_dropped() {
                Next { action: Action::Notify, flow: Flow::Notified(after) }
            } else {
                self.finish(accepts_foreign, after)
            },
            Flow::Notified(after) => self.finish(accepts_foreign, after),
            Flow::Cleaning(after) => if self.take_awaiter() {
                Next { action: Action::Notify, flow: Flow::Cleaned(after) }
            } else {
                self.unlink(accepts_foreign, after)
            },
            Flow::Cleaned(after) => self.unlink(accepts_foreign, after),
            Flow::Unlinked(after) => self.end(accepts_foreign, after, true),
            Flow::Scheduling(was_scheduling, after) => {
                self.schedule_returned(was_scheduling);
                match (event, after) {
                    (Event::Unwound, After::Cancelled(rest)) => self.finish(accepts_foreign, After::Abandoned(rest)),
                    (_, after) => self.finish(accepts_foreign, after),
                }
            },
            Flow::CancelNotified(rest) => self.end_cancel(accepts_foreign, rest),
            Flow::Freed(output, scheduled) => resume_freed(output, scheduled),
            Flow::Over => over(false),
        }
    }
}

/// Goes on with a flow once the task is freed, or an output is dropped that
/// was the last thing to do: an output that is left is dropped.
pub fn resume_freed<R>(output: Option<R>, scheduled: bool) -> (next: Next<R>)
    ensures
        next == spec_freed(output, scheduled),
{
    match output {
        Some(output) => Next { action: Action::DropOutput(output), flow: Flow::Freed(None, scheduled) },
        None => over(scheduled),
    }
}

/// The output that is to follow.
pub open spec fn output_after<R>(after: After<R>) -> Option<R> {
    match after {
        After::DropHandle(output) => output,
        After::Cancelled(Cancelled::Release(output)) => output,
        After::Cancelled(Cancelled::Drop(output)) => output,
        After::Abandoned(Cancelled::Release(output)) => output,
        After::Abandoned(Cancelled::Drop(output)) => output,
        _ => None,
    }
}

/// The output that a flow carries.
pub open spec fn output_of<R>(flow: Flow<R>) -> Option<R> {
    match flow {
        Flow::Storing(output) => Some(output),
        Flow::Freed(output, _) => output,
        _ => output_after(flow.after()),
    }
}

/// Who waits, the registry's list and a stored output are treated fairly by
/// one step, and so is an output the flow carries.
spec fn fair<R>(left: RawTask<R>, next: Next<R>, before: RawTask<R>, output: Option<R>) -> bool {
    &&& before.awaiter && !left.awaiter <==> next.action is Notify
    &&& left.awaiter ==> before.awaiter
    &&& before.linked && !left.linked <==> next.action is Unlink
    &&& left.output == before.output
    &&& output matches Some(unread) ==> output_of(next.flow) == Some(unread) || next.action == Action::DropOutput(unread)
    &&& next.action matches Action::DropOutput(dropped) ==> output == Some(dropped)
    &&& output_of(next.flow) is Some ==> output_of(next.flow) == output
}

proof fn lemma_fair_when_dropped<R>(task: RawTask<R>, accepts_foreign: bool, output: Option<R>)
    ensures
        fair(
            reference_dropped(task, accepts_foreign, output).0,
            reference_dropped(task, accepts_foreign, output).1,
            task,
            output,
        ),
        reference_dropped(task, accepts_foreign, output).0.holders@.registry == task.holders@.registry,
{
}

proof fn lemma_fair_when_cancelled<R>(task: RawTask<R>, accepts_foreign: bool, rest: Cancelled<R>)
    ensures
        fair(
            cancel_ended(task, accepts_foreign, rest).0,
            cancel_ended(task, accepts_foreign, rest).1,
            task,
            output_after(After::Cancelled(rest)),
        ),
        cancel_ended(task, accepts_foreign, rest).0.holders@.registry == task.holders@.registry,
{
    if let Cancelled::Drop(output) = rest {
        lemma_fair_when_dropped(task, accepts_foreign, output);
    }
}

proof fn lemma_fair_when_ended<R>(task: RawTask<R>, accepts_foreign: bool, after: After<R>, cleaned: bool)
    requires
        task.wf(),
        after.held(&task),
        cleaned ==> task.holders@.registry,
    ensures
        fair(
            ended(task, accepts_foreign, after, cleaned).0,
            ended(task, accepts_foreign, after, cleaned).1,
            task,
            output_after(after),
        ),
        ended(task, accepts_foreign, after, cleaned).0.holders@.registry == (task.holders@.registry && !cleaned),
{
    let left = if cleaned {
        without_registry(task)
    } else {
        task
    };
    match after {
        After::EndRun(runnable) => {
            let kept = if runnable {
                retired(left)
            } else {
                left
            };
            lemma_fair_when_dropped(kept, accepts_foreign, None);
        },
        After::DropHandle(output) => {
            lemma_fair_when_dropped(left, accepts_foreign, output);
        },
        After::Cancelled(rest) => {
            lemma_fair_when_cancelled(left, accepts_foreign, rest);
        },
        After::Abandoned(rest) => {
            lemma_fair_when_cancelled(left, accepts_foreign, rest);
        },
        _ => {},
    }
}

proof fn lemma_fair_when_finished<R>(task: RawTask<R>, accepts_foreign: bool, after: After<R>)
    requires
        task.wf(),
        after.held(&task),
    ensures
        fair(
            finished(task, accepts_foreign, after).0,
            finished(task, accepts_foreign, after).1,
            task,
            output_after(after),
        ),
        finished(task, accepts_foreign, after).0.holders@.registry == task.holders@.registry,
{
    if !task.cleanable() {
        lemma_fair_when_ended(task, accepts_foreign, after, false);
    }
}

proof fn lemma_fair_when_unlinked<R>(task: RawTask<R>, accepts_foreign: bool, after: After<R>)
    requires
        task.wf(),
        task.schedule_dropped,
        task.scheduling,
        !task.awaiter,
        after.held(&task),
    ensures
        fair(
            unlinked(task, accepts_foreign, after).0,
            unlinked(task, accepts_foreign, after).1,
            task,
            output_after(after),
        ),
        unlinked(task, accepts_foreign, after).0.holders@.registry == task.linked,
{
    let left = RawTask { scheduling: false, linked: false, ..task };
    if !task.linked {
        lemma_fair_when_ended(left, accepts_foreign, after, true);
    }
}

proof fn lemma_fair_when_closed<R>(task: RawTask<R>, accepts_foreign: bool, after: After<R>)
    requires
        task.wf(),
        after.held(&task),
        !after.owes_runnable(),
    ensures
        fair(
            closed_then(task, accepts_foreign, after).0,
            closed_then(task, accepts_foreign, after).1,
            task,
            output_after(after),
        ),
        closed_then(task, accepts_foreign, after).0.holders@.registry == task.holders@.registry,
{
    match task.close_step() {
        CloseStep::Busy => {
            lemma_fair_when_finished(RawTask { closed: true, active: false, ..task }, accepts_foreign, after);
        },
        CloseStep::DropFuture => {},
        CloseStep::Settled { notify } => {
            let left = RawTask { closed: true, active: false, scheduled: false, awaiter: false, ..task };
            if !notify {
                lemma_fair_when_finished(left, accepts_foreign, after);
            }
        },
    }
}

/// A step that follows the storing of an output is fair to it as stored.
proof fn lemma_fair_when_completed<R>(task: RawTask<R>, accepts_foreign: bool)
    requires
        task.wf(),
        Flow::<R>::Stored.fits(&task),
    ensures
        fair(
            completion_over(task, accepts_foreign).0,
            completion_over(task, accepts_foreign).1,
            task,
            None,
        ),
        fair(
            completion_unwound(task, accepts_foreign).0,
            completion_unwound(task, accepts_foreign).1,
            task,
            None,
        ),
        completion_over(task, accepts_foreign).0.holders@.registry == task.holders@.registry,
        completion_unwound(task, accepts_foreign).0.holders@.registry == task.holders@.registry,
{
    let left = RawTask { running: false, awaiter: false, ..task };
    let unwound = RawTask { closed: true, active: false, future_dropped: true, scheduled: false, ..left };
    if !task.awaiter {
        lemma_fair_when_finished(left, accepts_foreign, After::<R>::EndRun(true));
        lemma_fair_when_finished(unwound, accepts_foreign, After::<R>::ReleaseRunnable);
    }
}

proof fn lemma_fair_when_polled<R>(task: RawTask<R>, accepts_foreign: bool, event: Event<R>)
    requires
        task.wf(),
        Flow::<R>::Polling.fits(&task),
    ensures
        ({
            let (left, next) = resumed(task, accepts_foreign, Flow::Polling, event);
            let output = match event {
                Event::Ready(output) => Some(output),
                _ => None,
            };
            fair(left, next, task, output) && left.holders@.registry == task.holders@.registry
        }),
{
    let idle = retired(RawTask { running: false, ..task });
    match task.pending_step() {
        PendingStep::Close => {
            lemma_fair_when_closed(idle, accepts_foreign, After::<R>::EndRun(false));
        },
        PendingStep::Idle => {
            lemma_fair_when_finished(idle, accepts_foreign, After::<R>::EndRun(false));
        },
        _ => {},
    }
}

proof fn lemma_fair_when_resumed<R>(task: RawTask<R>, accepts_foreign: bool, flow: Flow<R>, event: Event<R>)
    requires
        task.wf(),
        flow.fits(&task),
        !(flow is Polling),
        !(flow is Storing),
    ensures
        ({
            let (left, next) = resumed(task, accepts_foreign, flow, event);
            &&& fair(left, next, task, output_of(flow))
            &&& task.holders@.registry && !left.holders@.registry ==> flow is Unlinked || (flow is Cleaned || flow is Cleaning)
                && !task.linked
            &&& flow is Unlinked ==> !left.holders@.registry
        }),
{
    match flow {
        Flow::Stored => {
            lemma_fair_when_completed(task, accepts_foreign);
        },
        Flow::Closing(after) => {
            if !task.awaiter {
                lemma_fair_when_finished(
                    RawTask { running: false, scheduled: false, awaiter: false, ..task },
                    accepts_foreign,
                    after,
                );
            }
        },
        Flow::Notified(after) => {
            lemma_fair_when_finished(task, accepts_foreign, after);
        },
        Flow::Cleaning(after) => {
            if !task.awaiter {
                lemma_fair_when_unlinked(task, accepts_foreign, after);
            }
        },
        Flow::Cleaned(after) => {
            lemma_fair_when_unlinked(task, accepts_foreign, after);
        },
        Flow::Unlinked(after) => {
            lemma_fair_when_ended(task, accepts_foreign, after, true);
        },
        Flow::Scheduling(was_scheduling, after) => {
            let left = RawTask { scheduling: was_scheduling, ..task };
            lemma_fair_when_finished(left, accepts_foreign, after);
            lemma_fair_when_finished(left, accepts_foreign, after.unwound());
        },
        Flow::CancelNotified(rest) => {
            lemma_fair_when_cancelled(task, accepts_foreign, rest);
        },
        _ => {},
    }
}

proof fn lemma_fair_when_stored<R>(task: RawTask<R>, accepts_foreign: bool, output: R, event: Event<R>)
    requires
        task.wf(),
        Flow::Storing(output).fits(&task),
    ensures
        ({
            let (left, next) = resumed(task, accepts_foreign, Flow::Storing(output), event);
            let kept = task.handle && !task.closed;
            &&& fair(left, next, RawTask { output: left.output, ..task }, if kept { None } else { Some(output) })
            &&& left.completed && left.holders@.registry == task.holders@.registry
            &&& left.output == if kept { Some(output) } else { None }
        }),
{
    if task.handle && !task.closed {
        lemma_fair_when_completed(
            RawTask { scheduled: false, completed: true, output: Some(output), ..task },
            accepts_foreign,
        );
    }
}

/// Nobody who waits is forgotten, and nobody is told who does not wait:
/// whatever a flow goes on with, it stops minding who waits exactly where it
/// wakes them.
pub proof fn law_who_waits_is_told<R>(task: RawTask<R>, accepts_foreign: bool, flow: Flow<R>, event: Event<R>)
    requires
        task.wf(),
        flow.fits(&task),
    ensures
        ({
            let (left, next) = resumed(task, accepts_foreign, flow, event);
            &&& task.awaiter && !left.awaiter <==> next.action is Notify
            &&& left.awaiter ==> task.awaiter
        }),
{
    match flow {
        Flow::Polling => lemma_fair_when_polled(task, accepts_foreign, event),
        Flow::Storing(output) => lemma_fair_when_stored(task, accepts_foreign, output, event),
        _ => lemma_fair_when_resumed(task, accepts_foreign, flow, event),
    }
}

/// Who waits for a task is told of its end: once it completed, or its future
/// was dropped because it was cancelled or unwound, whoever waits is woken
/// before anything else happens.
pub proof fn law_the_end_is_told<R>(task: RawTask<R>, accepts_foreign: bool, flow: Flow<R>, event: Event<R>)
    requires
        task.awaiter,
        flow is Stored || flow is Closing || flow is Storing && task.handle && !task.closed,
    ensures
        resumed(task, accepts_foreign, flow, event).1.action is Notify,
        !resumed(task, accepts_foreign, flow, event).0.awaiter,
        !resumed(task, accepts_foreign, flow, event).0.running,
{
}

/// What a poll comes to. An output is carried on as it came, and the future it
/// came of dropped; a task that was woken meanwhile runs again; one that was
/// cancelled, or whose poll unwound, loses its future; and one that somebody
/// still holds the handle of is otherwise left as it is, to be woken.
pub proof fn law_what_a_poll_comes_to<R>(task: RawTask<R>, accepts_foreign: bool, output: R)
    requires
        task.wf(),
        Flow::<R>::Polling.fits(&task),
    ensures
        ({
            let (left, next) = resumed(task, accepts_foreign, Flow::Polling, Event::Ready(output));
            next.action is DropFuture && next.flow == Flow::Storing(output) && !left.active && left.closed == task.closed
        }),
        ({
            let (left, next) = resumed(task, accepts_foreign, Flow::Polling, Event::<R>::Unwound);
            next.action is DropFuture && left.closed && !left.active
        }),
        ({
            let (left, next) = resumed(task, accepts_foreign, Flow::Polling, Event::<R>::Pending);
            &&& task.closed ==> next.action is DropFuture
            &&& !task.closed && task.scheduled ==> next.action is Schedule && left.scheduled && !left.running
            &&& !task.closed && !task.scheduled && task.handle ==> !left.closed && !left.future_dropped && !left.running
                && !left.scheduled && left.active && left.handle && next.action == Action::<R>::Return(false)
        }),
{
}

/// No output is lost or made up, and none is dropped that somebody may still
/// read. The output a flow carries is carried on or dropped, but for the one
/// that a poll has just made: where the handle can still ask for it, it is left
/// with the task. What was left with the task stays there.
pub proof fn law_no_output_is_lost<R>(task: RawTask<R>, accepts_foreign: bool, flow: Flow<R>, event: Event<R>)
    requires
        task.wf(),
        flow.fits(&task),
    ensures
        ({
            let (left, next) = resumed(task, accepts_foreign, flow, event);
            let kept = flow is Storing && task.handle && !task.closed;
            &&& kept ==> left.completed && left.output == output_of(flow)
            &&& flow is Storing && !kept ==> left.output is None && next.action == Action::DropOutput(flow->Storing_0)
            &&& !(flow is Storing) ==> left.output == task.output
            &&& !kept ==> (output_of(flow) matches Some(output) ==> output_of(next.flow) == Some(output) || next.action
                == Action::DropOutput(output))
            &&& next.action matches Action::DropOutput(output) ==> output_of(flow) == Some(output)
            &&& output_of(next.flow) matches Some(output) ==> output_of(flow) == Some(output) || event
                == Event::Ready(output)
        }),
{
    match flow {
        Flow::Polling => lemma_fair_when_polled(task, accepts_foreign, event),
        Flow::Storing(output) => lemma_fair_when_stored(task, accepts_foreign, output, event),
        _ => lemma_fair_when_resumed(task, accepts_foreign, flow, event),
    }
}

/// A task is taken off the registry's list before the registry lets go of it:
/// its links are cleared exactly where it is unlinked, and the registry's
/// reference is given up only once that is done.
pub proof fn law_taken_off_the_list<R>(task: RawTask<R>, accepts_foreign: bool, flow: Flow<R>, event: Event<R>)
    requires
        task.wf(),
        flow.fits(&task),
    ensures
        ({
            let (left, next) = resumed(task, accepts_foreign, flow, event);
            &&& task.linked && !left.linked <==> next.action is Unlink
            &&& task.holders@.registry && !left.holders@.registry ==> !task.linked && (flow is Unlinked || flow is Cleaned
                || flow is Cleaning)
            &&& flow is Unlinked ==> !left.holders@.registry
        }),
{
    match flow {
        Flow::Polling => lemma_fair_when_polled(task, accepts_foreign, event),
        Flow::Storing(output) => lemma_fair_when_stored(task, accepts_foreign, output, event),
        _ => lemma_fair_when_resumed(task, accepts_foreign, flow, event),
    }
}

/// A future that nobody is left for, neither to wake it nor to wait for it, is
/// cancelled and not kept: when a poll leaves it so, and when its handle is the
/// last to go.
pub proof fn law_the_abandoned_are_cancelled<R>(task: RawTask<R>, accepts_foreign: bool, output: Option<R>)
    requires
        task.wf(),
        task.references == 2,
        !task.handle,
        !task.closed,
        !task.completed,
        !task.scheduled,
    ensures
        Flow::<R>::Polling.fits(&task) ==> {
            let (left, next) = resumed(task, accepts_foreign, Flow::Polling, Event::<R>::Pending);
            left.closed && next.action is DropFuture
        },
        Flow::Notified(After::DropHandle(output)).fits(&task) && !task.running && !task.cleanable() ==> {
            let (left, next) = resumed(task, accepts_foreign, Flow::Notified(After::DropHandle(output)), Event::<R>::Returned);
            left.closed && next.action is Schedule && output_of(next.flow) == output
        },
{
}

} // verus!
