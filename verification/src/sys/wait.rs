//! One turn of the reactor: in what order it collects, submits and sleeps.
//!
//! The steps that touch the kernel or other threads are taken elsewhere. A
//! [`Wait`] says which step is next and is told what came of it.

use super::errno::{forgiven, submitted};
use vstd::prelude::*;

verus! {

/// What the reactor is to do next.
#[derive(Debug, Clone, Copy, PartialEq, Eq)]
pub enum Step {
    /// Collect calls that blocked and are done.
    FlushBlocking,
    /// Collect completions from all rings.
    ConsumeRings,
    /// Cancel the old timer regardless of whether we can sleep: if we won't,
    /// the new timer will be registered with its new value; if we will, there
    /// might be a timer registered that would wake us up when it expires. And
    /// schedule the throughput-based timer: it won't matter if we end up
    /// sleeping.
    RearmTimers,
    /// Submit cancellations. Nothing is really sent to the kernel unless a
    /// ring runs out of entries.
    FlushCancellations,
    /// Submit what is queued for all rings.
    FlushRings,
    /// Pick up the results of any cancellations.
    ConsumeAgain,
    /// Find out whether a task queue is waiting to run, and whether the rings
    /// allow sleep.
    AskToSleep,
    /// It's ok to sleep, but there is a timer set: make sure we wake up to
    /// handle it, and submit that to the latency ring.
    ArmUserTimer(u64),
    /// Make other threads aware that we are sleeping, and sweep what came from
    /// them once more: something may have happened there that opened up room.
    PrepareToSleep,
    /// Make the main ring wake up for the latency ring, and submit that.
    LinkRings,
    /// Submit what the main ring has: it had no room to link the rings.
    SubmitMain,
    /// Sleep until the main ring has a completion. Goodnight!
    Sleep,
    /// Submit cancellations that have to do with the link.
    FlushCancellationsAwake,
    /// Submit what is queued for all rings.
    FlushRingsAwake,
    /// Collect completions from all rings.
    ConsumeRingsAwake,
    /// Woke up, so no need to notify us any more.
    WakeUp,
    /// Find out whether a task queue is waiting to run.
    AskToPreempt,
    /// Arm the preemption timer, as close as possible to the point where the
    /// turn ends, and submit that to the latency ring and what is queued for
    /// the main ring.
    ArmPreemptTimer(u64),
    /// The turn is over: whether it was ok to sleep, or the error that ended
    /// it.
    Return(Result<bool, Option<i32>>),
}

/// What came of a step.
#[derive(Debug, Clone, Copy, PartialEq, Eq)]
pub enum Event {
    /// It was done.
    Done,
    /// It was done, and woke so many.
    Woke(usize),
    /// So many entries were submitted, or that failed.
    Submitted(Result<usize, Option<i32>>),
    /// Whether a task queue is waiting to run, and whether the rings allow
    /// sleep.
    Idle(bool, bool),
    /// So many events came from other threads; and whether a wake from them
    /// is waited for.
    Remote(usize, bool),
    /// The ring has no room.
    Full,
    /// The time a task queue may run for, if one is waiting to run.
    Preempt(Option<u64>),
}

/// One turn of the reactor.
#[derive(Debug, Clone, Copy, PartialEq, Eq)]
pub struct Wait {
    /// The time until the next user timer.
    pub user_timer: Option<u64>,
    /// How many were woken so far.
    pub woke: usize,
    /// It was ok to sleep.
    pub should_sleep: bool,
    /// What is next.
    pub step: Step,
}

/// The event is an answer to the step. A user timer that is armed is
/// submitted, and sleeping ends in no error but one that passes.
pub open spec fn answers(step: Step, event: Event) -> bool {
    match step {
        Step::FlushBlocking | Step::ConsumeRings | Step::FlushCancellations | Step::ConsumeAgain => event is Woke,
        Step::RearmTimers | Step::FlushCancellationsAwake | Step::ConsumeRingsAwake | Step::WakeUp => event is Done,
        Step::FlushRings | Step::FlushRingsAwake | Step::ArmPreemptTimer(_) => event is Submitted,
        Step::AskToSleep => event is Idle,
        Step::ArmUserTimer(_) => event matches Event::Submitted(result) && (forgiven(result) matches Ok(count) ==> count > 0),
        Step::PrepareToSleep => event is Remote,
        Step::LinkRings => event is Full || (event matches Event::Submitted(result) && forgiven(result) is Ok),
        Step::SubmitMain | Step::Sleep => event matches Event::Submitted(result) && forgiven(result) is Ok,
        Step::AskToPreempt => event is Preempt,
        Step::Return(_) => false,
    }
}

/// Where a submission leads: on, or out with the error.
pub open spec fn unless_failed(event: Event, on: Step) -> Step {
    match forgiven(event->Submitted_0) {
        Ok(_) => on,
        Err(errno) => Step::Return(Err(errno)),
    }
}

/// A turn at its beginning.
pub open spec fn wait_start(user_timer: Option<u64>, woke: usize) -> Wait {
    Wait { user_timer, woke, should_sleep: false, step: Step::FlushBlocking }
}

impl Wait {
    /// How far the turn is from its end, at most.
    pub open spec fn distance(self) -> nat {
        match self.step {
            Step::FlushBlocking => 18,
            Step::ConsumeRings => 17,
            Step::RearmTimers => 16,
            Step::FlushCancellations => 15,
            Step::FlushRings => 14,
            Step::ConsumeAgain => 13,
            Step::AskToSleep => 12,
            Step::ArmUserTimer(_) => 11,
            Step::PrepareToSleep => 10,
            Step::LinkRings => 9,
            Step::SubmitMain => 8,
            Step::Sleep => 7,
            Step::FlushCancellationsAwake => 6,
            Step::FlushRingsAwake => 5,
            Step::ConsumeRingsAwake => 4,
            Step::WakeUp => 3,
            Step::AskToPreempt => 2,
            Step::ArmPreemptTimer(_) => 1,
            Step::Return(_) => 0,
        }
    }

    /// The step has to do with sleeping.
    pub open spec fn is_sleeping(self) -> bool {
        3 <= self.distance() <= 11
    }

    /// Nothing was woken where the turn has to do with sleeping, and what it
    /// returns is whether it was ok to sleep.
    pub open spec fn wf(self) -> bool {
        &&& self.is_sleeping() ==> self.should_sleep
        &&& self.should_sleep ==> self.woke == 0 && self.distance() < 12
        &&& self.step matches Step::ArmUserTimer(timer) ==> self.user_timer == Some(timer)
        &&& self.step matches Step::Return(Ok(slept)) ==> slept == self.should_sleep
    }

    /// The step that follows.
    pub open spec fn following(self, event: Event) -> Step {
        match self.step {
            Step::FlushBlocking => Step::ConsumeRings,
            Step::ConsumeRings => Step::RearmTimers,
            Step::RearmTimers => Step::FlushCancellations,
            Step::FlushCancellations => Step::FlushRings,
            Step::FlushRings => unless_failed(event, Step::ConsumeAgain),
            Step::ConsumeAgain => Step::AskToSleep,
            Step::AskToSleep => if !self.sleeps_after(event) {
                Step::AskToPreempt
            } else {
                match self.user_timer {
                    Some(timer) => Step::ArmUserTimer(timer),
                    None => Step::PrepareToSleep,
                }
            },
            Step::ArmUserTimer(_) => unless_failed(event, Step::PrepareToSleep),
            Step::PrepareToSleep => match event {
                Event::Remote(0, true) => Step::LinkRings,
                Event::Remote(0, false) => Step::WakeUp,
                _ => Step::AskToPreempt,
            },
            Step::LinkRings => match event {
                Event::Full => Step::SubmitMain,
                Event::Submitted(result) => if forgiven(result) == Ok::<usize, Option<i32>>(1) {
                    Step::Sleep
                } else {
                    Step::FlushCancellationsAwake
                },
                _ => Step::FlushCancellationsAwake,
            },
            Step::SubmitMain => Step::FlushCancellationsAwake,
            Step::Sleep => Step::FlushCancellationsAwake,
            Step::FlushCancellationsAwake => Step::FlushRingsAwake,
            Step::FlushRingsAwake => unless_failed(event, Step::ConsumeRingsAwake),
            Step::ConsumeRingsAwake => Step::WakeUp,
            Step::WakeUp => Step::AskToPreempt,
            Step::AskToPreempt => match event {
                Event::Preempt(Some(timer)) => Step::ArmPreemptTimer(timer),
                _ => Step::Return(Ok(self.should_sleep)),
            },
            Step::ArmPreemptTimer(_) => unless_failed(event, Step::Return(Ok(self.should_sleep))),
            Step::Return(result) => Step::Return(result),
        }
    }

    /// It is ok to sleep: no task queue is waiting to run, nothing was woken,
    /// and the rings allow it.
    pub open spec fn sleeps_after(self, event: Event) -> bool {
        event matches Event::Idle(waiting, allowed) && !waiting && self.woke == 0 && allowed
    }

    /// Begins a turn.
    pub fn new(user_timer: Option<u64>, woke: usize) -> (wait: Self)
        ensures
            wait.wf(),
            wait == wait_start(user_timer, woke),
    {
        Wait { user_timer, woke, should_sleep: false, step: Step::FlushBlocking }
    }

    /// Takes note of what came of the step and says which is next.
    pub fn advance(&mut self, event: Event)
        requires
            old(self).wf(),
            answers(old(self).step, event),
            event matches Event::Woke(count) ==> old(self).woke + count <= usize::MAX,
        ensures
            final(self).wf(),
            *final(self) == (Wait {
                user_timer: old(self).user_timer,
                woke: match event {
                    Event::Woke(count) => (old(self).woke + count) as usize,
                    _ => old(self).woke,
                },
                should_sleep: old(self).should_sleep || old(self).step is AskToSleep && old(self).sleeps_after(event),
                step: old(self).following(event),
            }),
            final(self).distance() < old(self).distance(),
            old(self).step is AskToPreempt ==> (event matches Event::Preempt(Some(timer)) ==> final(self).step
                == Step::ArmPreemptTimer(timer)),
            final(self).step matches Step::Return(Err(errno)) ==> event == Event::Submitted(
                Err::<usize, Option<i32>>(errno),
            ),
    {
        if let Event::Woke(count) = event {
            self.woke = self.woke + count;
        }
        if let Step::AskToSleep = self.step {
            if let Event::Idle(waiting, allowed) = event {
                self.should_sleep = !waiting && self.woke == 0 && allowed;
            }
        }
        self.step = match self.step {
            Step::FlushBlocking => Step::ConsumeRings,
            Step::ConsumeRings => Step::RearmTimers,
            Step::RearmTimers => Step::FlushCancellations,
            Step::FlushCancellations => Step::FlushRings,
            Step::FlushRings => on_or_out(event, Step::ConsumeAgain),
            Step::ConsumeAgain => Step::AskToSleep,
            Step::AskToSleep => {
                if self.should_sleep {
                    match self.user_timer {
                        Some(timer) => Step::ArmUserTimer(timer),
                        None => Step::PrepareToSleep,
                    }
                } else {
                    Step::AskToPreempt
                }
            },
            Step::ArmUserTimer(_) => on_or_out(event, Step::PrepareToSleep),
            Step::PrepareToSleep => match event {
                Event::Remote(events, installed) => if events > 0 {
                    Step::AskToPreempt
                } else if installed {
                    Step::LinkRings
                } else {
                    Step::WakeUp
                },
                _ => Step::AskToPreempt,
            },
            Step::LinkRings => match event {
                Event::Full => Step::SubmitMain,
                Event::Submitted(result) => match submitted(result) {
                    Ok(count) => if count == 1 {
                        Step::Sleep
                    } else {
                        Step::FlushCancellationsAwake
                    },
                    Err(_) => Step::FlushCancellationsAwake,
                },
                _ => Step::FlushCancellationsAwake,
            },
            Step::SubmitMain => Step::FlushCancellationsAwake,
            Step::Sleep => Step::FlushCancellationsAwake,
            Step::FlushCancellationsAwake => Step::FlushRingsAwake,
            Step::FlushRingsAwake => on_or_out(event, Step::ConsumeRingsAwake),
            Step::ConsumeRingsAwake => Step::WakeUp,
            Step::WakeUp => Step::AskToPreempt,
            Step::AskToPreempt => match event {
                Event::Preempt(Some(timer)) => Step::ArmPreemptTimer(timer),
                _ => Step::Return(Ok(self.should_sleep)),
            },
            Step::ArmPreemptTimer(_) => on_or_out(event, Step::Return(Ok(self.should_sleep))),
            Step::Return(result) => Step::Return(result),
        };
    }

    /// The turn once every event was taken note of.
    pub open spec fn after(self, events: Seq<Event>) -> Wait
        decreases events.len(),
    {
        if events.len() == 0 {
            self
        } else {
            let before = self.after(events.drop_last());
            let event = events.last();
            Wait {
                user_timer: before.user_timer,
                woke: match event {
                    Event::Woke(count) => (before.woke + count) as usize,
                    _ => before.woke,
                },
                should_sleep: before.should_sleep || before.step is AskToSleep && before.sleeps_after(event),
                step: before.following(event),
            }
        }
    }

    /// Every event answered the step it came for.
    pub open spec fn answered(self, events: Seq<Event>) -> bool
        decreases events.len(),
    {
        events.len() == 0 || {
            let before = self.after(events.drop_last());
            &&& self.answered(events.drop_last())
            &&& answers(before.step, events.last())
            &&& events.last() matches Event::Woke(count) ==> before.woke + count <= usize::MAX
        }
    }

    /// The user timer is armed and submitted by the event at `i`.
    pub open spec fn arms_at(self, events: Seq<Event>, i: int) -> bool {
        &&& 0 <= i < events.len()
        &&& self.user_timer is Some
        &&& self.after(events.take(i)).step == Step::ArmUserTimer(self.user_timer->0)
        &&& events[i] matches Event::Submitted(result) && (forgiven(result) matches Ok(count) && count > 0)
    }

    /// The step that the event at `i` came for, and after the last event the
    /// one that is next.
    pub open spec fn step_at(self, events: Seq<Event>, i: int) -> Step {
        self.after(events.take(i)).step
    }

    /// Steps follow one another event by event.
    proof fn lemma_step(self, events: Seq<Event>, i: int)
        requires
            self.answered(events),
            0 <= i < events.len(),
        ensures
            self.answered(events.take(i)),
            answers(self.step_at(events, i), events[i]),
            events.take(i + 1).drop_last() == events.take(i),
            events.take(i + 1).last() == events[i],
            self.step_at(events, i + 1) == self.after(events.take(i)).following(events[i]),
            self.after(events.take(i)).wf() ==> self.after(events.take(i + 1)).wf(),
        decreases events.len() - i,
    {
        assert(events.take(i + 1).drop_last() =~= events.take(i));
        assert(events.take(i + 1).last() == events[i]);
        if i + 1 == events.len() {
            assert(events.take(i + 1) =~= events);
        } else {
            self.lemma_step(events, i + 1);
        }
    }

    /// Every turn begins the same way, whatever comes of it: what blocked is
    /// collected, then what the rings completed; the timers are set anew; then
    /// cancellations are submitted, and then what is queued; and what that
    /// completed is collected before it is asked whether to sleep.
    pub proof fn law_a_turn_collects_and_submits_first(user_timer: Option<u64>, woke: usize, events: Seq<Event>)
        requires
            wait_start(user_timer, woke).answered(events),
        ensures
            ({
                let start = wait_start(user_timer, woke);
                &&& start.step_at(events, 0) is FlushBlocking
                &&& events.len() >= 1 ==> start.step_at(events, 1) is ConsumeRings
                &&& events.len() >= 2 ==> start.step_at(events, 2) is RearmTimers
                &&& events.len() >= 3 ==> start.step_at(events, 3) is FlushCancellations
                &&& events.len() >= 4 ==> start.step_at(events, 4) is FlushRings
                &&& events.len() >= 6 ==> start.step_at(events, 5) is ConsumeAgain && start.step_at(events, 6) is AskToSleep
                &&& start.after(events).step matches Step::Return(Ok(_)) ==> events.len() >= 8
            }),
    {
        let start = wait_start(user_timer, woke);
        assert(events.take(0) =~= Seq::<Event>::empty());
        assert(events.take(events.len() as int) =~= events);
        if events.len() >= 1 {
            start.lemma_step(events, 0);
        }
        if events.len() >= 2 {
            start.lemma_step(events, 1);
        }
        if events.len() >= 3 {
            start.lemma_step(events, 2);
        }
        if events.len() >= 4 {
            start.lemma_step(events, 3);
        }
        if events.len() >= 5 {
            start.lemma_step(events, 4);
        }
        if events.len() >= 6 {
            start.lemma_step(events, 5);
        }
        if events.len() >= 7 {
            start.lemma_step(events, 6);
        }
    }

    /// A task queue that is waiting to run when the turn is about to end is
    /// going to be told to yield: its time is armed and submitted before the
    /// turn returns, whether or not the turn slept, and whatever that time is.
    /// A turn that returns has asked.
    pub proof fn law_a_waiting_queue_will_yield(user_timer: Option<u64>, woke: usize, events: Seq<Event>)
        requires
            wait_start(user_timer, woke).answered(events),
            wait_start(user_timer, woke).after(events).step matches Step::Return(Ok(_)),
        ensures
            exists|i: int| 0 <= i < events.len() && (#[trigger] events[i]) is Preempt,
            forall|i: int|
                0 <= i < events.len() ==> ((#[trigger] events[i]) matches Event::Preempt(Some(timer)) ==> {
                    &&& i + 2 == events.len()
                    &&& wait_start(user_timer, woke).step_at(events, i + 1) == Step::ArmPreemptTimer(timer)
                    &&& events.last() matches Event::Submitted(result) && (result matches Err(errno) ==> errno == Some(
                        4i32,
                    ) || errno == Some(11i32) || errno == Some(16i32))
                }),
    {
        let start = wait_start(user_timer, woke);
        let last = events.len() - 1;
        Self::law_a_turn_collects_and_submits_first(user_timer, woke, events);
        assert(events.take(events.len() as int) =~= events);
        start.lemma_step(events, last);
        start.lemma_step(events, last - 1);
        if start.step_at(events, last) is AskToPreempt {
            assert(events[last] is Preempt);
        } else {
            assert(events[last - 1] is Preempt);
        }
        assert forall|i: int| 0 <= i < events.len() implies ((#[trigger] events[i]) matches Event::Preempt(Some(timer)) ==> {
            &&& i + 2 == events.len()
            &&& start.step_at(events, i + 1) == Step::ArmPreemptTimer(timer)
            &&& events.last() matches Event::Submitted(result) && (result matches Err(errno) ==> errno == Some(4i32) || errno
                == Some(11i32) || errno == Some(16i32))
        }) by {
            if let Event::Preempt(Some(timer)) = events[i] {
                start.lemma_step(events, i);
                assert(start.step_at(events, i) is AskToPreempt);
                assert(start.step_at(events, i + 1) == Step::ArmPreemptTimer(timer));
                if i + 1 < events.len() {
                    start.lemma_step(events, i + 1);
                    if i + 2 < events.len() {
                        start.lemma_step(events, i + 2);
                    }
                }
            }
        }
    }

    /// What a turn returns. It returns an error exactly where submitting
    /// failed with an error that does not pass, that very error and at once;
    /// and otherwise whether it found nothing to do: nobody was woken, no task
    /// queue was waiting to run and the rings allowed sleep.
    pub proof fn law_what_a_turn_returns(user_timer: Option<u64>, woke: usize, events: Seq<Event>)
        requires
            wait_start(user_timer, woke).answered(events),
            wait_start(user_timer, woke).after(events).step is Return,
        ensures
            ({
                let step = wait_start(user_timer, woke).after(events).step;
                &&& events.len() > 0
                &&& step matches Step::Return(Err(errno)) ==> events.last() == Event::Submitted(
                    Err::<usize, Option<i32>>(errno),
                ) && errno != Some(4i32) && errno != Some(11i32) && errno != Some(16i32)
                &&& step matches Step::Return(Ok(_)) ==> forall|i: int|
                    0 <= i < events.len() ==> ((#[trigger] events[i]) matches Event::Submitted(Err(errno)) ==> errno == Some(
                        4i32,
                    ) || errno == Some(11i32) || errno == Some(16i32))
                &&& step matches Step::Return(Ok(slept)) ==> (slept <==> woke == 0 && events[6] == Event::Idle(false, true)
                    && forall|i: int| 0 <= i < events.len() ==> ((#[trigger] events[i]) matches Event::Woke(count) ==> count
                    == 0))
            }),
    {
        let start = wait_start(user_timer, woke);
        let last = events.len() - 1;
        Self::law_a_turn_collects_and_submits_first(user_timer, woke, events);
        assert(events.take(events.len() as int) =~= events);
        assert(start.after(events.take(0)).wf()) by {
            assert(events.take(0) =~= Seq::<Event>::empty());
        }
        if events.len() > 0 {
            start.lemma_step(events, last);
            let step = start.after(events).step;
            if step matches Step::Return(Ok(_)) {
                assert forall|i: int| 0 <= i < events.len() implies ((#[trigger] events[i]) matches Event::Submitted(Err(errno)) ==> errno
                    == Some(4i32) || errno == Some(11i32) || errno == Some(16i32)) by {
                    start.lemma_step(events, i);
                    if i + 1 < events.len() {
                        start.lemma_step(events, i + 1);
                    }
                }
                Self::lemma_slept(user_timer, woke, events);
                Self::lemma_sleeps_when_idle(user_timer, woke, events);
                Self::law_a_turn_ends(user_timer, woke, events);
            }
        } else {
            assert(events =~= Seq::<Event>::empty());
        }
    }

    /// Whether a turn slept was settled when it was asked.
    proof fn lemma_sleeps_when_idle(user_timer: Option<u64>, woke: usize, events: Seq<Event>)
        requires
            wait_start(user_timer, woke).answered(events),
        ensures
            ({
                let wait = wait_start(user_timer, woke).after(events);
                &&& wait.should_sleep ==> events.len() > 6 && events[6] == Event::Idle(false, true)
                &&& woke == 0 && (forall|i: int|
                    0 <= i < events.len() ==> ((#[trigger] events[i]) matches Event::Woke(count) ==> count == 0))
                    ==> wait.woke == 0 && (events.len() > 6 && events[6] == Event::Idle(false, true) ==> wait.should_sleep)
            }),
        decreases events.len(),
    {
        let start = wait_start(user_timer, woke);
        if events.len() > 0 {
            let earlier = events.drop_last();
            let last = events.len() - 1;
            Self::lemma_sleeps_when_idle(user_timer, woke, earlier);
            Self::law_a_turn_collects_and_submits_first(user_timer, woke, events);
            start.lemma_step(events, last);
            assert(events.take(last) =~= earlier);
            assert(events[last] == events.last());
            assert forall|i: int| 0 <= i < earlier.len() implies #[trigger] earlier[i] == events[i] by {
            }
            if start.after(earlier).step is AskToSleep {
                Self::law_a_turn_ends(user_timer, woke, earlier);
                Self::lemma_asked_at_six(user_timer, woke, events);
            }
            if last == 6 {
                assert(start.step_at(events, 6) is AskToSleep);
            }
        }
    }

    proof fn lemma_asked_at_six(user_timer: Option<u64>, woke: usize, events: Seq<Event>)
        requires
            wait_start(user_timer, woke).answered(events),
            events.len() > 0,
            wait_start(user_timer, woke).step_at(events, events.len() - 1) is AskToSleep,
        ensures
            events.len() == 7,
    {
        let start = wait_start(user_timer, woke);
        let last = events.len() - 1;
        Self::law_a_turn_collects_and_submits_first(user_timer, woke, events);
        start.lemma_step(events, last);
        if last == 5 {
            start.lemma_step(events, 4);
        }
        if last > 6 {
            start.lemma_step(events, last - 1);
            Self::lemma_past_six(user_timer, woke, events, last);
        }
    }

    /// It is asked once.
    proof fn lemma_past_six(user_timer: Option<u64>, woke: usize, events: Seq<Event>, i: int)
        requires
            wait_start(user_timer, woke).answered(events),
            6 < i <= events.len(),
        ensures
            wait_start(user_timer, woke).after(events.take(i)).distance() < 12,
        decreases i,
    {
        let start = wait_start(user_timer, woke);
        Self::law_a_turn_collects_and_submits_first(user_timer, woke, events);
        start.lemma_step(events, i - 1);
        if i > 7 {
            Self::lemma_past_six(user_timer, woke, events, i - 1);
        }
    }

    /// How a turn sleeps. It sleeps only with a wake from other threads waited
    /// for, nothing come from them since they were told of it, and the link
    /// that wakes it for the latency ring handed to the kernel; and with all of
    /// that given, it does.
    pub proof fn law_how_a_turn_sleeps(user_timer: Option<u64>, woke: usize, events: Seq<Event>, i: int)
        requires
            wait_start(user_timer, woke).answered(events),
            0 <= i < events.len(),
        ensures
            ({
                let start = wait_start(user_timer, woke);
                &&& events[i] == Event::Remote(0, true) ==> start.step_at(events, i + 1) is LinkRings
                &&& start.step_at(events, i) is LinkRings && events[i] == Event::Submitted(Ok::<usize, Option<i32>>(1))
                    ==> start.step_at(events, i + 1) is Sleep
                &&& start.step_at(events, i + 1) is Sleep ==> i > 0 && events[i] == Event::Submitted(
                    Ok::<usize, Option<i32>>(1),
                ) && start.step_at(events, i) is LinkRings && start.step_at(events, i - 1) is PrepareToSleep
                    && events[i - 1] == Event::Remote(0, true)
            }),
    {
        let start = wait_start(user_timer, woke);
        Self::law_a_turn_collects_and_submits_first(user_timer, woke, events);
        start.lemma_step(events, i);
        if i > 0 {
            start.lemma_step(events, i - 1);
        }
    }

    /// How a turn wakes up. After it has slept, or could not link the rings
    /// for that, it submits the cancellations that came of it and what is
    /// queued, collects what was completed, and tells other threads that it is
    /// awake, in that order, before anything else; and whenever other threads
    /// were told that it sleeps and nothing came from them, they are told that
    /// it does not before the turn returns.
    pub proof fn law_how_a_turn_wakes_up(user_timer: Option<u64>, woke: usize, events: Seq<Event>, i: int)
        requires
            wait_start(user_timer, woke).answered(events),
            wait_start(user_timer, woke).after(events).step matches Step::Return(Ok(_)),
            0 <= i < events.len(),
        ensures
            ({
                let start = wait_start(user_timer, woke);
                &&& start.step_at(events, i) is Sleep || start.step_at(events, i) is SubmitMain || (start.step_at(events, i)
                    is LinkRings && (events[i] matches Event::Submitted(result) && result != Ok::<usize, Option<i32>>(
                    1,
                ))) ==> {
                    &&& i + 5 < events.len()
                    &&& start.step_at(events, i + 1) is FlushCancellationsAwake
                    &&& start.step_at(events, i + 2) is FlushRingsAwake
                    &&& start.step_at(events, i + 3) is ConsumeRingsAwake
                    &&& start.step_at(events, i + 4) is WakeUp
                    &&& start.step_at(events, i + 5) is AskToPreempt
                }
                &&& start.step_at(events, i) is LinkRings && events[i] is Full ==> start.step_at(events, i + 1) is SubmitMain
                &&& events[i] == Event::Remote(0, false) ==> start.step_at(events, i + 1) is WakeUp
                &&& (events[i] matches Event::Remote(count, _) && count > 0) ==> start.step_at(events, i + 1) is AskToPreempt
            }),
    {
        let start = wait_start(user_timer, woke);
        assert(events.take(events.len() as int) =~= events);
        start.lemma_step(events, i);
        if i + 1 < events.len() {
            start.lemma_step(events, i + 1);
        }
        if i + 2 < events.len() {
            start.lemma_step(events, i + 2);
        }
        if i + 3 < events.len() {
            start.lemma_step(events, i + 3);
        }
        if i + 4 < events.len() {
            start.lemma_step(events, i + 4);
        }
    }

    /// A user timer is armed on the way to sleep, and only then, with the time
    /// that the turn was given; without one the turn goes on to sleep at once.
    pub proof fn law_the_user_timer_is_armed(user_timer: Option<u64>, woke: usize, events: Seq<Event>, i: int)
        requires
            wait_start(user_timer, woke).answered(events),
            0 <= i < events.len(),
        ensures
            ({
                let start = wait_start(user_timer, woke);
                let asleep = events[i] == Event::Idle(false, true) && start.after(events.take(i)).woke == 0;
                &&& asleep ==> start.step_at(events, i + 1) == match user_timer {
                    Some(timer) => Step::ArmUserTimer(timer),
                    None => Step::PrepareToSleep,
                }
                &&& events[i] is Idle && !asleep ==> start.step_at(events, i + 1) is AskToPreempt
                &&& start.step_at(events, i + 1) matches Step::ArmUserTimer(timer) ==> user_timer == Some(timer) && asleep
                &&& start.step_at(events, i) is ArmUserTimer ==> start.step_at(events, i + 1) is PrepareToSleep
                    || start.step_at(events, i + 1) is Return
            }),
    {
        let start = wait_start(user_timer, woke);
        start.lemma_step(events, i);
        Self::law_a_turn_ends(user_timer, woke, events.take(i));
    }

    /// A turn ends: it takes at most eighteen steps.
    pub proof fn law_a_turn_ends(user_timer: Option<u64>, woke: usize, events: Seq<Event>)
        requires
            wait_start(user_timer, woke).answered(events),
        ensures
            events.len() <= 18,
            wait_start(user_timer, woke).after(events).distance()
                + events.len() <= 18,
            wait_start(user_timer, woke).after(events).wf(),
            wait_start(user_timer, woke).after(events).user_timer
                == user_timer,
        decreases events.len(),
    {
        if events.len() > 0 {
            Self::law_a_turn_ends(user_timer, woke, events.drop_last());
        }
    }

    /// The reactor sleeps only where nothing was woken in the turn, no task
    /// queue was waiting to run, and the rings allowed it; and where it sleeps
    /// with a user timer set, that timer was armed before.
    pub proof fn law_sleeps_only_when_idle(user_timer: Option<u64>, woke: usize, events: Seq<Event>)
        requires
            wait_start(user_timer, woke).answered(events),
            wait_start(user_timer, woke).after(events).is_sleeping(),
        ensures
            woke == 0,
            forall|i: int| 0 <= i < events.len() ==> ((#[trigger] events[i]) matches Event::Woke(count) ==> count == 0),
            exists|i: int| 0 <= i < events.len() && #[trigger] events[i] == Event::Idle(false, true),
            user_timer matches Some(timer) ==> ({
                let wait = wait_start(user_timer, woke).after(events);
                wait.step == Step::ArmUserTimer(timer) || exists|i: int| #[trigger] wait_start(user_timer, woke).arms_at(events, i)
            }),
    {
        Self::lemma_slept(user_timer, woke, events);
        Self::law_a_turn_ends(user_timer, woke, events);
    }

    proof fn lemma_slept(user_timer: Option<u64>, woke: usize, events: Seq<Event>)
        requires
            wait_start(user_timer, woke).answered(events),
        ensures
            ({
                let wait = wait_start(user_timer, woke).after(events);
                &&& wait.woke == 0 ==> woke == 0 && forall|i: int|
                    0 <= i < events.len() ==> ((#[trigger] events[i]) matches Event::Woke(count) ==> count == 0)
                &&& wait.should_sleep ==> wait.woke == 0 && exists|i: int|
                    0 <= i < events.len() && #[trigger] events[i] == Event::Idle(false, true)
                &&& wait.is_sleeping() && user_timer is Some && !(wait.step is ArmUserTimer) ==> exists|i: int| #[trigger] wait_start(user_timer, woke).arms_at(events, i)
            }),
        decreases events.len(),
    {
        let start = wait_start(user_timer, woke);
        if events.len() > 0 {
            let earlier = events.drop_last();
            let last = events.len() - 1;
            Self::lemma_slept(user_timer, woke, earlier);
            Self::law_a_turn_ends(user_timer, woke, earlier);
            let before = start.after(earlier);
            let wait = start.after(events);
            assert(events[last] == events.last());
            assert forall|i: int| 0 <= i < earlier.len() implies #[trigger] earlier[i] == events[i] by {
            }
            if wait.woke == 0 {
                assert(before.woke == 0);
                assert forall|i: int| 0 <= i < events.len() implies ((#[trigger] events[i]) matches Event::Woke(count) ==> count
                    == 0) by {
                    if i < last {
                        assert(earlier[i] == events[i]);
                    }
                }
            }
            if before.should_sleep {
                let i = choose|i: int| 0 <= i < earlier.len() && #[trigger] earlier[i] == Event::Idle(false, true);
                assert(events[i] == Event::Idle(false, true));
            }
            if wait.is_sleeping() && user_timer is Some && !(wait.step is ArmUserTimer) {
                if before.is_sleeping() && !(before.step is ArmUserTimer) {
                    let i = choose|i: int| #[trigger] start.arms_at(earlier, i);
                    assert(earlier.take(i) =~= events.take(i));
                    assert(start.arms_at(events, i));
                } else {
                    assert(earlier =~= events.take(last));
                    assert(start.arms_at(events, last));
                }
            }
        }
    }
}

fn on_or_out(event: Event, on: Step) -> (step: Step)
    requires
        event is Submitted,
    ensures
        step == unless_failed(event, on),
{
    match event {
        Event::Submitted(result) => match submitted(result) {
            Ok(_) => on,
            Err(errno) => Step::Return(Err(errno)),
        },
        _ => on,
    }
}

} // verus!
