//! Combinators over futures.

use crate::timer::time::Duration;
use vstd::prelude::*;

verus! {

/// A deadline arrived first.
#[derive(Debug, Clone, Copy, PartialEq, Eq)]
pub struct TimedOut {
    /// How long was waited.
    pub after: Duration,
}

/// What a race against a deadline comes to.
pub open spec fn race<T>(dur: Duration, future: Option<T>, timer: bool) -> Option<Result<T, TimedOut>> {
    match future {
        Some(output) => Some(Ok(output)),
        None => if timer {
            Some(Err(TimedOut { after: dur }))
        } else {
            None
        },
    }
}

/// Races a future against a deadline, whatever the future returns: one poll,
/// given what polling the future gave and whether the timer has fired.
///
/// Gives back the future's output if it finishes in time, or [`TimedOut`] if
/// the deadline arrives first, and nothing as long as neither has happened.
/// The output is handed back untouched, so a future that itself returns a
/// `Result` yields a `Result` inside a `Result` and the caller decides what to
/// do with the two failures.
///
/// The future is polled before the timer, so one that completes exactly as
/// the deadline arrives reports its value rather than a timeout. A caller that
/// has an answer should be given it.
pub fn timeout<T>(dur: Duration, future: Option<T>, timer: bool) -> (outcome: Option<Result<T, TimedOut>>)
    ensures
        outcome == race(dur, future, timer),
{
    match future {
        Some(output) => Some(Ok(output)),
        None => {
            if timer {
                Some(Err(TimedOut { after: dur }))
            } else {
                None
            }
        },
    }
}

/// A future that is ready reports its value, whether or not the deadline has
/// arrived; one that is not reports a timeout exactly when it has.
pub proof fn law_a_ready_future_beats_the_timer<T>(dur: Duration, output: T, timer: bool)
    ensures
        race(dur, Some(output), timer) == Some(Ok::<T, TimedOut>(output)),
        race::<T>(dur, None, timer) == if timer {
            Some(Err::<T, TimedOut>(TimedOut { after: dur }))
        } else {
            None
        },
{
}

} // verus!
