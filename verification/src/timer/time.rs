//! Points in time and spans between them, in whole nanoseconds.
//!
//! Nothing here reads a clock. An [`Instant`] counts nanoseconds from an
//! origin of the caller's choosing, which is all the timers ever ask of one.

use vstd::prelude::*;

verus! {

/// Nanoseconds in one millisecond, which is one tick of every wheel.
pub const NANOS_PER_MILLI: u128 = 1_000_000;

/// A span of time.
#[derive(Debug, Clone, Copy, PartialEq, Eq, PartialOrd, Ord, Hash, Structural)]
pub struct Duration {
    /// The span in nanoseconds.
    pub nanos: u128,
}

impl Duration {
    /// A span of whole nanoseconds.
    pub fn from_nanos(nanos: u64) -> (duration: Duration)
        ensures
            duration.nanos == nanos,
    {
        Duration { nanos: nanos as u128 }
    }

    /// A span of whole microseconds.
    pub fn from_micros(micros: u64) -> (duration: Duration)
        ensures
            duration.nanos == micros * 1_000,
    {
        Duration { nanos: micros as u128 * 1_000 }
    }

    /// A span of whole milliseconds.
    pub fn from_millis(millis: u64) -> (duration: Duration)
        ensures
            duration.nanos == millis * NANOS_PER_MILLI,
            duration.nanos == millis * 1_000_000,
    {
        Duration { nanos: millis as u128 * NANOS_PER_MILLI }
    }

    /// A span of whole seconds.
    pub fn from_secs(secs: u64) -> (duration: Duration)
        ensures
            duration.nanos == secs * 1_000_000_000,
    {
        Duration { nanos: secs as u128 * 1_000_000_000 }
    }

    /// How many nanoseconds the span holds.
    pub fn as_nanos(self) -> (nanos: u128)
        ensures
            nanos == self.nanos,
    {
        self.nanos
    }

    /// How many whole milliseconds the span holds.
    pub fn as_millis(self) -> (millis: u128)
        ensures
            millis == self.nanos / NANOS_PER_MILLI,
            millis * 1_000_000 <= self.nanos < (millis + 1) * 1_000_000,
    {
        self.nanos / NANOS_PER_MILLI
    }
}

/// A point in time, counted in nanoseconds from an arbitrary origin.
#[derive(Debug, Clone, Copy, PartialEq, Eq, PartialOrd, Ord, Hash, Structural)]
pub struct Instant {
    /// Nanoseconds since the origin.
    pub nanos: u128,
}

impl Instant {
    /// The instant `nanos` nanoseconds after the origin.
    pub fn from_nanos(nanos: u128) -> (instant: Instant)
        ensures
            instant.nanos == nanos,
    {
        Instant { nanos }
    }

    /// Nanoseconds since the origin.
    pub fn as_nanos(self) -> (nanos: u128)
        ensures
            nanos == self.nanos,
    {
        self.nanos
    }

    /// The instant `span` after this one, if it can be represented.
    pub fn checked_add(self, span: Duration) -> (later: Option<Instant>)
        ensures
            later is Some <==> self.nanos + span.nanos <= u128::MAX,
            later is Some ==> later->0.nanos == self.nanos + span.nanos,
    {
        match self.nanos.checked_add(span.nanos) {
            Some(nanos) => Some(Instant { nanos }),
            None => None,
        }
    }

    /// The instant `span` before this one, if it can be represented.
    pub fn checked_sub(self, span: Duration) -> (earlier: Option<Instant>)
        ensures
            earlier is Some <==> span.nanos <= self.nanos,
            earlier is Some ==> earlier->0.nanos == self.nanos - span.nanos,
    {
        match self.nanos.checked_sub(span.nanos) {
            Some(nanos) => Some(Instant { nanos }),
            None => None,
        }
    }

    /// The span from `earlier` to this instant, or `None` when `earlier` is
    /// the later of the two.
    pub fn checked_duration_since(self, earlier: Instant) -> (span: Option<Duration>)
        ensures
            span is Some <==> earlier.nanos <= self.nanos,
            span is Some ==> span->0.nanos == self.nanos - earlier.nanos,
    {
        match self.nanos.checked_sub(earlier.nanos) {
            Some(nanos) => Some(Duration { nanos }),
            None => None,
        }
    }

    /// The span from `earlier` to this instant, or an empty one when
    /// `earlier` is the later of the two.
    pub fn saturating_duration_since(self, earlier: Instant) -> (span: Duration)
        ensures
            span.nanos == if earlier.nanos <= self.nanos {
                self.nanos - earlier.nanos
            } else {
                0
            },
    {
        match self.checked_duration_since(earlier) {
            Some(span) => span,
            None => Duration { nanos: 0 },
        }
    }
}

impl core::ops::Add<Duration> for Instant {
    type Output = Instant;

    fn add(self, span: Duration) -> (later: Instant) {
        Instant { nanos: self.nanos + span.nanos }
    }
}

impl vstd::std_specs::ops::AddSpecImpl<Duration> for Instant {
    open spec fn obeys_add_spec() -> bool {
        true
    }

    open spec fn add_req(self, span: Duration) -> bool {
        self.nanos + span.nanos <= u128::MAX
    }

    open spec fn add_spec(self, span: Duration) -> Instant {
        Instant { nanos: (self.nanos + span.nanos) as u128 }
    }
}

impl core::ops::Sub<Duration> for Instant {
    type Output = Instant;

    fn sub(self, span: Duration) -> (earlier: Instant) {
        Instant { nanos: self.nanos - span.nanos }
    }
}

impl vstd::std_specs::ops::SubSpecImpl<Duration> for Instant {
    open spec fn obeys_sub_spec() -> bool {
        true
    }

    open spec fn sub_req(self, span: Duration) -> bool {
        span.nanos <= self.nanos
    }

    open spec fn sub_spec(self, span: Duration) -> Instant {
        Instant { nanos: (self.nanos - span.nanos) as u128 }
    }
}

/// An instant moved by a span lies that span away, and moving it back undoes
/// that.
pub proof fn law_moving_back_and_forth(instant: Instant, span: Duration)
    requires
        instant.nanos + span.nanos <= u128::MAX,
    ensures
        <Instant as vstd::std_specs::ops::AddSpec<Duration>>::add_spec(instant, span).nanos == instant.nanos + span.nanos,
        <Instant as vstd::std_specs::ops::SubSpec<Duration>>::sub_spec(
            <Instant as vstd::std_specs::ops::AddSpec<Duration>>::add_spec(instant, span),
            span,
        ) == instant,
{
}

} // verus!
