//! From deadlines to ticks and back.

use super::policy::Rounding;
use crate::timer::time::Instant;
use vstd::prelude::*;

verus! {

/// Nanoseconds in one tick.
pub const PER_TICK: u128 = 1_000_000;

/// A span of nanoseconds as a whole number of ticks.
pub open spec fn rounded_ticks(nanos: int, rounding: Rounding) -> int {
    match rounding {
        Rounding::Up => (nanos + 999_999) / 1_000_000,
        Rounding::Nearest => (nanos + 500_000) / 1_000_000,
        Rounding::Down => nanos / 1_000_000,
    }
}

/// The tick a deadline is stored at. One before the wheel's start is stored at
/// the start, and one too far to count at the last tick there is.
pub open spec fn stored_tick(start: Instant, deadline: Instant, rounding: Rounding) -> int {
    if deadline.nanos < start.nanos {
        0
    } else if rounded_ticks(deadline.nanos - start.nanos, rounding) > u64::MAX {
        u64::MAX as int
    } else {
        rounded_ticks(deadline.nanos - start.nanos, rounding)
    }
}

/// How far below the tick it is stored at a deadline can lie.
pub open spec fn slack(rounding: Rounding) -> int {
    match rounding {
        Rounding::Up => 1_000_000,
        Rounding::Nearest => 500_000,
        Rounding::Down => 0,
    }
}

/// The earliest real time a deadline stored at `tick` can name, in
/// nanoseconds.
pub open spec fn earliest_at(start: Instant, tick: int, rounding: Rounding) -> int {
    start.nanos + tick * 1_000_000 - slack(rounding)
}

/// Instants this far from the end of time are beyond what a wheel can count
/// to.
pub open spec fn countable(start: Instant) -> bool {
    start.nanos + 0x1_0000_0000_0000_0000 * 1_000_000 <= u128::MAX
}

/// The tick a deadline is stored at.
pub fn tick_for(start: Instant, expires_at: Instant, rounding: Rounding) -> (tick: Option<u64>)
    ensures
        tick is None <==> expires_at.nanos < start.nanos,
        tick matches Some(t) ==> t == stored_tick(start, expires_at, rounding),
        tick matches Some(t) ==> t < u64::MAX ==> match rounding {
            Rounding::Up => expires_at.nanos <= start.nanos + t * 1_000_000 < expires_at.nanos + 1_000_000,
            Rounding::Nearest => start.nanos + t * 1_000_000 - 500_000 <= expires_at.nanos < start.nanos + t * 1_000_000
                + 500_000,
            Rounding::Down => start.nanos + t * 1_000_000 <= expires_at.nanos < start.nanos + t * 1_000_000 + 1_000_000,
        },
{
    match expires_at.checked_duration_since(start) {
        None => None,
        Some(elapsed) => {
            let nanos: u128 = elapsed.as_nanos();
            let whole: u128 = nanos / PER_TICK;
            let part: u128 = nanos % PER_TICK;
            let ticks: u128 = match rounding {
                Rounding::Up => if part > 0 {
                    whole + 1
                } else {
                    whole
                },
                Rounding::Down => whole,
                Rounding::Nearest => if part >= PER_TICK / 2 {
                    whole + 1
                } else {
                    whole
                },
            };
            assert(ticks == rounded_ticks(nanos as int, rounding));
            if ticks > u64::MAX as u128 {
                Some(u64::MAX)
            } else {
                Some(ticks as u64)
            }
        },
    }
}

/// The instant at which a tick begins.
pub fn tick_start(start: Instant, tick: u64) -> (instant: Instant)
    requires
        countable(start),
    ensures
        instant.nanos == start.nanos + tick * 1_000_000,
{
    Instant { nanos: start.nanos + tick as u128 * PER_TICK }
}

/// The earliest real time an entry recorded at `tick` could be due.
///
/// Placement moves a deadline to a whole tick, so the recorded tick is not the
/// deadline: how far below it the truth can lie is exactly what the rounding
/// policy decided. A bound that forgets that is a bound that can name a time
/// later than a live deadline, which is the one direction a caller sleeping on
/// this answer cannot survive.
pub fn tick_instant(start: Instant, tick: u64, rounding: Rounding) -> (instant: Instant)
    requires
        countable(start),
        tick > 0,
    ensures
        instant.nanos == earliest_at(start, tick as int, rounding),
{
    let slack_nanos: u128 = match rounding {
        // Rounded up, so the truth lies anywhere in the tick below.
        Rounding::Up => 1_000_000,
        // Rounded to the nearer tick, so it can have come up from as much as
        // half a tick below.
        Rounding::Nearest => 500_000,
        // Rounded down, so the truth is at or after the recorded tick.
        Rounding::Down => 0,
    };
    Instant { nanos: start.nanos + tick as u128 * PER_TICK - slack_nanos }
}

/// How many whole ticks lie between two instants.
pub fn whole_ticks(start: Instant, now: Instant) -> (ticks: u64)
    requires
        start.nanos <= now.nanos,
    ensures
        ticks == elapsed_ticks(start, now),
{
    let elapsed: u128 = (now.nanos - start.nanos) / PER_TICK;
    if elapsed > u64::MAX as u128 {
        u64::MAX
    } else {
        elapsed as u64
    }
}

/// How many whole ticks lie between two instants, up to the last that can be
/// counted.
pub open spec fn elapsed_ticks(start: Instant, now: Instant) -> int {
    stored_tick(start, now, Rounding::Down)
}

/// A later deadline is never stored at an earlier tick.
pub proof fn lemma_ticks_monotone(start: Instant, a: Instant, b: Instant, rounding: Rounding)
    requires
        a.nanos <= b.nanos,
    ensures
        stored_tick(start, a, rounding) <= stored_tick(start, b, rounding),
{
}

/// A deadline is never earlier than the earliest its tick can name.
pub proof fn lemma_not_before_tick(start: Instant, deadline: Instant, tick: int, rounding: Rounding)
    requires
        1 <= tick <= stored_tick(start, deadline, rounding),
    ensures
        earliest_at(start, tick, rounding) <= deadline.nanos,
{
}

/// A deadline stored before `tick` is no later than the earliest that tick can
/// name.
pub proof fn lemma_not_after_tick(start: Instant, deadline: Instant, tick: int, rounding: Rounding)
    requires
        stored_tick(start, deadline, rounding) < tick <= u64::MAX,
        start.nanos <= deadline.nanos,
    ensures
        deadline.nanos <= earliest_at(start, tick, rounding),
{
}

/// Rounding moves a deadline by at most one tick from the whole ticks before
/// it.
pub proof fn lemma_rounding_adds_at_most_one(start: Instant, now: Instant, rounding: Rounding)
    ensures
        elapsed_ticks(start, now) <= stored_tick(start, now, rounding) <= elapsed_ticks(start, now) + 1,
{
}

/// Rounding up never stores a deadline before it is due and rounding down never
/// after, each by less than a tick; rounding to the nearest is off by half a
/// tick at most. What lies on a tick is stored there, whichever way.
pub proof fn law_rounding_keeps_its_word(start: Instant, deadline: Instant, rounding: Rounding)
    requires
        start.nanos <= deadline.nanos,
        stored_tick(start, deadline, rounding) < u64::MAX,
    ensures
        ({
            let stored = start.nanos + stored_tick(start, deadline, rounding) * 1_000_000;
            &&& rounding == Rounding::Up ==> 0 <= stored - deadline.nanos < 1_000_000
            &&& rounding == Rounding::Down ==> 0 <= deadline.nanos - stored < 1_000_000
            &&& rounding == Rounding::Nearest ==> -500_000 <= deadline.nanos - stored < 500_000
            &&& (deadline.nanos - start.nanos) % 1_000_000 == 0 ==> stored == deadline.nanos
        }),
{
}

} // verus!
