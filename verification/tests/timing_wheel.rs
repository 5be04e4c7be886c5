//! The reactor's wheel.

use glommio::timer::slab::TimerId;
use glommio::timer::time::{Duration, Instant};
use glommio::timer::timing_wheel;
use glommio::timer::wheel::mask::SlotMask;
use std::task::Waker;

type TimingWheel = timing_wheel::TimingWheel<Waker>;

fn clock() -> Instant {
    Instant::from_nanos(7_000_000_123_456)
}


// Helper: a waker that does nothing when woken.
fn dummy_waker() -> Waker {
    Waker::noop().clone()
}

#[test]
fn a_sub_tick_deadline_is_reported_and_expired_at_its_real_time() {
    // The wheel's resolution must not become a floor under every sleep.
    // A caller asking for 300us gets 300us, not the millisecond the tick
    // it landed in ends at.
    let start = clock();
    let mut wheel = TimingWheel::new_at(start);
    wheel.insert(start + Duration::from_micros(300), dummy_waker());

    assert_eq!(
        wheel.next_expiry(),
        Some(start + Duration::from_micros(300)),
        "reported the tick boundary instead of the deadline asked for"
    );

    wheel.advance_to(start + Duration::from_micros(300));
    assert_eq!(wheel.drain_expired().len(), 1, "due at 300us");
}

#[test]
fn a_sub_tick_deadline_still_does_not_expire_early() {
    let start = clock();
    let mut wheel = TimingWheel::new_at(start);
    wheel.insert(start + Duration::from_micros(300), dummy_waker());

    wheel.advance_to(start + Duration::from_micros(299));
    assert_eq!(wheel.drain_expired().len(), 0, "not due at 299us");
}

#[test]
fn crossing_idle_time_costs_nothing_when_there_is_no_work() {
    let start = clock();
    let mut wheel = TimingWheel::new_at(start);

    // An hour of nothing. Stepping through it a millisecond at a time
    // would be 3.6 million iterations.
    wheel.advance_to(start + Duration::from_secs(3600));

    assert_eq!(wheel.ticks_processed(), 0, "no work, so no ticks");
    assert_eq!(wheel.current_time(), start + Duration::from_secs(3600), "but time still moved");
}

#[test]
fn crossing_idle_time_costs_the_work_not_the_interval() {
    let start = clock();
    let mut wheel = TimingWheel::new_at(start);
    wheel.insert(start + Duration::from_secs(3600), dummy_waker());

    wheel.advance_to(start + Duration::from_secs(3540));

    assert!(
        wheel.ticks_processed() < 1_000,
        "processed {} ticks to cross 59 minutes holding one timer",
        wheel.ticks_processed()
    );
    assert_eq!(wheel.drain_expired().len(), 0, "not due yet");
}

#[test]
fn cancelling_the_last_timer_in_a_slot_empties_the_level() {
    let start = clock();
    let mut wheel = TimingWheel::new_at(start);
    let id = wheel.insert(start + Duration::from_millis(50), dummy_waker());

    assert!(wheel.next_expiry().is_some(), "a deadline is pending");
    assert!(wheel.remove(id).is_some());
    assert_eq!(
        wheel.next_expiry(),
        None,
        "a slot whose last timer was cancelled must stop being reported \
         as occupied, or the reactor wakes for a timer that is not there"
    );

    wheel.advance_to(start + Duration::from_millis(50));
    assert_eq!(wheel.ticks_processed(), 0, "and there was nothing to do");
}

#[test]
fn a_deadline_between_ticks_does_not_expire_at_the_earlier_one() {
    // A deadline is rounded up to a whole tick, never down. Truncating
    // places a timer due at 1.7ms in tick 1 and expires it at 1.0ms --
    // before it is due. The future then finds itself not ready and arms
    // again, so one sleep costs several registrations.
    //
    // Checked here rather than through the executor because the reactor
    // sleeps until the true deadline when nothing else is running, which
    // hides it; and because inline storage compares instants exactly, so
    // it only appears once the staged wheel has promoted.
    let start = clock();
    let mut wheel = TimingWheel::new_at(start);
    wheel.insert(start + Duration::from_micros(1_700), dummy_waker());

    wheel.advance_to(start + Duration::from_millis(1));
    assert_eq!(
        wheel.drain_expired().len(),
        0,
        "expired at 1ms a timer that is due at 1.7ms"
    );

    wheel.advance_to(start + Duration::from_millis(2));
    assert_eq!(wheel.drain_expired().len(), 1, "due by 2ms");
}

#[test]
fn test_basic_insert_and_expire() {
    let start = clock();
    let mut wheel = TimingWheel::new_at(start);

    // Insert timer expiring in 100ms
    let id = wheel.insert(start + Duration::from_millis(100), dummy_waker());

    assert_eq!(wheel.len(), 1);

    // Advance past expiry
    wheel.advance_to(start + Duration::from_millis(100));

    // Should have one expired timer
    let expired = wheel.drain_expired();
    assert_eq!(expired.len(), 1);
    assert_eq!(expired[0].0, id);

    // Wheel should be empty now
    assert_eq!(wheel.len(), 0);
}

#[test]
fn test_remove_timer() {
    let start = clock();
    let mut wheel = TimingWheel::new_at(start);

    let id = wheel.insert(start + Duration::from_millis(100), dummy_waker());
    assert_eq!(wheel.len(), 1);

    // Remove the timer
    assert!(wheel.remove(id).is_some());
    assert_eq!(wheel.len(), 0);

    // Advance time - should not expire
    wheel.advance_to(start + Duration::from_millis(100));
    assert_eq!(wheel.drain_expired().len(), 0);
}

#[test]
fn test_multiple_timers_same_slot() {
    let start = clock();
    let mut wheel = TimingWheel::new_at(start);

    // Insert 3 timers at same expiry
    let id1 = wheel.insert(start + Duration::from_millis(50), dummy_waker());
    let id2 = wheel.insert(start + Duration::from_millis(50), dummy_waker());
    let id3 = wheel.insert(start + Duration::from_millis(50), dummy_waker());

    assert_eq!(wheel.len(), 3);

    wheel.advance_to(start + Duration::from_millis(50));

    let expired: Vec<_> = wheel.drain_expired().into_iter().map(|(id, _)| id).collect();
    assert_eq!(expired.len(), 3);
    assert!(expired.contains(&id1));
    assert!(expired.contains(&id2));
    assert!(expired.contains(&id3));
}

#[test]
fn test_timer_ordering() {
    let start = clock();
    let mut wheel = TimingWheel::new_at(start);

    // Insert timers in reverse order
    wheel.insert(start + Duration::from_millis(30), dummy_waker());
    wheel.insert(start + Duration::from_millis(10), dummy_waker());
    wheel.insert(start + Duration::from_millis(20), dummy_waker());

    // Advance to 10ms
    wheel.advance_to(start + Duration::from_millis(10));
    assert_eq!(wheel.drain_expired().len(), 1);

    // Advance to 20ms
    wheel.advance_to(start + Duration::from_millis(20));
    assert_eq!(wheel.drain_expired().len(), 1);

    // Advance to 30ms
    wheel.advance_to(start + Duration::from_millis(30));
    assert_eq!(wheel.drain_expired().len(), 1);
}

#[test]
fn test_cascading_level_1_to_0() {
    let start = clock();
    let mut wheel = TimingWheel::new_at(start);

    // Insert timer at 500ms (will be in Level 1)
    let id = wheel.insert(start + Duration::from_millis(500), dummy_waker());

    // Advance to just before Level 1 cascade (255ms)
    wheel.advance_to(start + Duration::from_millis(255));
    assert_eq!(wheel.drain_expired().len(), 0);

    // Advance to 256ms - should cascade from Level 1 to Level 0
    wheel.advance_to(start + Duration::from_millis(256));
    assert_eq!(wheel.drain_expired().len(), 0); // Not expired yet

    // Advance to 500ms - should expire
    wheel.advance_to(start + Duration::from_millis(500));
    let expired = wheel.drain_expired();
    assert_eq!(expired.len(), 1);
    assert_eq!(expired[0].0, id);
}

#[test]
fn test_long_duration_timer() {
    let start = clock();
    let mut wheel = TimingWheel::new_at(start);

    // Insert timer at 1 hour (will be in Level 3)
    let id = wheel.insert(start + Duration::from_secs(3600), dummy_waker());

    assert_eq!(wheel.len(), 1);

    // Advance to expiry
    wheel.advance_to(start + Duration::from_secs(3600));

    let expired = wheel.drain_expired();
    assert_eq!(expired.len(), 1);
    assert_eq!(expired[0].0, id);
}

#[test]
fn test_overflow_to_btreemap() {
    let start = clock();
    let mut wheel = TimingWheel::new_at(start);

    // Insert timer at 24 hours (should overflow to BTreeMap)
    let id = wheel.insert(start + Duration::from_secs(86400), dummy_waker());

    assert_eq!(wheel.len(), 1);

    // Advance to expiry
    wheel.advance_to(start + Duration::from_secs(86400));

    let expired = wheel.drain_expired();
    assert_eq!(expired.len(), 1);
    assert_eq!(expired[0].0, id);
}

#[test]
fn test_past_timer_expires_immediately() {
    let start = clock();
    let mut wheel = TimingWheel::new_at(start);

    // Insert timer in the past
    wheel.insert(start - Duration::from_millis(100), dummy_waker());

    // Should expire immediately
    assert_eq!(wheel.drain_expired().len(), 1);
}

#[test]
fn test_wrap_around() {
    let start = clock();
    let mut wheel = TimingWheel::new_at(start);

    // Insert timer at slot 10
    let id1 = wheel.insert(start + Duration::from_millis(10), dummy_waker());

    // Advance to slot 260 (wraps around Level 0)
    wheel.advance_to(start + Duration::from_millis(260));

    // Insert another timer at slot 10 (should be different from id1)
    let id2 = wheel.insert(start + Duration::from_millis(260 + 10), dummy_waker());

    assert_ne!(id1, id2);

    // First timer should have expired
    assert!(wheel.drain_expired().into_iter().any(|(id, _)| id == id1));

    // Advance to second timer
    wheel.advance_to(start + Duration::from_millis(270));
    assert!(wheel.drain_expired().into_iter().any(|(id, _)| id == id2));
}
#[test]
fn earlier_coarse_timer_must_not_be_hidden_by_fine_timer() {
    let start = clock();
    let mut wheel = TimingWheel::new_at(start);
    wheel.insert(start + Duration::from_millis(300), Waker::noop().clone());
    wheel.advance_to(start + Duration::from_millis(250));
    wheel.insert(start + Duration::from_millis(400), Waker::noop().clone());
    let next = wheel.next_expiry().unwrap().saturating_duration_since(start);
    assert!(
        next <= Duration::from_millis(300),
        "next wake is {next:?}, missing deadline at 300ms"
    );
}

#[test]
fn a_fractional_deadline_in_a_coarse_level_fires_on_time() {
    // 255.5ms rounds up to tick 256, one past the level-0 window, so it
    // waits in a coarse level for a cascade that lands on the very tick it
    // is due. Finding it only then would fire it a fraction of a tick late.
    let start = clock();
    let mut wheel = TimingWheel::new_at(start);
    let deadline = start + Duration::from_micros(255_500);
    wheel.insert(deadline, Waker::noop().clone());
    wheel.advance_to(deadline);
    assert_eq!(
        wheel.drain_expired().len(),
        1,
        "a deadline that has arrived was left waiting for its cascade"
    );
}

#[test]
fn a_fractional_deadline_in_a_coarse_level_is_not_slept_past() {
    // 255.5ms rounds to tick 256, which is one past the level-0 window, so
    // the deadline is only reachable through a cascade. Reporting the
    // cascade boundary itself would name a time later than the deadline.
    let start = clock();
    let mut wheel = TimingWheel::new_at(start);
    let deadline = start + Duration::from_micros(255_500);
    wheel.insert(deadline, Waker::noop().clone());
    let next = wheel.next_expiry().unwrap();
    assert!(
        next <= deadline,
        "next wake is {:?} past the deadline",
        next.saturating_duration_since(deadline)
    );
}
#[test]
fn cache_must_not_hide_an_earlier_deadline_after_invalidation() {
    let start = clock();
    let mut wheel = TimingWheel::new_at(start);
    // A and B share a level-0 slot; B is the minimum.
    let _a = wheel.insert(start + Duration::from_micros(1_100), Waker::noop().clone());
    let b = wheel.insert(start + Duration::from_micros(1_050), Waker::noop().clone());
    // Withdrawing B invalidates the cached minimum; A is still there.
    wheel.remove(b);
    // C is later than A, same slot.
    let _c = wheel.insert(start + Duration::from_micros(1_900), Waker::noop().clone());

    let next = wheel.next_expiry().unwrap();
    let a_due = start + Duration::from_micros(1_100);
    assert!(
        next <= a_due,
        "next_expiry is {:?} past a deadline the wheel still holds",
        next.saturating_duration_since(a_due)
    );
}
#[test]
fn coarse_timer_must_not_make_next_expiry_land_in_the_past() {
    let start = clock();
    let mut wheel = TimingWheel::new_at(start);
    // A single 10s timer: lives in a coarse level for a long time.
    wheel.insert(start + Duration::from_secs(10), Waker::noop().clone());
    // Step to the tick just before a level-1 cascade boundary (256ms).
    wheel.advance_to(start + Duration::from_millis(255));
    let now = wheel.current_time();
    let next = wheel.next_expiry().unwrap();
    assert!(
        next > now,
        "next_expiry is {:?} in the PAST at tick 255, so the reactor sleeps zero and spins",
        now.saturating_duration_since(next)
    );
}
#[test]
fn coarse_search_must_not_start_on_the_emptied_cursor_slot() {
    let start = clock();
    let mut wheel = TimingWheel::new_at(start);
    wheel.advance_to(start + Duration::from_millis(255));
    wheel.insert(
        start + Duration::from_millis(255 + 16_383),
        Waker::noop().clone(),
    );
    wheel.insert(
        start + Duration::from_millis(255 + 300),
        Waker::noop().clone(),
    );
    let next = wheel.next_expiry().unwrap();
    let truth = start + Duration::from_millis(555);
    assert!(
        next <= truth,
        "next_expiry is {:?} past the earliest deadline",
        next.saturating_duration_since(truth)
    );
}

#[test]
fn a_coarse_timer_alone_in_the_cursor_slot_is_still_found() {
    let start = clock();
    let mut wheel = TimingWheel::new_at(start);
    wheel.advance_to(start + Duration::from_millis(255));
    wheel.insert(
        start + Duration::from_millis(255 + 16_383),
        Waker::noop().clone(),
    );
    assert!(
        wheel.next_expiry().is_some(),
        "skipping the cursor slot lost the only timer in the wheel"
    );
}
#[test]
fn a_coarse_level_never_reports_a_deadline_already_past() {
    // In the tick before a coarse slot cascades, the bucket bound lands on
    // the cursor. Answering with it means naming a time at or before now,
    // which the reactor turns into a zero-length sleep that wakes straight
    // back into the same answer, for the rest of the millisecond.
    let start = clock();
    let mut wheel = TimingWheel::new_at(start);
    wheel.insert(start + Duration::from_millis(500), Waker::noop().clone());

    let now = start + Duration::from_micros(255_001);
    wheel.advance_to(now);
    assert_eq!(wheel.drain_expired().len(), 0, "nothing is due at 255ms");

    let next = wheel.next_expiry().expect("the timer is still held");
    assert!(
        next > now,
        "reported {:?} before now, so the reactor sleeps zero and spins",
        now.saturating_duration_since(next)
    );
}

#[test]
fn distance_to_next_agrees_with_the_scan_it_replaced() {
    // The word-at-a-time search is only worth having if it answers exactly
    // what the bit-at-a-time one did, so the old body is the oracle.
    fn scan(held: &[bool], from: usize, slots: usize) -> Option<usize> {
        (0..slots).find(|offset| held[(from + offset) % slots])
    }

    fn xorshift(state: &mut u64) -> u64 {
        let mut x = *state;
        x ^= x << 13;
        x ^= x >> 7;
        x ^= x << 17;
        *state = x;
        x
    }

    for &slots in &[64usize, 256] {
        // Empty, and every single occupied slot on its own.
        let empty = SlotMask::new(slots);
        for from in 0..slots {
            assert_eq!(empty.distance_to_next(from), None);
        }
        for occupied in 0..slots {
            let mut mask = SlotMask::new(slots);
            let mut held = vec![false; slots];
            mask.set(occupied);
            held[occupied] = true;
            for from in 0..slots {
                assert_eq!(
                    mask.distance_to_next(from),
                    scan(&held, from, slots),
                    "slots {slots}, only {occupied} occupied, searching from {from}"
                );
            }
        }

        // Then arbitrary populations, including the full one.
        let mut rng = 0x9E37_79B9_7F4A_7C15u64;
        for case in 0..200 {
            let mut mask = SlotMask::new(slots);
            let mut held = vec![false; slots];
            for slot in 0..slots {
                if case == 0 || xorshift(&mut rng) % 4 == 0 {
                    mask.set(slot);
                    held[slot] = true;
                }
            }
            for from in 0..slots {
                assert_eq!(
                    mask.distance_to_next(from),
                    scan(&held, from, slots),
                    "slots {slots}, case {case}, searching from {from}"
                );
            }
        }
    }
}

/// Both halves of the wheel's contract, over randomized traffic.
///
/// A timer may fire late; it may never fire early. And `next_expiry` may
/// name a time earlier than the truth, costing a wasted poll; it may never
/// name one later, which would sleep past a deadline.
#[test]
fn contract_holds_under_randomized_traffic() {
    fn xorshift(state: &mut u64) -> u64 {
        let mut x = *state;
        x ^= x << 13;
        x ^= x >> 7;
        x ^= x << 17;
        *state = x;
        x
    }

    for seed in 1..=200u64 {
        let mut rng = seed.wrapping_mul(0x9E37_79B9_7F4A_7C15) | 1;
        let start = clock();
        let mut wheel = TimingWheel::new_at(start);
        let mut live: Vec<(TimerId, Instant)> = Vec::new();
        let mut now = start;

        for step in 0..400 {
            match xorshift(&mut rng) % 10 {
                0..=4 => {
                    // Three bands, because one modulus cannot reach both
                    // ends: under 90s never places anything in level 3 or
                    // the overflow map, and drawing only from days means
                    // nothing ever fires inside a run. Sub-millisecond
                    // fractions throughout, so rounding is exercised.
                    let micros = match xorshift(&mut rng) % 3 {
                        0 => xorshift(&mut rng) % 4_000,
                        1 => xorshift(&mut rng) % 90_000_000,
                        _ => xorshift(&mut rng) % 200_000_000_000,
                    };
                    let deadline = now + Duration::from_micros(micros);
                    let id = wheel.insert(deadline, Waker::noop().clone());
                    live.push((id, deadline));
                }
                5..=6 if !live.is_empty() => {
                    let i = (xorshift(&mut rng) % live.len() as u64) as usize;
                    let (id, _) = live.swap_remove(i);
                    wheel.remove(id);
                }
                _ => {
                    // Deliberately fine as well as coarse: a step that
                    // lands inside the millisecond a deadline sits in is
                    // the only thing that catches a timer firing early.
                    let step_us = match xorshift(&mut rng) % 3 {
                        0 => xorshift(&mut rng) % 900,
                        1 => xorshift(&mut rng) % 50_000,
                        _ => xorshift(&mut rng) % 3_000_000,
                    };
                    now = now + Duration::from_micros(step_us);
                    wheel.advance_to(now);
                    let drained = wheel.drain_expired();
                    // Nothing is due and nothing is waiting to be drained,
                    // so any deadline the wheel names has to be in the
                    // future. Naming the present or the past makes the
                    // reactor sleep for zero and wake straight back into
                    // the same answer.
                    if let Some(next) = wheel.next_expiry() {
                        assert!(
                            next > now,
                            "seed {seed} step {step}: next_expiry is {:?} in the PAST",
                            now.saturating_duration_since(next)
                        );
                    }
                    for (id, _) in drained {
                        let pos = live.iter().position(|(l, _)| *l == id);
                        if let Some(pos) = pos {
                            let (_, deadline) = live.swap_remove(pos);
                            assert!(
                                deadline <= now,
                                "seed {seed} step {step}: fired {:?} EARLY",
                                deadline.saturating_duration_since(now)
                            );
                        }
                    }
                }
            }

            if let (Some(next), Some(truth)) =
                (wheel.next_expiry(), live.iter().map(|(_, d)| *d).min())
            {
                assert!(
                    next <= truth,
                    "seed {seed} step {step}: next_expiry is {:?} LATER than a live deadline",
                    next.saturating_duration_since(truth)
                );
            }
        }
    }
}
