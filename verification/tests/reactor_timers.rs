//! The reactor's view of the timer wheel.

use glommio::timer::reactor_adapter::ReactorTimers;
use glommio::timer::time::{Duration, Instant};
use std::task::Waker;

fn clock() -> Instant {
    Instant::from_nanos(3_000_000_777)
}


// Helper: a waker that does nothing when woken.
fn dummy_waker() -> Waker {
    Waker::noop().clone()
}

#[test]
fn test_insert_and_process() {
    let now = clock();
    let mut timers = ReactorTimers::new(now);

    // Insert a timer and get ID
    let _id = timers.insert(now + Duration::from_millis(100), dummy_waker());
    assert_eq!(timers.len(), 1);

    // Process before expiry - should not wake
    let mut wakers = Vec::new();
    let next = timers.process_timers(now, &mut wakers);
    assert_eq!(wakers.len(), 0);
    assert!(next.is_some());
    assert_eq!(timers.len(), 1);

    // Process after expiry
    wakers.clear();
    timers.process_timers(now + Duration::from_millis(150), &mut wakers);
    assert_eq!(wakers.len(), 1);
    assert_eq!(timers.len(), 0);
}

#[test]
fn test_remove() {
    let now = clock();
    let mut timers = ReactorTimers::new(now);

    // Insert and get ID
    let id = timers.insert(now + Duration::from_millis(100), dummy_waker());
    assert_eq!(timers.len(), 1);

    // Remove the timer using ID
    assert!(timers.remove(id).is_some());
    assert_eq!(timers.len(), 0);

    // Try to remove again with same ID - should return false
    assert!(timers.remove(id).is_none());
}

#[test]
fn test_removing_twice_reports_the_second_as_absent() {
    let now = clock();
    let mut timers = ReactorTimers::new(now);

    let id = timers.insert(now + Duration::from_millis(100), dummy_waker());
    assert_eq!(timers.len(), 1);

    assert!(
        timers.remove(id).is_some(),
        "the first removal withdraws it"
    );
    assert_eq!(timers.len(), 0);
    assert!(
        timers.remove(id).is_none(),
        "the second finds nothing to withdraw"
    );
}

#[test]
fn test_multiple_timers() {
    let now = clock();
    let mut timers = ReactorTimers::new(now);

    // Insert multiple timers
    let id1 = timers.insert(now + Duration::from_millis(100), dummy_waker());
    let id2 = timers.insert(now + Duration::from_millis(200), dummy_waker());
    let id3 = timers.insert(now + Duration::from_millis(300), dummy_waker());

    assert_eq!(timers.len(), 3);

    // Remove one timer
    assert!(timers.remove(id2).is_some());
    assert_eq!(timers.len(), 2);

    // The two that were not withdrawn are still withdrawable; the one
    // that was is not.
    assert!(timers.remove(id2).is_none(), "already gone");
    assert!(timers.remove(id1).is_some());
    assert!(timers.remove(id3).is_some());
    assert_eq!(timers.len(), 0);
}

#[test]
fn a_poll_says_how_long_to_sleep() {
    let now = clock();
    let mut timers: ReactorTimers<u32> = ReactorTimers::new(now);
    let mut woken = Vec::new();
    assert_eq!(timers.process_timers(now, &mut woken), None);

    timers.insert(now + Duration::from_micros(2_500), 1);
    timers.insert(now + Duration::from_micros(700), 2);
    assert_eq!(
        timers.process_timers(now, &mut woken),
        Some(Duration::from_micros(700))
    );
    assert!(woken.is_empty());

    let later = now + Duration::from_micros(900);
    assert_eq!(
        timers.process_timers(later, &mut woken),
        Some(Duration::from_micros(1_600))
    );
    assert_eq!(woken, vec![2]);

    assert_eq!(
        timers.process_timers(now + Duration::from_millis(3), &mut woken),
        None
    );
    assert_eq!(woken, vec![2, 1]);
    assert!(timers.is_empty());
}

#[test]
fn a_fired_timer_is_no_longer_contained() {
    let now = clock();
    let mut timers: ReactorTimers<u32> = ReactorTimers::new(now);
    let id = timers.insert(now + Duration::from_millis(5), 9);
    assert!(timers.contains(id));
    let mut woken = Vec::new();
    timers.process_timers(now + Duration::from_millis(5), &mut woken);
    assert!(!timers.contains(id));
    assert_eq!(timers.remove(id), None);
}
