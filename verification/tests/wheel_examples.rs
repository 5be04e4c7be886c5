//! A wheel in use, and the answers it gives on chosen values.

use glommio::timer::time::{Duration, Instant};
use glommio::timer::wheel::policy::{validate, validate_layout, LayoutError};
use glommio::timer::wheel::{CoarseQuery, Millis, Policy, Rounding, TimingWheel};

fn clock() -> Instant {
    Instant::from_nanos(5_000_000_000)
}

#[test]
fn insert_then_withdraw_before_it_fires() {
    let start = clock();
    let mut wheel: TimingWheel<&str, Millis> = TimingWheel::starting_at(start);

    let key = wheel.insert(start + Duration::from_millis(50), "read timeout");

    // Nothing is due yet, and the wheel says when to come back.
    wheel.advance_to(start + Duration::from_millis(10));
    let mut due = Vec::new();
    wheel.drain_expired_into(&mut due);
    assert!(due.is_empty());
    assert!(wheel.next_expiry().unwrap() <= start + Duration::from_millis(50));

    // The read completed, so withdraw the timeout before it fires.
    assert_eq!(wheel.remove(key), Some("read timeout"));
    assert!(wheel.is_empty());
}

struct Coarse;
impl Policy for Coarse {
    fn slots() -> Vec<usize> {
        vec![64, 64, 64]
    }
    fn resolution() -> Vec<u64> {
        vec![1, 64, 4_096]
    }
    const ROUNDING: Rounding = Rounding::Down;
}

#[test]
fn building_a_wheel_checks_the_layout_tiles() {
    // Each level here spans exactly what the one below it covers,
    // 64 x 1 and then 64 x 64.
    assert_eq!(validate::<Coarse>(), Ok(()));
    let wheel: TimingWheel<(), Coarse> = TimingWheel::new(clock());
    assert!(wheel.is_empty());
}

#[test]
fn a_layout_that_does_not_tile_is_named() {
    assert_eq!(validate::<Millis>(), Ok(()));
    assert_eq!(
        validate_layout(&vec![64, 64], &vec![1]),
        Err(LayoutError::LevelCount)
    );
    assert_eq!(
        validate_layout(&vec![], &vec![]),
        Err(LayoutError::NoLevels)
    );
    assert_eq!(
        validate_layout(&vec![64], &vec![2]),
        Err(LayoutError::FinestLevel)
    );
    assert_eq!(
        validate_layout(&vec![64, 48], &vec![1, 64]),
        Err(LayoutError::SlotCount { level: 1 })
    );
    assert_eq!(
        validate_layout(&vec![64, 64], &vec![1, 96]),
        Err(LayoutError::Resolution { level: 1 })
    );
    assert_eq!(
        validate_layout(&vec![64, 64], &vec![1, 128]),
        Err(LayoutError::Tiling { level: 1 })
    );
    assert_eq!(
        validate_layout(&vec![1 << 32, 1 << 32], &vec![1, 1 << 32]),
        Err(LayoutError::Reach)
    );
}

struct Exact;
impl Policy for Exact {
    fn slots() -> Vec<usize> {
        Millis::slots()
    }
    fn resolution() -> Vec<u64> {
        Millis::resolution()
    }
    const COARSE_QUERY: CoarseQuery = CoarseQuery::ExactMinimum;
}

#[test]
fn a_bucket_bound_is_early_and_an_exact_minimum_is_not() {
    let start = clock();
    let deadline = start + Duration::from_millis(700);

    // 700 lies in the bucket that begins at tick 512.
    let mut bound: TimingWheel<u8, Millis> = TimingWheel::starting_at(start);
    bound.insert(deadline, 0);
    assert_eq!(bound.next_expiry(), Some(start + Duration::from_millis(511)));

    let mut exact: TimingWheel<u8, Exact> = TimingWheel::starting_at(start);
    exact.insert(deadline, 0);
    assert_eq!(exact.next_expiry(), Some(deadline));
}

#[test]
fn what_is_due_is_answered_with_the_present() {
    let start = clock();
    let mut wheel: TimingWheel<u8, Millis> = TimingWheel::starting_at(start);
    wheel.insert(start + Duration::from_millis(3), 1);
    wheel.advance_to(start + Duration::from_micros(4_400));
    assert_eq!(wheel.next_expiry(), Some(start + Duration::from_millis(4)));
    assert_eq!(wheel.current_time(), start + Duration::from_millis(4));
    assert_eq!(wheel.last_advanced(), start + Duration::from_micros(4_400));
}

#[test]
fn telling_an_earlier_time_changes_nothing() {
    let start = clock();
    let mut wheel: TimingWheel<u8, Millis> = TimingWheel::starting_at(start);
    wheel.advance_to(start - Duration::from_millis(1));
    assert_eq!(wheel.last_advanced(), start);
    wheel.advance_to(start + Duration::from_millis(9));
    wheel.advance_to(start + Duration::from_millis(4));
    assert_eq!(wheel.last_advanced(), start + Duration::from_millis(9));
    assert_eq!(wheel.current_time(), start + Duration::from_millis(9));
}

#[test]
fn rounding_decides_when_a_fraction_comes_due() {
    let start = clock();

    // Rounded down, 1.7 ms is due at 1 ms.
    let mut down: TimingWheel<u8, Coarse> = TimingWheel::starting_at(start);
    down.insert(start + Duration::from_micros(1_700), 7);
    down.advance_to(start + Duration::from_micros(999));
    assert!(down.drain_expired().is_empty());
    down.advance_to(start + Duration::from_millis(1));
    assert_eq!(down.drain_expired().len(), 1);

    // Rounded up, it is due at its own time and not before.
    let mut up: TimingWheel<u8, Millis> = TimingWheel::starting_at(start);
    up.insert(start + Duration::from_micros(1_700), 7);
    up.advance_to(start + Duration::from_micros(1_699));
    assert!(up.drain_expired().is_empty());
    up.advance_to(start + Duration::from_micros(1_700));
    assert_eq!(up.drain_expired().len(), 1);
}

#[test]
fn a_payload_can_change_in_place_and_a_deadline_cannot() {
    let start = clock();
    let mut wheel: TimingWheel<u8, Millis> = TimingWheel::starting_at(start);
    let key = wheel.insert(start + Duration::from_millis(8), 1);
    *wheel.get_mut(key).unwrap() = 2;
    assert_eq!(wheel.get(key), Some(&2));
    assert_eq!(wheel.deadline(key), Some(start + Duration::from_millis(8)));
    assert_eq!(wheel.remove(key), Some(2));
    assert_eq!(wheel.get_mut(key), None);
    assert_eq!(wheel.deadline(key), None);
    assert!(!wheel.contains(key));
}

#[test]
fn a_spent_handle_never_names_the_next_entry() {
    let start = clock();
    let mut wheel: TimingWheel<u8, Millis> = TimingWheel::starting_at(start);
    let first = wheel.insert(start + Duration::from_millis(8), 1);
    wheel.remove(first);
    let second = wheel.insert(start + Duration::from_millis(8), 2);
    assert_ne!(first, second);
    assert_eq!(wheel.remove(first), None);
    assert_eq!(wheel.remove(second), Some(2));
}

#[test]
fn a_handle_survives_every_cascade() {
    let start = clock();
    let mut wheel: TimingWheel<u8, Millis> = TimingWheel::starting_at(start);
    let deadline = start + Duration::from_secs(20_000);
    let key = wheel.insert(deadline, 42);
    let mut now = start;
    while now + Duration::from_secs(777) < deadline {
        now = now + Duration::from_secs(777);
        wheel.advance_to(now);
        assert_eq!(wheel.get(key), Some(&42));
        assert_eq!(wheel.deadline(key), Some(deadline));
    }
    wheel.advance_to(deadline);
    assert_eq!(wheel.drain_expired(), vec![(key, 42)]);
}

#[test]
fn durations_and_instants_convert_exactly() {
    assert_eq!(Duration::from_secs(2), Duration::from_millis(2_000));
    assert_eq!(Duration::from_millis(3), Duration::from_micros(3_000));
    assert_eq!(Duration::from_micros(4), Duration::from_nanos(4_000));
    assert_eq!(Duration::from_micros(4_500).as_millis(), 4);
    assert_eq!(Duration::from_micros(4_500).as_nanos(), 4_500_000);
    let t = Instant::from_nanos(1_000);
    assert_eq!(t.checked_sub(Duration::from_micros(2)), None);
    assert_eq!(
        t.checked_sub(Duration::from_nanos(400)),
        Some(Instant::from_nanos(600))
    );
    assert_eq!(
        Instant::from_nanos(u128::MAX).checked_add(Duration::from_nanos(1)),
        None
    );
    assert_eq!(
        t.checked_duration_since(Instant::from_nanos(1_001)),
        None
    );
    assert_eq!(
        t.saturating_duration_since(Instant::from_nanos(1_001)),
        Duration::from_nanos(0)
    );
    assert_eq!(
        t.saturating_duration_since(Instant::from_nanos(1)),
        Duration::from_nanos(999)
    );
    assert_eq!(t.as_nanos(), 1_000);
}

fn at(micros: u64) -> Instant {
    clock() + Duration::from_micros(micros)
}

#[test]
fn a_coarse_entry_answers_with_its_bucket_until_its_span_begins() {
    let mut wheel: TimingWheel<&str, Millis> = TimingWheel::starting_at(clock());
    wheel.insert(at(300_000), "early");
    wheel.insert(at(400_000), "late");
    wheel.advance_to(at(250_000));
    assert_eq!(wheel.next_expiry(), Some(at(255_000)));
    // From the span's first tick on both are in the finest level.
    wheel.advance_to(at(256_000));
    assert_eq!(wheel.next_expiry(), Some(at(300_000)));
}

#[test]
fn a_slot_answers_with_its_earliest_deadline() {
    let mut wheel: TimingWheel<u8, Millis> = TimingWheel::starting_at(clock());
    wheel.insert(at(1_100), 1);
    let gone = wheel.insert(at(1_050), 2);
    assert_eq!(wheel.next_expiry(), Some(at(1_050)));
    wheel.remove(gone);
    wheel.insert(at(1_900), 3);
    assert_eq!(wheel.next_expiry(), Some(at(1_100)));
}

#[test]
fn registering_and_withdrawing_leaves_the_answer_alone() {
    let mut wheel: TimingWheel<u8, Millis> = TimingWheel::starting_at(clock());
    let kept = wheel.insert(at(40_500), 1);
    let before = wheel.next_expiry();
    let gone = wheel.insert(at(7_000), 2);
    assert_eq!(wheel.next_expiry(), Some(at(7_000)));
    assert_eq!(wheel.remove(gone), Some(2));
    assert_eq!(wheel.next_expiry(), before);
    // Neither does what an entry carries.
    *wheel.get_mut(kept).unwrap() = 9;
    assert_eq!(wheel.next_expiry(), before);
    assert_eq!(wheel.len(), 1);
}

#[test]
fn the_clock_is_less_than_a_tick_behind_what_it_was_told() {
    let mut wheel: TimingWheel<u8, Millis> = TimingWheel::starting_at(clock());
    for micros in [0, 1, 999, 1_000, 12_345, 70_000_123] {
        wheel.advance_to(at(micros));
        assert_eq!(wheel.last_advanced(), at(micros));
        assert_eq!(wheel.current_time(), at(micros / 1_000 * 1_000));
    }
}

#[test]
fn advancing_in_two_steps_is_advancing_in_one() {
    let deadlines = [900, 1_500, 5_000, 255_000, 300_400, 20_000_000, 80_000_000_000];
    for halfway in [1, 1_400, 255_500, 299_999, 19_999_999] {
        let build = || {
            let mut wheel: TimingWheel<usize, Millis> = TimingWheel::starting_at(clock());
            for (i, micros) in deadlines.iter().enumerate() {
                wheel.insert(at(*micros), i);
            }
            wheel
        };
        let (mut once, mut twice) = (build(), build());
        once.advance_to(at(20_000_000));
        twice.advance_to(at(halfway));
        twice.advance_to(at(20_000_000));
        assert_eq!(once.next_expiry().is_some(), twice.next_expiry().is_some());
        let due = |wheel: &mut TimingWheel<usize, Millis>| {
            let mut due: Vec<usize> = wheel.drain_expired().into_iter().map(|(_, i)| i).collect();
            due.sort();
            due
        };
        assert_eq!(due(&mut once), due(&mut twice));
        assert_eq!((once.current_time(), once.len()), (twice.current_time(), twice.len()));
    }
}

#[test]
fn polling_never_wakes_to_the_time_it_has() {
    let mut wheel: TimingWheel<u64, Millis> = TimingWheel::starting_at(clock());
    for i in 1..200 {
        wheel.insert(at(i * i * 37), i);
    }
    let mut now = clock();
    let mut taken = 0;
    while let Some(next) = wheel.next_expiry() {
        assert!(next > now);
        now = next;
        wheel.advance_to(now);
        taken += wheel.drain_expired().len();
        assert_eq!(wheel.len(), 199 - taken);
    }
    assert_eq!(taken, 199);
}

#[test]
fn moving_time_costs_what_there_is_to_do_on_the_way() {
    let mut wheel: TimingWheel<u8, Millis> = TimingWheel::starting_at(clock());
    // Stored at ticks 5 and 200 of the finest level.
    wheel.insert(at(5_000), 1);
    wheel.insert(at(200_000), 2);
    wheel.advance_to(at(250_000));
    assert_eq!(wheel.ticks_processed(), 2);
    // One coarser entry: its span begins at tick 512, and it is due at 600.
    wheel.insert(at(600_000), 3);
    wheel.advance_to(at(5_000_000));
    assert_eq!(wheel.ticks_processed(), 5);
    assert_eq!(wheel.drain_expired().len(), 3);
}

#[test]
fn what_rounds_down_comes_due_less_than_a_tick_early() {
    let mut wheel: TimingWheel<u8, Coarse> = TimingWheel::starting_at(clock());
    wheel.insert(at(3_999), 1);
    wheel.advance_to(at(2_999));
    assert!(wheel.drain_expired().is_empty());
    wheel.advance_to(at(3_000));
    assert_eq!(wheel.drain_expired().len(), 1);
}
