//! The contract, over every combination of layout and policy.
//!
//! A policy is a type, so each combination is a distinct one. Writing them out
//! would be hundreds of declarations, so they are composed instead: one marker
//! type per choice on each axis, and a `Combo` that implements `Policy` from
//! four of them.

use glommio::timer::time::{Duration, Instant};
use glommio::timer::wheel::{CoarseQuery, Key, Overflow, Policy, Rounding, TimingWheel};
use std::marker::PhantomData;

fn clock() -> Instant {
    Instant::from_nanos(40_000_000_999_999)
}

// ---- the axes -----------------------------------------------------------

trait Layout {
    const NAME: &'static str;
    fn slots() -> Vec<usize>;
    fn resolution() -> Vec<u64>;
}

trait Round {
    const NAME: &'static str;
    const VALUE: Rounding;
}

trait Query {
    const NAME: &'static str;
    const VALUE: CoarseQuery;
}

trait Spill {
    const NAME: &'static str;
    const VALUE: Overflow;
}

// One level: no cascading at all, everything either fits or overflows.
struct Flat;
impl Layout for Flat {
    const NAME: &'static str = "Flat";
    fn slots() -> Vec<usize> {
        vec![64]
    }
    fn resolution() -> Vec<u64> {
        vec![1]
    }
}

// Two levels, the smallest shape that cascades.
struct Tiny;
impl Layout for Tiny {
    const NAME: &'static str = "Tiny";
    fn slots() -> Vec<usize> {
        vec![2, 2]
    }
    fn resolution() -> Vec<u64> {
        vec![1, 2]
    }
}

// Deep and narrow: eight levels of two slots, so an entry cascades seven
// times on its way in. Maximises the moves a handle has to survive.
struct Deep;
impl Layout for Deep {
    const NAME: &'static str = "Deep";
    fn slots() -> Vec<usize> {
        vec![2, 2, 2, 2, 2, 2, 2, 2]
    }
    fn resolution() -> Vec<u64> {
        vec![1, 2, 4, 8, 16, 32, 64, 128]
    }
}

// Wide and shallow: one cascade, but a thousand slots to search.
struct Wide;
impl Layout for Wide {
    const NAME: &'static str = "Wide";
    fn slots() -> Vec<usize> {
        vec![1024, 1024]
    }
    fn resolution() -> Vec<u64> {
        vec![1, 1024]
    }
}

// Uneven, because equal levels can hide an arithmetic mistake that only
// shows when the levels differ.
struct Uneven;
impl Layout for Uneven {
    const NAME: &'static str = "Uneven";
    fn slots() -> Vec<usize> {
        vec![256, 8, 64, 4]
    }
    fn resolution() -> Vec<u64> {
        vec![1, 256, 2048, 131_072]
    }
}

// What a reactor uses.
struct Realistic;
impl Layout for Realistic {
    const NAME: &'static str = "Realistic";
    fn slots() -> Vec<usize> {
        vec![256, 64, 64, 64]
    }
    fn resolution() -> Vec<u64> {
        vec![1, 256, 16_384, 1_048_576]
    }
}

struct Up;
impl Round for Up {
    const NAME: &'static str = "Up";
    const VALUE: Rounding = Rounding::Up;
}

struct Down;
impl Round for Down {
    const NAME: &'static str = "Down";
    const VALUE: Rounding = Rounding::Down;
}

struct Nearest;
impl Round for Nearest {
    const NAME: &'static str = "Nearest";
    const VALUE: Rounding = Rounding::Nearest;
}

struct Bound;
impl Query for Bound {
    const NAME: &'static str = "Bound";
    const VALUE: CoarseQuery = CoarseQuery::BucketBound;
}

struct Exact;
impl Query for Exact {
    const NAME: &'static str = "Exact";
    const VALUE: CoarseQuery = CoarseQuery::ExactMinimum;
}

struct Park;
impl Spill for Park {
    const NAME: &'static str = "Park";
    const VALUE: Overflow = Overflow::Park;
}

struct Reject;
impl Spill for Reject {
    const NAME: &'static str = "Reject";
    const VALUE: Overflow = Overflow::Reject;
}

/// One point in the matrix.
struct Combo<L, R, Q, S>(PhantomData<(L, R, Q, S)>);

impl<L: Layout, R: Round, Q: Query, S: Spill> Policy for Combo<L, R, Q, S> {
    fn slots() -> Vec<usize> {
        L::slots()
    }
    fn resolution() -> Vec<u64> {
        L::resolution()
    }
    const ROUNDING: Rounding = R::VALUE;
    const COARSE_QUERY: CoarseQuery = Q::VALUE;
    const OVERFLOW: Overflow = S::VALUE;
}

fn name<L: Layout, R: Round, Q: Query, S: Spill>() -> String {
    format!("{}/{}/{}/{}", L::NAME, R::NAME, Q::NAME, S::NAME)
}

// ---- the property -------------------------------------------------------

fn xorshift(state: &mut u64) -> u64 {
    let mut x = *state;
    x ^= x << 13;
    x ^= x >> 7;
    x ^= x << 17;
    *state = x;
    x
}

fn exercise<L: Layout, R: Round, Q: Query, S: Spill>(seeds: u64) {
    let label = name::<L, R, Q, S>();
    type P<L, R, Q, S> = Combo<L, R, Q, S>;

    // A wheel two slots deep reaches four ticks; one 256 wide reaches hours.
    // Draw deadlines against the wheel's own reach so every layout is
    // exercised across its whole range instead of overflowing immediately.
    let reach = L::resolution()[L::resolution().len() - 1] * L::slots()[L::slots().len() - 1] as u64;

    for seed in 1..=seeds {
        let mut rng = seed.wrapping_mul(0x9E37_79B9_7F4A_7C15) | 1;
        let start = clock();
        let mut wheel: TimingWheel<u64, P<L, R, Q, S>> = TimingWheel::starting_at(start);
        let mut live: Vec<(Key, Instant)> = Vec::new();
        let mut now = start;

        for step in 0..200 {
            match xorshift(&mut rng) % 10 {
                0..=4 => {
                    // Inside the wheel, around its edge, and past it.
                    let micros = match xorshift(&mut rng) % 4 {
                        0 => xorshift(&mut rng) % 1_500,
                        1 => xorshift(&mut rng) % (reach * 1_000).max(2),
                        2 => (reach * 1_000).saturating_sub(xorshift(&mut rng) % 2_000),
                        _ => xorshift(&mut rng) % (reach * 4_000).max(2),
                    };
                    let deadline = now + Duration::from_micros(micros);
                    if let Some(key) = wheel.try_insert(deadline, micros) {
                        live.push((key, deadline));
                    }
                }
                5..=6 if !live.is_empty() => {
                    let i = (xorshift(&mut rng) % live.len() as u64) as usize;
                    let (key, _) = live.swap_remove(i);
                    wheel.remove(key);
                }
                _ => {
                    let step_us = match xorshift(&mut rng) % 3 {
                        0 => xorshift(&mut rng) % 900,
                        1 => xorshift(&mut rng) % (reach * 200).max(2),
                        _ => xorshift(&mut rng) % (reach * 2_000).max(2),
                    };
                    now = now + Duration::from_micros(step_us);
                    wheel.advance_to(now);

                    let drained = wheel.drain_expired();
                    if let Some(next) = wheel.next_expiry() {
                        assert!(
                            next > now,
                            "{label} seed {seed} step {step}: next_expiry is {:?} in the PAST",
                            now.saturating_duration_since(next)
                        );
                    }
                    let allowed_early = match R::VALUE {
                        Rounding::Up => Duration::from_nanos(0),
                        Rounding::Down | Rounding::Nearest => Duration::from_millis(1),
                    };
                    for (key, _) in drained {
                        if let Some(pos) = live.iter().position(|(k, _)| *k == key) {
                            let (_, deadline) = live.swap_remove(pos);
                            assert!(
                                deadline <= now + allowed_early,
                                "{label} seed {seed} step {step}: expired {:?} EARLY",
                                deadline.saturating_duration_since(now)
                            );
                        }
                    }
                }
            }

            if let (Some(next), Some(truth)) =
                (wheel.next_expiry(), live.iter().map(|(_, d)| *d).min())
            {
                assert!(
                    next <= truth,
                    "{label} seed {seed} step {step}: next_expiry is {:?} LATER than a live \
                     deadline",
                    next.saturating_duration_since(truth)
                );
            }
        }

        // Everything still held is accounted for, and nothing leaked.
        assert_eq!(
            wheel.len(),
            live.len(),
            "{label} seed {seed}: wheel holds {} entries, {} are live",
            wheel.len(),
            live.len()
        );
    }
}

/// Every policy combination, against one layout.
fn all_policies<L: Layout>(seeds: u64) {
    exercise::<L, Up, Bound, Park>(seeds);
    exercise::<L, Up, Bound, Reject>(seeds);
    exercise::<L, Up, Exact, Park>(seeds);
    exercise::<L, Up, Exact, Reject>(seeds);
    exercise::<L, Down, Bound, Park>(seeds);
    exercise::<L, Down, Bound, Reject>(seeds);
    exercise::<L, Down, Exact, Park>(seeds);
    exercise::<L, Down, Exact, Reject>(seeds);
    exercise::<L, Nearest, Bound, Park>(seeds);
    exercise::<L, Nearest, Bound, Reject>(seeds);
    exercise::<L, Nearest, Exact, Park>(seeds);
    exercise::<L, Nearest, Exact, Reject>(seeds);
}

const SEEDS: u64 = 40;

#[test]
fn one_level_holds_every_policy() {
    all_policies::<Flat>(SEEDS);
}

#[test]
fn two_levels_hold_every_policy() {
    all_policies::<Tiny>(SEEDS);
}

#[test]
fn eight_narrow_levels_hold_every_policy() {
    all_policies::<Deep>(SEEDS);
}

#[test]
fn two_wide_levels_hold_every_policy() {
    all_policies::<Wide>(SEEDS);
}

#[test]
fn uneven_levels_hold_every_policy() {
    all_policies::<Uneven>(SEEDS);
}

#[test]
fn a_realistic_layout_holds_every_policy() {
    all_policies::<Realistic>(SEEDS);
}
