//! What a wheel is allowed to decide for itself, and what the caller decides.

use vstd::arithmetic::power2::is_pow2;
use vstd::prelude::*;

verus! {

/// Where a deadline that falls between two ticks is placed.
///
/// The wheel's resolution is one tick, so a deadline of 1.7 ticks has to be
/// stored at a whole one. Which way it goes is not a detail: it decides
/// whether a timer can fire before the caller asked for it.
#[derive(Debug, Clone, Copy, PartialEq, Eq, Structural)]
pub enum Rounding {
    /// Never early, possibly late. A future woken before its deadline has to
    /// check the clock and arm again, so a runtime wants this one.
    Up,
    /// Lowest average error, early or late. For sampling and metrics, where
    /// the direction of the error matters less than its size.
    Nearest,
    /// Never late, possibly early. For enforcing a deadline, where overshoot
    /// is the failure and a spurious wake is not.
    Down,
}

/// How the wheel answers "what is due next" for a level it cannot read without
/// breaking it down.
///
/// A coarse slot holds deadlines spanning its whole resolution, and finding
/// the earliest means examining them. Whether that is worth doing depends
/// entirely on the caller's access pattern.
#[derive(Debug, Clone, Copy, PartialEq, Eq, Structural)]
pub enum CoarseQuery {
    /// Answer from the slot's position alone: an entry in the slot at offset
    /// `k` from the cursor cannot be due before that bucket begins.
    ///
    /// Constant cost and never reads an entry, at the price of naming a time
    /// earlier than the truth, which costs the caller one wasted poll. Arming
    /// and cancelling stay flat because neither disturbs the answer.
    BucketBound,
    /// Track the earliest deadline in each slot and answer with it.
    ///
    /// Exact, so no wasted poll. The cost lands on cancellation: withdrawing
    /// the entry that supplied a slot's minimum invalidates it, and the next
    /// query rebuilds that slot. A workload that arms a timeout per operation
    /// and cancels it on completion pays this on every operation.
    ExactMinimum,
}

/// What to do with a deadline beyond the wheel's furthest slot.
#[derive(Debug, Clone, Copy, PartialEq, Eq, Structural)]
pub enum Overflow {
    /// Park it in an ordered map until the wheel's reach catches up. Costs a
    /// tree insertion for deadlines that are, by construction, rare.
    Park,
    /// Refuse the insertion. For callers who would rather hear about it than
    /// discover a timer fired hours early.
    Reject,
}

/// A wheel's shape and the decisions it makes.
///
/// The shape is read once, when a wheel is built. The decisions are associated
/// constants, so they are fixed per wheel type and cost nothing to consult.
pub trait Policy {
    /// Slots per level, coarsest last. Every entry must be a power of two.
    open spec fn slots_model() -> Seq<usize> {
        Seq::empty()
    }

    /// Ticks spanned by one slot of each level. The first is always 1, and
    /// every entry must be a power of two.
    open spec fn resolution_model() -> Seq<u64> {
        Seq::empty()
    }

    /// Slots per level, coarsest last.
    fn slots() -> (slots: Vec<usize>)
        ensures
            slots@ == Self::slots_model(),
    ;

    /// Ticks spanned by one slot of each level.
    fn resolution() -> (resolution: Vec<u64>)
        ensures
            resolution@ == Self::resolution_model(),
    ;

    /// Which way a deadline between two ticks is moved.
    const ROUNDING: Rounding = Rounding::Up;

    /// How much work answering "what is due next" is worth at a coarse level.
    const COARSE_QUERY: CoarseQuery = CoarseQuery::BucketBound;

    /// What happens to a deadline past the wheel's furthest slot.
    const OVERFLOW: Overflow = Overflow::Park;
}

/// Milliseconds, four levels, eighteen hours of reach, and an entry that never
/// expires before it was asked to.
///
/// The shape an event loop wants. `BucketBound` in particular answers a
/// workload that arms a timeout per operation and withdraws it on completion,
/// where tracking exact minima turns every withdrawal into a slot rebuild.
#[derive(Debug, Clone, Copy)]
pub struct Millis;

impl Policy for Millis {
    open spec fn slots_model() -> Seq<usize> {
        seq![256usize, 64, 64, 64]
    }

    open spec fn resolution_model() -> Seq<u64> {
        seq![1u64, 256, 16_384, 1_048_576]
    }

    fn slots() -> (slots: Vec<usize>) {
        let slots: Vec<usize> = vec![256, 64, 64, 64];
        assert(slots@ =~= Self::slots_model());
        slots
    }

    fn resolution() -> (resolution: Vec<u64>) {
        let resolution: Vec<u64> = vec![1, 256, 16_384, 1_048_576];
        assert(resolution@ =~= Self::resolution_model());
        resolution
    }

    const ROUNDING: Rounding = Rounding::Up;

    const COARSE_QUERY: CoarseQuery = CoarseQuery::BucketBound;

    const OVERFLOW: Overflow = Overflow::Park;
}

/// Everything the levels up to `level` address: one full revolution of it.
pub open spec fn covers(slots: Seq<usize>, resolution: Seq<u64>, level: int) -> nat {
    (resolution[level] * slots[level]) as nat
}

/// One full revolution of the coarsest level, which is everything a wheel of
/// this shape can address.
pub open spec fn layout_reach(slots: Seq<usize>, resolution: Seq<u64>) -> nat {
    covers(slots, resolution, slots.len() - 1)
}

/// Level `level` has a power of two of slots of a power of two of ticks, and
/// one of its slots spans exactly what the level below covers.
pub open spec fn level_fits(slots: Seq<usize>, resolution: Seq<u64>, level: int) -> bool {
    &&& is_pow2(slots[level] as int)
    &&& is_pow2(resolution[level] as int)
    &&& level > 0 ==> resolution[level] == covers(slots, resolution, level - 1)
}

/// A shape whose levels tile: nothing is lost and nothing visited twice when a
/// level breaks down into the one below it.
pub open spec fn tiles(slots: Seq<usize>, resolution: Seq<u64>) -> bool {
    &&& slots.len() == resolution.len()
    &&& slots.len() > 0
    &&& resolution[0] == 1
    &&& forall|level: int|
        0 <= level < slots.len() ==> #[trigger] level_fits(slots, resolution, level)
    &&& layout_reach(slots, resolution) <= u64::MAX
}

/// Why a shape cannot make a wheel.
#[derive(Debug, Clone, Copy, PartialEq, Eq, Structural)]
pub enum LayoutError {
    /// A level needs both a slot count and a resolution.
    LevelCount,
    /// A wheel needs at least one level.
    NoLevels,
    /// The finest level spans one tick.
    FinestLevel,
    /// The level's slot count is not a power of two.
    SlotCount {
        /// The level at fault.
        level: usize,
    },
    /// The level's resolution is not a power of two.
    Resolution {
        /// The level at fault.
        level: usize,
    },
    /// The level does not span exactly what the one below covers.
    Tiling {
        /// The level at fault.
        level: usize,
    },
    /// The coarsest level covers more ticks than can be counted.
    Reach,
}

/// What is wrong with level `level` taken by itself, if anything.
pub open spec fn level_fault(slots: Seq<usize>, resolution: Seq<u64>, level: int) -> Option<
    LayoutError,
> {
    if !is_pow2(slots[level] as int) {
        Some(LayoutError::SlotCount { level: level as usize })
    } else if !is_pow2(resolution[level] as int) {
        Some(LayoutError::Resolution { level: level as usize })
    } else if level > 0 && resolution[level] != covers(slots, resolution, level - 1) {
        Some(LayoutError::Tiling { level: level as usize })
    } else {
        None
    }
}

/// `fault` is the first thing wrong with a shape, read from the finest level.
pub open spec fn first_fault(
    slots: Seq<usize>,
    resolution: Seq<u64>,
    fault: LayoutError,
) -> bool {
    if slots.len() != resolution.len() {
        fault == LayoutError::LevelCount
    } else if slots.len() == 0 {
        fault == LayoutError::NoLevels
    } else if resolution[0] != 1 {
        fault == LayoutError::FinestLevel
    } else if forall|level: int|
        0 <= level < slots.len() ==> #[trigger] level_fits(slots, resolution, level) {
        fault == LayoutError::Reach && layout_reach(slots, resolution) > u64::MAX
    } else {
        exists|level: int| #[trigger]
            first_unfit(slots, resolution, level) && level_fault(slots, resolution, level) == Some(
                fault,
            )
    }
}

/// `level` is the finest level that does not fit.
pub open spec fn first_unfit(slots: Seq<usize>, resolution: Seq<u64>, level: int) -> bool {
    &&& 0 <= level < slots.len()
    &&& !level_fits(slots, resolution, level)
    &&& forall|finer: int| 0 <= finer < level ==> #[trigger] level_fits(slots, resolution, finer)
}

/// Whether `value` is a power of two.
pub fn is_power_of_two(value: u64) -> (yes: bool)
    ensures
        yes == is_pow2(value as int),
{
    let mut rest: u64 = value;
    while rest > 1 && rest % 2 == 0
        invariant
            is_pow2(rest as int) == is_pow2(value as int),
        decreases rest,
    {
        proof {
            reveal_with_fuel(is_pow2, 2);
        }
        rest = rest / 2;
    }
    proof {
        reveal_with_fuel(is_pow2, 2);
    }
    rest == 1
}

/// Says whether a shape makes a wheel, and what is wrong with it if not, so a
/// layout that would be silently slow or silently wrong cannot produce a wheel
/// at all.
pub fn validate_layout(slots: &Vec<usize>, resolution: &Vec<u64>) -> (verdict: Result<(), LayoutError>)
    ensures
        verdict is Ok <==> tiles(slots@, resolution@),
        verdict matches Err(fault) ==> first_fault(slots@, resolution@, fault),
{
    if slots.len() != resolution.len() {
        return Err(LayoutError::LevelCount);
    }
    if slots.len() == 0 {
        return Err(LayoutError::NoLevels);
    }
    if resolution[0] != 1 {
        return Err(LayoutError::FinestLevel);
    }
    let mut level: usize = 0;
    while level < slots.len()
        invariant
            slots@.len() == resolution@.len(),
            slots@.len() > 0,
            resolution@[0] == 1,
            level <= slots@.len(),
            forall|finer: int|
                0 <= finer < level ==> #[trigger] level_fits(slots@, resolution@, finer),
        decreases slots@.len() - level,
    {
        // Powers of two are not a style preference. The hot path divides by a
        // resolution and takes a remainder by a slot count on every insertion;
        // as powers of two those are a shift and a mask, and the layout can
        // then be a runtime value without costing anything against constants.
        if !is_power_of_two(slots[level] as u64) {
            assert(first_unfit(slots@, resolution@, level as int));
            return Err(LayoutError::SlotCount { level });
        }
        if !is_power_of_two(resolution[level]) {
            assert(first_unfit(slots@, resolution@, level as int));
            return Err(LayoutError::Resolution { level });
        }
        if level > 0 {
            // Each level must span exactly what the one below it covers, or
            // cascading either loses deadlines or visits them twice.
            let below: u128 = product(resolution[level - 1], slots[level - 1]);
            if resolution[level] as u128 != below {
                assert(first_unfit(slots@, resolution@, level as int));
                return Err(LayoutError::Tiling { level });
            }
        }
        assert(level_fits(slots@, resolution@, level as int));
        level = level + 1;
    }
    let last: usize = slots.len() - 1;
    if product(resolution[last], slots[last]) > u64::MAX as u128 {
        return Err(LayoutError::Reach);
    }
    Ok(())
}

fn product(resolution: u64, slots: usize) -> (ticks: u128)
    ensures
        ticks == resolution * slots,
{
    proof {
        assert(resolution * slots <= u64::MAX * usize::MAX) by (nonlinear_arith)
            requires
                resolution <= u64::MAX,
                slots <= usize::MAX,
        ;
        assert(u64::MAX * usize::MAX <= u128::MAX) by (nonlinear_arith)
            requires
                usize::MAX <= u64::MAX,
        ;
    }
    resolution as u128 * slots as u128
}

/// Checks the shape a policy asks for.
pub fn validate<P: Policy>() -> (verdict: Result<(), LayoutError>)
    ensures
        verdict is Ok <==> tiles(P::slots_model(), P::resolution_model()),
        verdict matches Err(fault) ==> first_fault(P::slots_model(), P::resolution_model(), fault),
{
    validate_layout(&P::slots(), &P::resolution())
}

/// No level covers more than the whole wheel, and none less than the one below.
pub proof fn lemma_covers_within_reach(slots: Seq<usize>, resolution: Seq<u64>, level: int)
    requires
        tiles(slots, resolution),
        0 <= level < slots.len(),
    ensures
        1 <= resolution[level] <= covers(slots, resolution, level) <= layout_reach(slots, resolution),
        1 <= slots[level],
    decreases slots.len() - level,
{
    assert(level_fits(slots, resolution, level));
    reveal_with_fuel(is_pow2, 1);
    let (r, n) = (resolution[level] as int, slots[level] as int);
    assert(r <= r * n) by (nonlinear_arith)
        requires
            r >= 1,
            n >= 1,
    ;
    if level + 1 < slots.len() {
        lemma_covers_within_reach(slots, resolution, level + 1);
        assert(level_fits(slots, resolution, level + 1));
    }
}

/// The shape the reactor uses tiles.
pub proof fn lemma_millis_tiles()
    ensures
        tiles(Millis::slots_model(), Millis::resolution_model()),
        layout_reach(Millis::slots_model(), Millis::resolution_model()) == 67_108_864,
        Millis::ROUNDING == Rounding::Up,
        Millis::COARSE_QUERY == CoarseQuery::BucketBound,
        Millis::OVERFLOW == Overflow::Park,
{
    let slots = Millis::slots_model();
    let resolution = Millis::resolution_model();
    assert(is_pow2(1) && is_pow2(64) && is_pow2(256) && is_pow2(16_384) && is_pow2(1_048_576)) by {
        reveal_with_fuel(is_pow2, 22);
    }
    assert(level_fits(slots, resolution, 0));
    assert(level_fits(slots, resolution, 1));
    assert(level_fits(slots, resolution, 2));
    assert(level_fits(slots, resolution, 3));
}

/// A shape is refused for something that is wrong with it, and the levels below
/// the one at fault are right.
pub proof fn law_what_is_wrong_is_wrong(slots: Seq<usize>, resolution: Seq<u64>, fault: LayoutError)
    requires
        first_fault(slots, resolution, fault),
        slots.len() <= usize::MAX,
    ensures
        !tiles(slots, resolution),
        fault is LevelCount <==> slots.len() != resolution.len(),
        fault is NoLevels <==> slots.len() == 0 && resolution.len() == 0,
        fault is FinestLevel ==> resolution[0] != 1,
        fault matches LayoutError::SlotCount { level } ==> level < slots.len() && !is_pow2(slots[level as int] as int),
        fault matches LayoutError::Resolution { level } ==> level < slots.len() && is_pow2(slots[level as int] as int)
            && !is_pow2(resolution[level as int] as int),
        fault matches LayoutError::Tiling { level } ==> 0 < level < slots.len() && resolution[level as int]
            != resolution[level - 1] * slots[level - 1],
        fault is Reach ==> slots.len() > 0 && resolution.last() * slots.last() > u64::MAX,
{
    if slots.len() == resolution.len() && slots.len() > 0 && resolution[0] == 1 {
        if !(forall|level: int| 0 <= level < slots.len() ==> #[trigger] level_fits(slots, resolution, level)) {
            let level = choose|level: int| #[trigger]
                first_unfit(slots, resolution, level) && level_fault(slots, resolution, level) == Some(fault);
            assert(!level_fits(slots, resolution, level));
        }
    }
}

} // verus!
