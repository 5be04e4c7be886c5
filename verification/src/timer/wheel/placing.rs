//! Which level an entry is stored at, and how it moves down.

use super::policy::{covers, lemma_covers_within_reach, level_fits, tiles};
use vstd::prelude::*;

verus! {

/// The finest level from `level` on that covers `ahead` ticks.
pub open spec fn finest_from(slots: Seq<usize>, resolution: Seq<u64>, level: int, ahead: int) -> int
    decreases slots.len() - level,
{
    if level >= slots.len() || ahead < covers(slots, resolution, level) {
        level
    } else {
        finest_from(slots, resolution, level + 1, ahead)
    }
}

/// The finest level that covers `ahead` ticks.
pub open spec fn finest_level(slots: Seq<usize>, resolution: Seq<u64>, ahead: int) -> int {
    finest_from(slots, resolution, 0, ahead)
}

/// The level an entry has moved down to when the cursor is at `cursor`. It
/// stays at its level until the cursor enters the span its tick is in, and
/// from the first tick of that span on it is at the finest level that covers
/// what was left then.
pub open spec fn sunk(slots: Seq<usize>, resolution: Seq<u64>, level: int, tick: int, cursor: int) -> int
    decreases level,
{
    let span = resolution[level] as int;
    let finer = finest_level(slots, resolution, tick % span);
    if level > 0 && tick / span <= cursor / span && 0 <= finer < level {
        sunk(slots, resolution, finer, tick, cursor)
    } else {
        level
    }
}

/// No level that covers a distance is finer than the finest one.
pub proof fn lemma_finest_is_first(slots: Seq<usize>, resolution: Seq<u64>, from: int, level: int, ahead: int)
    requires
        0 <= from <= level < slots.len(),
        ahead < covers(slots, resolution, level),
    ensures
        from <= finest_from(slots, resolution, from, ahead) <= level,
        ahead < covers(slots, resolution, finest_from(slots, resolution, from, ahead)),
        finest_from(slots, resolution, from, ahead) > from ==> ahead >= covers(
            slots,
            resolution,
            finest_from(slots, resolution, from, ahead) - 1,
        ),
    decreases level - from,
{
    if ahead >= covers(slots, resolution, from) {
        lemma_finest_is_first(slots, resolution, from + 1, level, ahead);
    }
}

/// The finest level that covers a distance within reach spans no more than
/// the distance.
pub proof fn lemma_finest(slots: Seq<usize>, resolution: Seq<u64>, ahead: int)
    requires
        tiles(slots, resolution),
        0 < ahead < covers(slots, resolution, slots.len() - 1),
    ensures
        0 <= finest_level(slots, resolution, ahead) < slots.len(),
        resolution[finest_level(slots, resolution, ahead)] <= ahead < covers(
            slots,
            resolution,
            finest_level(slots, resolution, ahead),
        ),
{
    let level = finest_level(slots, resolution, ahead);
    lemma_finest_is_first(slots, resolution, 0, slots.len() - 1, ahead);
    assert(level_fits(slots, resolution, level));
}

/// What is left of a level's span is covered by a finer level.
pub proof fn lemma_finer(slots: Seq<usize>, resolution: Seq<u64>, level: int, tick: int)
    requires
        tiles(slots, resolution),
        0 < level < slots.len(),
    ensures
        0 <= finest_level(slots, resolution, tick % (resolution[level] as int)) < level,
{
    lemma_covers_within_reach(slots, resolution, level);
    let span = resolution[level] as int;
    vstd::arithmetic::div_mod::lemma_mod_bound(tick, span);
    assert(level_fits(slots, resolution, level));
    lemma_finest_is_first(slots, resolution, 0, level - 1, tick % span);
}

/// Moving down never leaves the levels, and never goes up.
pub proof fn lemma_sunk_bounds(slots: Seq<usize>, resolution: Seq<u64>, level: int, tick: int, cursor: int)
    requires
        tiles(slots, resolution),
        0 <= level < slots.len(),
    ensures
        0 <= sunk(slots, resolution, level, tick, cursor) <= level,
    decreases level,
{
    if level > 0 {
        lemma_finer(slots, resolution, level, tick);
        let finer = finest_level(slots, resolution, tick % (resolution[level] as int));
        lemma_sunk_bounds(slots, resolution, finer, tick, cursor);
    }
}

/// Moving down in two steps is moving down in one.
pub proof fn lemma_sunk_chains(
    slots: Seq<usize>,
    resolution: Seq<u64>,
    level: int,
    tick: int,
    middle: int,
    cursor: int,
)
    requires
        tiles(slots, resolution),
        0 <= level < slots.len(),
        middle <= cursor,
    ensures
        sunk(slots, resolution, sunk(slots, resolution, level, tick, middle), tick, cursor) == sunk(
            slots,
            resolution,
            level,
            tick,
            cursor,
        ),
    decreases level,
{
    if level > 0 {
        lemma_covers_within_reach(slots, resolution, level);
        let span = resolution[level] as int;
        lemma_finer(slots, resolution, level, tick);
        vstd::arithmetic::div_mod::lemma_div_is_ordered(middle, cursor, span);
        let finer = finest_level(slots, resolution, tick % span);
        lemma_sunk_chains(slots, resolution, finer, tick, middle, cursor);
    }
}

} // verus!
