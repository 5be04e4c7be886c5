//! Stable storage for timer entries.

use glommio::timer::slab::{Generation, SlotIndex, TimerSlab};


#[test]
fn a_handle_reads_back_what_was_stored() {
    let mut slab = TimerSlab::new();
    let a = slab.insert("a");
    let b = slab.insert("b");

    assert_eq!(slab.get(a), Some(&"a"));
    assert_eq!(slab.get(b), Some(&"b"));
    assert_eq!(slab.len(), 2);
}

#[test]
fn removing_returns_the_value_and_retires_the_handle() {
    let mut slab = TimerSlab::new();
    let a = slab.insert("a");

    assert_eq!(slab.remove(a), Some("a"));
    assert_eq!(slab.len(), 0);
    assert_eq!(slab.get(a), None, "handle is spent");
    assert_eq!(
        slab.remove(a),
        None,
        "and removing twice is not a double free"
    );
}

#[test]
fn a_reused_slot_rejects_the_previous_handle() {
    let mut slab = TimerSlab::new();
    let first = slab.insert("first");
    assert_eq!(slab.remove(first), Some("first"));

    // Reuses the slot `first` occupied.
    let second = slab.insert("second");
    assert_eq!(second.slot(), first.slot(), "the slot is reused");
    assert_ne!(second.generation(), first.generation(), "but not the identity");

    assert_eq!(slab.get(first), None, "stale handle finds nothing");
    assert_eq!(slab.remove(first), None, "and cannot cancel the new timer");
    assert_eq!(slab.get(second), Some(&"second"));
}

#[test]
fn slots_are_bounded_by_live_entries_not_by_insertions() {
    let mut slab = TimerSlab::new();

    // The defect this replaces used a monotonic counter, so this loop
    // would have advanced an index a thousand times.
    for _ in 0..1_000 {
        let id = slab.insert(());
        slab.remove(id).expect("just inserted");
    }

    assert_eq!(slab.len(), 0);
    assert_eq!(slab.slot_count(), 1, "one slot, reused a thousand times");
}

#[test]
fn a_handle_survives_the_value_being_mutated_in_place() {
    let mut slab = TimerSlab::new();
    let id = slab.insert(1u32);

    *slab.get_mut(id).expect("live") = 2;

    assert_eq!(slab.get(id), Some(&2));
}

#[test]
fn generations_never_take_the_zero_niche() {
    let mut generation = Generation::first();
    assert_eq!(generation.get(), 1);
    for _ in 0..1_000 {
        generation = generation.next();
        assert_ne!(generation.get(), 0);
    }
    assert_eq!(generation.get(), 1_001);
}

#[test]
fn positions_past_the_address_range_are_refused() {
    assert_eq!(SlotIndex::new(7).map(|slot| slot.as_usize()), Some(7));
    assert_eq!(
        SlotIndex::new(u32::MAX as usize).map(|slot| slot.as_usize()),
        Some(u32::MAX as usize)
    );
    assert!(SlotIndex::new(u32::MAX as usize + 1).is_none());
}

#[test]
fn a_vacated_position_has_no_handle() {
    let mut slab = TimerSlab::new();
    let a = slab.insert("a");
    let b = slab.insert("b");
    assert_eq!(slab.id_at(a.slot()), Some(a));
    slab.remove(a);
    assert_eq!(slab.id_at(a.slot()), None);
    assert_eq!(slab.id_at(b.slot()), Some(b));
    assert_eq!(slab.get_mut(a), None);
    assert_eq!(slab.slot_count(), 2);
    // The free list hands out the last position vacated first.
    slab.remove(b);
    let c = slab.insert("c");
    assert_eq!(c.slot(), b.slot());
    let d = slab.insert("d");
    assert_eq!(d.slot(), a.slot());
    assert_eq!(slab.slot_count(), 2);
    assert_eq!(slab.len(), 2);
}

#[test]
fn the_position_given_back_last_is_taken_first() {
    let mut slab = TimerSlab::new();
    let ids: Vec<_> = (0..4).map(|i| slab.insert(i)).collect();
    for (at, id) in ids.iter().enumerate() {
        assert_eq!(id.slot().as_usize(), at);
    }
    slab.remove(ids[1]);
    slab.remove(ids[3]);
    assert_eq!(slab.insert(10).slot(), ids[3].slot());
    assert_eq!(slab.insert(11).slot(), ids[1].slot());
    assert_eq!(slab.insert(12).slot().as_usize(), 4);
}

#[test]
fn there_are_as_many_positions_as_were_ever_live_at_once() {
    let mut slab = TimerSlab::new();
    for round in 0..50 {
        let ids: Vec<_> = (0..7).map(|i| slab.insert(round * 7 + i)).collect();
        for id in ids {
            slab.remove(id);
        }
    }
    assert_eq!((slab.len(), slab.slot_count()), (0, 7));
}
