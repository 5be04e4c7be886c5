use glommio::sync::once_cell::{Begin, OnceCell, Release};

/// Initialises a cell with an initialiser that never suspends.
fn get_or_try_init<T: Clone, E>(cell: &mut OnceCell<T>, init: impl FnOnce() -> Result<T, E>) -> Result<T, E> {
    match cell.begin() {
        Begin::Ready => {}
        Begin::Initialise => {
            cell.enter_initialiser();
            let outcome = init();
            cell.leave_initialiser();
            match cell.finish(outcome) {
                Ok(release) => assert_eq!(release, Release::All),
                Err((err, release)) => {
                    assert_eq!(release, Release::One);
                    return Err(err);
                }
            }
        }
        other => panic!("{other:?}"),
    }
    Ok(cell.get().unwrap().clone())
}

fn get_or_init<T: Clone>(cell: &mut OnceCell<T>, init: impl FnOnce() -> T) -> T {
    get_or_try_init(cell, || Ok::<_, ()>(init())).unwrap()
}

/// A caller is let in and its initialiser is polled once and suspends.
fn suspend<T>(cell: &mut OnceCell<T>) {
    assert_eq!(cell.begin(), Begin::Initialise);
    cell.enter_initialiser();
    assert!(cell.is_initialiser_on_stack());
    cell.leave_initialiser();
    assert!(!cell.is_initialiser_on_stack());
}

#[test]
fn an_empty_cell_has_nothing_in_it() {
    let cell: OnceCell<u32> = OnceCell::new();
    assert!(cell.get().is_none());
    assert!(!cell.is_initialized());
}

#[test]
fn set_stores_a_value_once() {
    let mut cell = OnceCell::new();
    assert!(cell.set(1).is_ok());
    assert_eq!(cell.get(), Some(&1));
    assert!(cell.is_initialized());
    assert_eq!(
        cell.set(2),
        Err(2),
        "a second set should hand the value back"
    );
    assert_eq!(cell.get(), Some(&1), "the first value must survive");
}

#[test]
fn get_or_init_runs_the_initialiser_once() {
    let mut cell = OnceCell::new();
    let mut runs = 0;

    for _ in 0..3 {
        let value = get_or_init(&mut cell, || {
            runs += 1;
            41
        });
        assert_eq!(value, 41);
    }

    assert_eq!(runs, 1, "the initialiser ran more than once");
}

#[test]
fn get_or_try_init_stores_a_successful_value() {
    let mut cell = OnceCell::new();
    let value = get_or_try_init(&mut cell, || Ok::<_, String>(3)).unwrap();
    assert_eq!(value, 3);
    assert!(cell.is_initialized());
}

#[test]
fn a_failed_get_or_try_init_leaves_the_cell_empty() {
    let mut cell: OnceCell<u32> = OnceCell::new();
    let err = get_or_try_init(&mut cell, || Err::<u32, _>("catalog unreachable")).unwrap_err();

    assert_eq!(err, "catalog unreachable");
    assert!(
        !cell.is_initialized(),
        "a failed initialiser must not poison the cell"
    );
    assert!(cell.get().is_none());
}

#[test]
fn a_cell_can_be_retried_after_a_failure() {
    let mut cell = OnceCell::new();
    let mut attempts = 0;

    for _ in 0..2 {
        let _ = get_or_try_init(&mut cell, || {
            attempts += 1;
            Err::<u32, _>("still down")
        });
    }

    let value = get_or_try_init(&mut cell, || Ok::<_, &str>(7)).unwrap();

    assert_eq!(value, 7);
    assert_eq!(attempts, 2, "each failure should have retried");
}

#[test]
fn a_caller_waiting_behind_a_failed_init_runs_its_own() {
    let mut cell: OnceCell<u32> = OnceCell::new();
    let mut order = Vec::new();

    // The first initialiser suspends, then fails, so the second is queued
    // behind it and must not inherit the failure.
    suspend(&mut cell);
    assert_eq!(cell.begin(), Begin::Wait);

    order.push("first failed");
    assert_eq!(cell.finish(Err::<u32, _>("no")), Err(("no", Release::One)));

    let second = get_or_try_init(&mut cell, || {
        order.push("second ran");
        Ok::<_, &str>(11)
    });
    assert_eq!(second.unwrap(), 11);
    assert_eq!(order, vec!["first failed", "second ran"]);
}

#[test]
fn a_concurrent_get_or_init_waits_rather_than_initialising_again() {
    let mut cell = OnceCell::new();
    let mut runs = 0;

    // The first initialiser suspends, so the second arrives while
    // initialisation is still in flight.
    suspend(&mut cell);
    assert_eq!(cell.begin(), Begin::Wait);

    runs += 1;
    assert_eq!(cell.finish(Ok::<_, ()>(7)), Ok(Release::All));
    let slow = *cell.get().unwrap();

    let second = get_or_init(&mut cell, || {
        runs += 1;
        99
    });

    assert_eq!(slow, 7);
    assert_eq!(second, 7, "the second caller should see the first value");
    assert_eq!(runs, 1, "the initialiser ran more than once");
}

#[test]
fn an_initialiser_arriving_after_set_returns_the_value_that_is_there() {
    let mut cell: OnceCell<u32> = OnceCell::new();

    assert_eq!(cell.set(1), Ok(()));

    let mut ran = false;
    let value = get_or_init(&mut cell, || {
        ran = true;
        2
    });

    assert_eq!(value, 1, "the value that was set stands");
    assert!(!ran, "and the initialiser was never run");
}

#[test]
fn set_is_refused_while_an_initialiser_holds_the_permit() {
    let mut cell: OnceCell<u32> = OnceCell::new();
    suspend(&mut cell);

    assert_eq!(
        cell.set(1),
        Err(1),
        "an initialiser is mid-flight, so the value is not ours to set"
    );
    assert_eq!(cell.get(), None, "and nothing was published");

    assert_eq!(cell.finish(Ok::<_, ()>(2)), Ok(Release::All));
    assert_eq!(cell.get(), Some(&2), "the initialiser's own value stands");

    assert_eq!(
        cell.set(3),
        Err(3),
        "and a set after the fact is refused as well"
    );
}

#[test]
fn an_initialiser_still_wins_when_nothing_races_it() {
    let mut cell: OnceCell<u32> = OnceCell::new();
    assert_eq!(get_or_init(&mut cell, || 7), 7);
    assert_eq!(cell.set(9), Err(9), "already initialised");
    assert_eq!(cell.get(), Some(&7));
}

#[test]
fn get_mut_reaches_the_value() {
    let mut cell = OnceCell::new();
    assert!(cell.get_mut().is_none(), "empty cell has nothing to borrow");
    cell.set(1u32).unwrap();
    *cell.get_mut().unwrap() += 1;
    assert_eq!(cell.get(), Some(&2));
}

#[test]
fn take_empties_the_cell_and_leaves_it_reusable() {
    let mut cell = OnceCell::new();
    cell.set(1u32).unwrap();

    assert_eq!(cell.take(), Some(1));
    assert_eq!(cell.take(), None, "taking twice yields nothing");
    assert!(!cell.is_initialized());

    assert_eq!(
        get_or_init(&mut cell, || 2),
        2,
        "an emptied cell initialises again"
    );
}

#[test]
fn into_inner_yields_the_value() {
    let mut cell = OnceCell::new();
    cell.set(9u32).unwrap();
    assert_eq!(cell.into_inner(), Some(9));
    assert_eq!(OnceCell::<u32>::new().into_inner(), None);
}

#[test]
fn from_starts_initialised() {
    let mut cell = OnceCell::from(4u32);
    assert!(cell.is_initialized());
    assert_eq!(cell.get(), Some(&4));
    assert_eq!(
        cell.set(5),
        Err(5),
        "an initialised cell refuses a second value"
    );
}

#[test]
fn a_taken_cell_still_serialises_its_initialisers() {
    let mut cell = OnceCell::new();
    cell.set(1u32).unwrap();
    cell.take();

    let mut runs = 0;
    for _ in 0..3 {
        get_or_init(&mut cell, || {
            runs += 1;
            7u32
        });
    }
    assert_eq!(runs, 1, "the initialiser still runs exactly once");
    assert_eq!(cell.get(), Some(&7));
}

#[test]
fn debug_shows_the_value() {
    let full = OnceCell::from(42u32);
    assert_eq!(full.debug(&format!("{:?}", full.get().unwrap())), "OnceCell(42)");
    assert_eq!(OnceCell::<u32>::new().debug(""), "OnceCell(<uninit>)");

    let std_cell = std::cell::OnceCell::from(42u32);
    assert_eq!(
        full.debug(&format!("{:?}", full.get().unwrap())),
        format!("{std_cell:?}"),
        "the full case matches std"
    );
}

#[test]
fn clone_copies_a_published_value() {
    let cell = OnceCell::from(String::from("hello"));
    let copy = cell.clone();
    assert_eq!(copy.get().map(String::as_str), Some("hello"));
    assert_eq!(
        OnceCell::<String>::new().clone().get(),
        None,
        "an empty cell clones empty"
    );
}

#[test]
fn a_clone_taken_mid_initialisation_is_empty_and_independent() {
    let mut cell: OnceCell<u32> = OnceCell::new();
    suspend(&mut cell);

    let mut copy = cell.clone();
    assert_eq!(
        copy.get(),
        None,
        "nothing published yet, so the clone is empty"
    );
    let cloner = get_or_init(&mut copy, || 2u32);

    assert_eq!(cell.finish(Ok::<_, ()>(1)), Ok(Release::All));
    assert_eq!(cloner, 2, "the clone initialised itself");
    assert_eq!(cell.get(), Some(&1), "the original is unaffected");
}

#[test]
fn eq_compares_values_not_identity() {
    assert!(OnceCell::from(1u32) == OnceCell::from(1u32));
    assert!(OnceCell::from(1u32) != OnceCell::from(2u32));
    assert!(OnceCell::<u32>::new() == OnceCell::<u32>::new());
    assert!(OnceCell::from(1u32) != OnceCell::<u32>::new());
}

#[test]
fn a_second_task_waits_rather_than_panicking() {
    let mut cell: OnceCell<u32> = OnceCell::new();
    let mut runs = 0;

    runs += 1;
    suspend(&mut cell);
    assert_eq!(cell.begin(), Begin::Wait);

    assert_eq!(cell.finish(Ok::<_, ()>(7)), Ok(Release::All));
    let first = *cell.get().unwrap();
    let second = get_or_init(&mut cell, || {
        runs += 1;
        99u32
    });

    assert_eq!(first, 7, "the first task's value wins");
    assert_eq!(second, 7, "the second task sees the same value");
    assert_eq!(runs, 1, "the initialiser ran exactly once");
}

/// An initialiser that is unwound must lower the flag on its way out, or the
/// cell would refuse every later caller.
#[test]
fn an_unwound_initialiser_leaves_the_cell_usable() {
    let mut cell: OnceCell<u32> = OnceCell::new();
    assert_eq!(cell.begin(), Begin::Initialise);
    cell.enter_initialiser();
    assert_eq!(cell.abandon(), Release::One);

    assert!(
        !cell.is_initialiser_on_stack(),
        "the flag was lowered"
    );
    assert_eq!(get_or_init(&mut cell, || 5), 5);
}

#[test]
fn an_initialiser_that_reenters_is_told() {
    let mut cell: OnceCell<u32> = OnceCell::new();
    assert_eq!(cell.begin(), Begin::Initialise);
    // Before there is anything to poll, and each time it is polled.
    for _ in 0..2 {
        cell.enter_initialiser();
        assert_eq!(cell.begin(), Begin::Reentered);
        cell.leave_initialiser();
    }
    // A caller that came while it was suspended waits, and is told once it is
    // polled from inside.
    assert_eq!(cell.begin(), Begin::Wait);
    cell.enter_initialiser();
    assert_eq!(cell.begin(), Begin::Reentered);
    assert!(cell.get().is_none());
}

#[test]
fn a_default_cell_is_empty() {
    assert!(OnceCell::<u32>::default().get().is_none());
}
