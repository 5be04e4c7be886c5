use glommio::executor::context::{
    upgrade, ExecutorContext, IoRequirements, Latency, LeaveStep, QueueNotFound, Shares, TaskQueueHandle,
};
use glommio::executor::local_context::LocalContext;
use glommio::executor::multitask::{latency_matters, Destination, Scheduler};
use glommio::future::{timeout, TimedOut};
use glommio::timer::time::Duration;

const SOON: Latency = Latency::Matters(Duration { nanos: 1_000_000 });

#[test]
fn scopes_restore_the_executor_they_were_entered_from() {
    let mut slot = LocalContext::new();
    assert!(!slot.is_set());
    let outer = slot.set(1);
    let inner = slot.set(2);
    assert_eq!(slot.with(), 2);
    slot.reset(inner);
    assert_eq!(slot.with(), 1);
    // However the scope is left.
    let inner = slot.set(2);
    assert_eq!(slot.try_with(), Some(2));
    slot.reset(inner);
    assert_eq!(slot.with(), 1);
    slot.reset(outer);
    assert!(!slot.is_set());
    assert_eq!(slot.try_with(), None);
}

#[test]
fn queues_are_found_by_their_handles() {
    let mut context: ExecutorContext<u32> = ExecutorContext::new(9);
    assert_eq!(context.id(), 9);
    let a = context.create_task_queue(Shares::default(), Latency::NotImportant, "default".to_string());
    let b = context.create_task_queue(Shares::Static(3), SOON, "fast".to_string());
    assert_eq!((a.index, b.index), (0, 1));
    assert_eq!(context.get_queue(&b), Some(1));
    assert_eq!(context.get_queue(&TaskQueueHandle { index: 2 }), None);
    assert_eq!(context.spawn_into(b), Ok(1));
    assert_eq!(context.spawn_into(TaskQueueHandle { index: 7 }), Err(QueueNotFound { index: 7 }));
    assert_eq!(context.queues[1].io_requirements, IoRequirements { latency_req: SOON, io_handle: 1 });
    assert_eq!(context.queues[1].name, "fast");
    assert_eq!(context.queues[0].shares, Shares::default());
    assert_eq!(context.queues[1].shares, Shares::Static(3));

    context.queues[1].available = false;
    assert_eq!(context.get_queue(&b), None);
    assert_eq!(context.spawn_into(b), Err(QueueNotFound { index: 1 }));
}

#[test]
fn tasks_run_in_the_order_they_were_scheduled() {
    let mut context = ExecutorContext::new(9);
    context.create_task_queue(Shares::default(), Latency::NotImportant, "default".to_string());
    context.schedule(0, "a");
    context.schedule(0, "b");
    assert!(context.queues[0].active);
    assert_eq!(context.get_task(0), Some("a"));
    assert_eq!(context.get_task(0), Some("b"));
    assert_eq!(context.get_task(0), None);
}

#[test]
fn a_task_without_a_queue_goes_to_the_cleanup_queue() {
    let mut context = ExecutorContext::new(9);
    assert_eq!(context.schedule_cleanup("first"), 0);
    assert_eq!(context.queues[0].name, "cleanup");
    context.create_task_queue(Shares::Static(3), SOON, "other".to_string());
    assert_eq!(context.cleanup_queue(), 0, "the default queue comes first");
    context.queues[0].available = false;
    assert_eq!(context.schedule_cleanup("second"), 1, "then any other");
    context.queues[1].available = false;
    assert_eq!(context.cleanup_queue(), 2, "then a new one");
    assert_eq!(context.queues[2].name, "cleanup");
}

#[test]
fn the_executing_queue_is_where_tasks_are_spawned() {
    let mut context: ExecutorContext<u32> = ExecutorContext::new(9);
    context.create_task_queue(Shares::default(), Latency::NotImportant, "default".to_string());
    context.create_task_queue(Shares::Static(3), SOON, "fast".to_string());
    assert_eq!(context.spawn_internal(), 0);
    context.active_executing = Some(1);
    assert_eq!(context.spawn_internal(), 1);
    assert_eq!(context.current_task_queue(), TaskQueueHandle { index: 1 });
    context.mark_me_for_yield();
    assert!(context.queues[1].yielded && !context.queues[0].yielded);
}

#[test]
fn entering_a_context_to_drop_a_task_is_undone() {
    let mut context: ExecutorContext<u32> = ExecutorContext::new(9);
    context.create_task_queue(Shares::default(), Latency::NotImportant, "default".to_string());
    context.create_task_queue(Shares::Static(3), SOON, "fast".to_string());
    let before = context.io_requirements;

    let previous = context.enter_cleanup(Some(1));
    assert_eq!(context.active_executing, Some(1));
    assert_eq!(context.io_requirements, IoRequirements { latency_req: SOON, io_handle: 1 });
    let nested = context.enter_cleanup(None);
    assert_eq!(context.active_executing, Some(1), "the queue that is executing will do");
    context.leave_cleanup(nested);
    assert_eq!(context.active_executing, Some(1));
    context.leave_cleanup(previous);
    assert_eq!(context.active_executing, None);
    assert_eq!(context.io_requirements, before);

    let previous = context.enter_cleanup(None);
    assert_eq!(context.active_executing, Some(0));
    context.leave_cleanup(previous);
}

#[test]
fn a_shutdown_drains_every_queue() {
    let mut context = ExecutorContext::new(9);
    for name in ["a", "b", "c"] {
        context.create_task_queue(Shares::default(), Latency::NotImportant, name.to_string());
    }
    context.schedule(1, 10);
    context.schedule(2, 20);
    context.schedule(2, 21);
    let mut dropped = Vec::new();
    while let Some(queue) = context.next_to_drain(0, 3) {
        while let Some(task) = context.get_task(queue) {
            // Dropping one may schedule another.
            if task == 20 {
                context.schedule(2, 22);
            }
            dropped.push(task);
        }
    }
    assert_eq!(dropped, vec![10, 20, 21, 22]);
}

#[test]
fn a_context_is_recovered_only_whole() {
    assert_eq!(upgrade(Some("q"), Some("t"), Some("r"), 9), Some(("q", "t", 9, "r")));
    assert_eq!(upgrade(None::<u8>, Some("t"), Some("r"), 9), None);
    assert_eq!(upgrade(Some("q"), None::<u8>, Some("r"), 9), None);
    assert_eq!(upgrade(Some("q"), Some("t"), None::<u8>, 9), None);
}

#[test]
fn a_runnable_task_goes_where_its_owner_is() {
    let scheduler = Scheduler::new(3, 9);
    assert_eq!((scheduler.queue, scheduler.owner_id), (3, 9));
    // Its owner runs on this thread.
    assert_eq!(scheduler.schedule(Some(9), true, true, false), Destination::Queue);
    assert_eq!(scheduler.schedule(Some(9), true, true, true), Destination::Queue);
    assert_eq!(scheduler.schedule(Some(9), false, true, false), Destination::Cleanup);
    // It does not.
    for running in [None, Some(8)] {
        assert_eq!(scheduler.schedule(running, true, true, false), Destination::Queue);
        assert_eq!(scheduler.schedule(running, true, true, true), Destination::DropInContext);
        assert_eq!(scheduler.schedule(running, false, true, false), Destination::DropInContext);
        assert_eq!(scheduler.schedule(running, true, false, false), Destination::Drop);
    }
    assert!(latency_matters(&IoRequirements { latency_req: SOON, io_handle: 0 }));
    assert!(!latency_matters(&IoRequirements { latency_req: Latency::NotImportant, io_handle: 0 }));
}

const DUR: Duration = Duration { nanos: 10_000_000 };

#[test]
fn any_future_is_accepted() {
    assert_eq!(timeout(DUR, Some(42u32), false).unwrap().unwrap(), 42);

    // Somebody else's `Result` comes back whole rather than flattened, so the
    // caller still knows which of the two failures happened.
    let nested = timeout(DUR, Some(Err::<u32, _>("theirs")), false);
    assert_eq!(nested.unwrap().unwrap().unwrap_err(), "theirs");
}

#[test]
fn the_deadline_is_reported_as_timed_out() {
    assert_eq!(timeout(DUR, None::<u32>, false), None);
    let err = timeout(DUR, None::<u32>, true).unwrap().unwrap_err();
    assert_eq!(err, TimedOut { after: DUR });
}

#[test]
fn a_ready_future_beats_the_timer() {
    assert_eq!(timeout(Duration { nanos: 1 }, Some(7u32), true).unwrap().unwrap(), 7);
}

#[test]
fn an_executor_that_shuts_down_is_drained_before_it_is_left() {
    let mut context = ExecutorContext::new(9);
    for name in ["a", "b"] {
        context.create_task_queue(Shares::default(), Latency::NotImportant, name.to_string());
    }
    context.schedule(1, 10);
    // Nothing holds an executor back that goes on.
    assert_eq!(context.leave_step(false, false, 0, 2), LeaveStep::Leave);
    assert_eq!(context.leave_step(true, false, 0, 2), LeaveStep::DropTasks);
    assert_eq!(context.leave_step(true, true, 0, 2), LeaveStep::Drain(1));
    // What lies on queues made meanwhile is not waited for.
    assert_eq!(context.leave_step(true, true, 0, 1), LeaveStep::Leave);
    assert_eq!(context.get_task(1), Some(10));
    assert_eq!(context.leave_step(true, true, 1, 2), LeaveStep::Leave);
}

#[test]
fn a_queue_made_for_cleaning_up_is_a_fresh_one() {
    let mut context: ExecutorContext<u32> = ExecutorContext::new(9);
    assert_eq!(context.schedule_cleanup(5), 0);
    let queue = &context.queues[0];
    assert_eq!((queue.name.as_str(), queue.shares), ("cleanup", Shares::default()));
    assert_eq!(queue.io_requirements, IoRequirements { latency_req: Latency::NotImportant, io_handle: 0 });
    assert!(queue.active && queue.available && !queue.yielded);
    assert_eq!(context.get_task(0), Some(5));
}
