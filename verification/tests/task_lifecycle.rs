use glommio::executor::multitask::Task;
use glommio::task::join_handle::JoinHandle;
use glommio::task::layout::{extend, future_layout, task_layout, MemoryLayout, TaskLayout};
use glommio::task::flow::{resume_freed, Action, Event, Flow, Next};
use glommio::task::raw::{CancelStep, JoinStep, RawTask};
use glommio::task::registry::TaskRegistry;

const EXECUTOR_ID: usize = 0;

/// A notification on its way to the owner. Each holds a reference.
#[derive(Clone, Copy)]
enum Note {
    Wake,
    Cleanup,
}

/// What the schedule function does with a runnable.
#[derive(Clone, Copy)]
enum Callback {
    Queue,
    Run,
    Drop,
}

/// What polling the future does.
#[derive(Clone, Copy)]
enum Poll<R: 'static> {
    Ready(R),
    /// Returns pending after so many wakes of itself.
    Pending(usize),
    /// Keeps a clone of its waker and then does as told.
    Saving(&'static Poll<R>),
    Unwind,
}

/// Drives a task: makes the calls that its steps ask for.
struct Driver<R: Copy + 'static> {
    task: RawTask<R>,
    script: Vec<Poll<R>>,
    callback: Callback,
    queued: usize,
    notes: Vec<Note>,
    accepts_foreign: bool,
    polls: usize,
    saved: usize,
    future_drops: usize,
    schedule_drops: usize,
    notified: usize,
    unread: Vec<R>,
    freed: usize,
    unlinked: usize,
    /// The schedule function unwinds, once it has done as told.
    schedule_unwinds: bool,
    /// The output's destructor unwinds.
    output_unwinds: bool,
    unwound: usize,
    layout: TaskLayout,
    allocated: usize,
}

const POINTER: MemoryLayout = MemoryLayout { size: 8, align: 8 };

impl<R: Copy + 'static> Driver<R> {
    /// A task whose polls go by `script`.
    fn spawn(script: Vec<Poll<R>>, callback: Callback) -> (Self, JoinHandle<R>) {
        Self::spawn_sized(0, script, callback)
    }

    /// A task whose future takes `size` bytes.
    fn spawn_sized(size: usize, script: Vec<Poll<R>>, callback: Callback) -> (Self, JoinHandle<R>) {
        let future = future_layout(MemoryLayout { size, align: 1 }, POINTER);
        assert_eq!(future == POINTER, size >= 2048);
        let output = MemoryLayout { size: size_of::<R>(), align: align_of::<R>() };
        let header = MemoryLayout { size: 64, align: 8 };
        let layout = task_layout(header, MemoryLayout { size: 0, align: 1 }, future, output).unwrap();
        assert_eq!(layout.layout.size, 64 + future.size.max(output.size));
        let driver = Driver {
            task: RawTask::allocate(EXECUTOR_ID, false),
            script,
            callback,
            queued: 0,
            notes: Vec::new(),
            accepts_foreign: true,
            polls: 0,
            saved: 0,
            future_drops: 0,
            schedule_drops: 0,
            notified: 0,
            unread: Vec::new(),
            freed: 0,
            unlinked: 0,
            schedule_unwinds: false,
            output_unwinds: false,
            unwound: 0,
            layout,
            allocated: layout.layout.size,
        };
        assert!(driver.task.is_local(Some(EXECUTOR_ID)));
        (driver, JoinHandle::new(7))
    }

    fn assert_live(&self) {
        assert_eq!(self.freed, 0, "task allocation freed prematurely");
    }

    fn assert_freed(&self) {
        assert_eq!(self.freed, 1, "task allocation was not freed exactly once");
        assert_eq!(self.future_drops, 1);
        assert_eq!(self.schedule_drops, 1);
        assert!(self.unlinked <= 1);
        assert_eq!(self.allocated, 0);
        assert_eq!(self.task.references, 0);
    }

    /// Makes the calls that a flow asks for until it is over.
    fn drive(&mut self, mut next: Next<R>) -> bool {
        loop {
            let mut event = Event::Returned;
            match next.action {
                Action::Poll => {
                    let poll = self.script[self.polls];
                    self.polls += 1;
                    event = self.poll_future(poll);
                }
                Action::DropFuture => self.future_drops += 1,
                Action::DropSchedule => self.schedule_drops += 1,
                Action::DropOutput(output) => {
                    self.unread.push(output);
                    if self.output_unwinds {
                        self.unwound += 1;
                        event = Event::Unwound;
                    }
                }
                Action::Schedule => {
                    match self.callback {
                        Callback::Queue => self.queued += 1,
                        Callback::Run => {
                            self.run();
                        }
                        Callback::Drop => self.drop_task(),
                    }
                    self.assert_live();
                    assert_eq!(self.schedule_drops, 0, "the callback outlived its function");
                    if self.schedule_unwinds {
                        self.unwound += 1;
                        event = Event::Unwound;
                    }
                }
                Action::Notify => self.notified += 1,
                Action::Unlink => self.unlinked += 1,
                Action::QueueWake => self.notes.push(Note::Wake),
                Action::QueueCleanup => self.notes.push(Note::Cleanup),
                Action::Free => {
                    self.freed += 1;
                    self.allocated -= self.layout.layout.size;
                }
                Action::Return(scheduled) => return scheduled,
            }
            next = match next.flow {
                Flow::Over => return false,
                Flow::Freed(output, scheduled) => resume_freed(output, scheduled),
                flow => self.task.resume(self.accepts_foreign, flow, event),
            };
        }
    }

    fn wake(&mut self, local: bool) {
        let next = self.task.begin_wake(local);
        self.drive(next);
    }

    fn drop_waker(&mut self, local: bool) {
        let next = self.task.begin_drop_waker(local, self.accepts_foreign);
        self.drive(next);
    }

    fn cleanup(&mut self, local: bool) {
        let next = self.task.begin_cleanup(local);
        self.drive(next);
    }

    fn schedule_owned(&mut self) {
        let next = self.task.begin_schedule();
        self.drive(next);
    }

    fn drop_task(&mut self) {
        let next = self.task.begin_drop_task(self.accepts_foreign);
        self.drive(next);
    }

    fn shutdown(&mut self) {
        if self.task.linked {
            let next = self.task.begin_shutdown(self.accepts_foreign);
            self.drive(next);
        }
        // The owner is gone: what was queued for it is dropped.
        self.accepts_foreign = false;
        while let Some(_note) = self.notes.pop() {
            self.drop_waker(true);
        }
    }

    fn take_queued(&mut self) {
        assert!(self.queued > 0, "scheduled");
        self.queued -= 1;
    }

    fn poll_future(&mut self, poll: Poll<R>) -> Event<R> {
        match poll {
            Poll::Ready(output) => Event::Ready(output),
            Poll::Pending(wakes) => {
                for _ in 0..wakes {
                    self.wake(true);
                }
                Event::Pending
            }
            Poll::Saving(then) => {
                self.task.clone_waker();
                self.saved += 1;
                self.poll_future(*then)
            }
            Poll::Unwind => Event::Unwound,
        }
    }

    fn run(&mut self) -> bool {
        let next = self.task.begin_run(self.accepts_foreign);
        self.drive(next)
    }

    fn cancel(&mut self) {
        let next = self.task.begin_cancel();
        self.drive(next);
    }

    fn drop_handle(&mut self, _handle: JoinHandle<R>) {
        let next = self.task.begin_drop_handle(self.accepts_foreign);
        self.drive(next);
    }

    /// `None` while it is pending.
    fn poll_once(&mut self, handle: &JoinHandle<R>) -> Option<Option<R>> {
        match handle.poll(&mut self.task) {
            JoinStep::Pending => None,
            JoinStep::Ready { output, notify } => {
                self.notified += usize::from(notify);
                Some(output)
            }
        }
    }

    /// The owner takes a notification.
    fn take_note(&mut self) {
        if !self.notes.is_empty() {
            match self.notes.remove(0) {
                Note::Wake => self.wake(true),
                Note::Cleanup => self.cleanup(true),
            }
            self.drop_waker(true);
        }
    }
}

#[test]
fn self_waker_can_be_registered_and_notified_on_cancellation() {
    const THEN: Poll<()> = Poll::Pending(0);
    let (mut driver, handle) = Driver::<()>::spawn(vec![Poll::Saving(&THEN)], Callback::Queue);
    driver.run();
    assert_eq!(driver.saved, 1, "task was not polled");

    assert_eq!(driver.poll_once(&handle), None);
    driver.cancel();
    assert_eq!(driver.notified, 1);
    assert_eq!(driver.polls, 1, "notification must not poll the future");
    assert_eq!(driver.queued, 1, "cancellation must queue cleanup");

    driver.take_queued();
    driver.run();
    assert_eq!(driver.poll_once(&handle), Some(None));
    assert_eq!(driver.polls, 1, "cleanup must not poll the cancelled future");
    assert_eq!(driver.queued, 0);
}

#[test]
fn run_to_completion_yields_output() {
    let (mut driver, handle) = Driver::spawn(vec![Poll::Ready(42u32)], Callback::Queue);

    driver.run();
    assert_eq!(driver.queued, 0, "a ready task should not reschedule");
    assert_eq!(driver.poll_once(&handle), Some(Some(42)));
}

#[test]
fn dropping_the_runnable_cancels() {
    let (mut driver, handle) = Driver::spawn(vec![Poll::Ready(7u32)], Callback::Queue);

    driver.schedule_owned();
    driver.take_queued();
    driver.drop_task();
    assert_eq!(driver.poll_once(&handle), Some(None));
    assert_eq!(driver.polls, 0);
}

#[test]
fn dropping_the_handle_leaves_the_task_runnable() {
    let (mut driver, handle) = Driver::spawn(vec![Poll::Ready(1u32)], Callback::Queue);

    driver.drop_handle(handle);
    driver.run();
    assert_eq!(driver.queued, 0);
    assert_eq!(driver.unread, vec![1], "no handle is left to collect the output");
    driver.assert_freed();
}

#[test]
fn dropping_both_without_running_frees_the_task() {
    let (mut driver, handle) = Driver::spawn(vec![Poll::Ready(1u32)], Callback::Queue);
    driver.drop_handle(handle);
    driver.schedule_owned();
    driver.take_queued();
    driver.drop_task();
    assert_eq!(driver.queued, 0);
    driver.assert_freed();
}

#[test]
fn scheduling_hands_the_runnable_to_the_schedule_function() {
    let (mut driver, handle) = Driver::spawn(vec![Poll::Ready(9u32)], Callback::Queue);

    driver.schedule_owned();
    assert_eq!(driver.queued, 1);

    driver.take_queued();
    driver.run();
    assert_eq!(driver.poll_once(&handle), Some(Some(9)));
}

#[test]
fn a_task_that_yields_is_rescheduled_and_completes() {
    let (mut driver, handle) = Driver::spawn(vec![Poll::Pending(1), Poll::Ready(5u32)], Callback::Queue);

    assert!(driver.run());
    driver.take_queued();
    assert!(!driver.run());
    assert_eq!(driver.poll_once(&handle), Some(Some(5)));
}

#[test]
fn output_is_dropped_when_the_handle_goes_away_first() {
    let (mut driver, handle) = Driver::spawn(vec![Poll::Ready(3u32)], Callback::Queue);
    driver.run();
    assert_eq!(driver.unread, vec![], "output held by the handle");
    driver.drop_handle(handle);
    assert_eq!(driver.unread, vec![3], "output dropped with the handle");
    driver.assert_freed();
}

#[test]
fn many_tasks_allocate_and_free() {
    for i in 0..64u32 {
        let (mut driver, handle) = Driver::spawn(vec![Poll::Ready(i)], Callback::Queue);
        driver.run();
        assert_eq!(driver.poll_once(&handle), Some(Some(i)));
        assert_eq!(driver.queued, 0);
        driver.drop_handle(handle);
        driver.assert_freed();
    }
}

fn zero_sized_callback(size: usize, run: bool) {
    let callback = if run { Callback::Run } else { Callback::Drop };
    let (mut driver, handle) = Driver::spawn_sized(size, vec![Poll::Ready(())], callback);
    driver.drop_handle(handle);
    driver.schedule_owned();
    driver.assert_freed();
    assert_eq!(driver.polls, usize::from(run));
    assert_eq!(driver.unread.len(), usize::from(run));
}

#[test]
fn zero_sized_callback_run_inline() {
    zero_sized_callback(0, true);
}

#[test]
fn zero_sized_callback_run_boxed() {
    zero_sized_callback(4096, true);
}

#[test]
fn zero_sized_callback_drop_inline() {
    zero_sized_callback(0, false);
}

#[test]
fn zero_sized_callback_drop_boxed() {
    zero_sized_callback(4096, false);
}

const DONE: Poll<()> = Poll::Ready(());

/// A task that was run to its end and whose waker somebody kept.
fn completed_waker(size: usize) -> Driver<()> {
    let (mut driver, handle) = Driver::<()>::spawn_sized(size, vec![Poll::Saving(&DONE)], Callback::Queue);
    driver.run();
    assert_eq!(driver.poll_once(&handle), Some(Some(())));
    driver.drop_handle(handle);
    assert_eq!(driver.future_drops, 1);
    driver.assert_live();
    driver
}

/// What a worker does to the waker it was given, as single steps.
fn operations(worker: usize, notify: bool) -> Vec<&'static str> {
    let mut steps = Vec::new();
    for operation in 0..16 {
        steps.push("clone");
        if notify {
            steps.push("wake_by_ref");
        }
        if notify && operation % 2 == 0 {
            steps.push("wake_by_ref");
        }
        steps.push("drop");
    }
    if notify && worker.is_multiple_of(2) {
        steps.push("wake_by_ref");
    }
    steps.push("drop");
    steps
}

fn take(driver: &mut Driver<()>, step: &str) {
    match step {
        "clone" => driver.task.clone_waker(),
        "wake_by_ref" => driver.wake(false),
        _ => driver.drop_waker(false),
    }
}

fn ordered_foreign_wakes(size: usize, shutdown_first: bool) {
    let mut driver = completed_waker(size);
    if shutdown_first {
        driver.shutdown();
    }
    let freed_before_release = driver.freed;
    for step in operations(0, true) {
        take(&mut driver, step);
    }
    // In the other ordering, all notifications are queued before shutdown.
    if !shutdown_first {
        driver.shutdown();
    }
    assert_eq!(freed_before_release, 0, "live waker lost its allocation");
    driver.assert_freed();
}

#[test]
fn foreign_wakes_queued_before_shutdown_inline() {
    ordered_foreign_wakes(0, false);
}

#[test]
fn foreign_wakes_queued_before_shutdown_boxed() {
    ordered_foreign_wakes(4096, false);
}

#[test]
fn foreign_wakes_released_after_shutdown_inline() {
    ordered_foreign_wakes(0, true);
}

#[test]
fn foreign_wakes_released_after_shutdown_boxed() {
    ordered_foreign_wakes(4096, true);
}

const ROUNDS: usize = 16;
const WORKERS: usize = 4;

struct Pick(u64);

impl Pick {
    fn below(&mut self, n: usize) -> usize {
        self.0 = self.0.wrapping_mul(6364136223846793005).wrapping_add(1442695040888963407);
        (self.0 >> 33) as usize % n
    }
}

/// Takes the steps of all workers, and those of the owner, in some order that
/// keeps each one's own.
fn interleave(driver: &mut Driver<()>, mut todo: Vec<Vec<&'static str>>, pick: &mut Pick) {
    while !todo.is_empty() {
        let who = pick.below(todo.len());
        let step = todo[who].remove(0);
        match step {
            "shutdown" => driver.shutdown(),
            "note" => driver.take_note(),
            other => take(driver, other),
        }
        if todo[who].is_empty() {
            todo.remove(who);
        }
    }
}

fn race_completed_task_shutdown(size: usize) {
    for round in 0..ROUNDS {
        let mut pick = Pick((size + round) as u64);
        let mut driver = completed_waker(size);
        let notify = round % 2 == 0;
        let mut todo: Vec<_> = (0..WORKERS).map(|worker| operations(worker, notify)).collect();
        for _ in 0..WORKERS {
            driver.task.clone_waker();
        }
        todo.push(vec!["drop", "note", "shutdown"]);
        interleave(&mut driver, todo, &mut pick);
        driver.assert_freed();
    }
}

#[test]
fn concurrent_foreign_wakes_and_shutdown_inline() {
    race_completed_task_shutdown(0);
}

#[test]
fn concurrent_foreign_wakes_and_shutdown_boxed() {
    race_completed_task_shutdown(4096);
}

fn race_completion_and_handle_release(size: usize) {
    for round in 0..ROUNDS {
        let mut pick = Pick((size + round) as u64);
        let (mut driver, handle) = Driver::<()>::spawn_sized(size, vec![DONE], Callback::Queue);
        let notify = round % 2 == 0;
        let mut todo: Vec<_> = (0..WORKERS).map(|worker| operations(worker, notify)).collect();

        // The workers have their wakers before the poll returns; some of what
        // they do comes before it completes, the rest after.
        let next = driver.task.begin_run(true);
        assert!(matches!(next.action, Action::Poll));
        driver.polls += 1;
        for _ in 0..WORKERS {
            driver.task.clone_waker();
        }
        for steps in todo.iter_mut() {
            for _ in 0..pick.below(steps.len()) {
                let step = steps.remove(0);
                take(&mut driver, step);
            }
        }
        let next = driver.task.resume(true, next.flow, Event::Ready(()));
        driver.drive(next);

        assert_eq!(driver.poll_once(&handle), Some(Some(())));
        driver.drop_handle(handle);
        todo.push(vec!["note", "note", "shutdown"]);
        interleave(&mut driver, todo, &mut pick);
        assert_eq!(driver.polls, 1, "completed task repolled");
        driver.assert_freed();
    }
}

#[test]
fn concurrent_foreign_wakes_completion_and_handle_release_inline() {
    race_completion_and_handle_release(0);
}

#[test]
fn concurrent_foreign_wakes_completion_and_handle_release_boxed() {
    race_completion_and_handle_release(4096);
}

#[test]
fn rescheduling_a_queued_runnable_does_not_poll_it() {
    let script = vec![Poll::Pending(1), Poll::Pending(2), Poll::Pending(1), Poll::Ready(1u8)];
    let (mut driver, handle) = Driver::spawn(script, Callback::Queue);
    driver.schedule_owned();
    for _ in 0..4 {
        driver.take_queued();
        driver.schedule_owned();
        assert_eq!(driver.queued, 1);
        assert_eq!(driver.polls, 0);
    }
    for expected_poll in 1..=4 {
        driver.take_queued();
        assert_eq!(driver.queued, 0);
        assert_eq!(driver.run(), expected_poll < 4);
        assert_eq!(driver.polls, expected_poll);
    }
    assert_eq!(driver.future_drops, 1);
    driver.assert_live();
    assert_eq!(driver.poll_once(&handle), Some(Some(1)));
    driver.drop_handle(handle);
    driver.assert_freed();
}

#[test]
fn a_scheduler_that_runs_the_task_at_once_reschedules_it_too() {
    let (mut driver, handle) = Driver::spawn(vec![Poll::Pending(1), Poll::Ready(())], Callback::Run);
    driver.drop_handle(handle);
    driver.schedule_owned();
    assert_eq!(driver.polls, 2);
    driver.assert_freed();
}

#[test]
fn an_unwound_poll_cancels() {
    let (mut driver, handle) = Driver::<u8>::spawn(vec![Poll::Unwind], Callback::Queue);
    assert_eq!(driver.poll_once(&handle), None);
    driver.run();
    assert_eq!(driver.notified, 1);
    assert_eq!(driver.poll_once(&handle), Some(None));
    driver.drop_handle(handle);
    driver.assert_freed();
}

#[test]
fn an_abandoned_future_is_dropped() {
    // Nobody can wake it and nobody waits for it.
    let (mut driver, handle) = Driver::<u8>::spawn(vec![Poll::Pending(0)], Callback::Queue);
    driver.drop_handle(handle);
    driver.run();
    driver.assert_freed();

    // The last waker goes, on another thread: the owner cleans up.
    const THEN: Poll<u8> = Poll::Pending(0);
    let (mut driver, handle) = Driver::<u8>::spawn(vec![Poll::Saving(&THEN)], Callback::Queue);
    driver.drop_handle(handle);
    driver.run();
    driver.assert_live();
    driver.drop_waker(false);
    assert_eq!(driver.notes.len(), 1);
    driver.take_note();
    assert_eq!(driver.queued, 1, "destruction runs through the scheduler");
    driver.take_queued();
    driver.run();
    assert_eq!(driver.polls, 1);
    driver.assert_freed();

    // The handle goes last.
    let (mut driver, handle) = Driver::<u8>::spawn(vec![Poll::Pending(0)], Callback::Queue);
    driver.run();
    driver.drop_handle(handle);
    driver.take_queued();
    driver.run();
    driver.assert_freed();
}

#[test]
fn shutdown_drops_a_suspended_future() {
    const THEN: Poll<u8> = Poll::Pending(0);
    let (mut driver, handle) = Driver::<u8>::spawn(vec![Poll::Saving(&THEN)], Callback::Queue);
    driver.run();
    driver.drop_handle(handle);
    assert_eq!(driver.future_drops, 0);
    driver.shutdown();
    assert_eq!(driver.future_drops, 1, "shutdown retained the suspended future");
    driver.wake(false);
    driver.drop_waker(false);
    assert_eq!(driver.polls, 1, "shutdown polled the suspended future again");
    driver.assert_freed();
}

#[test]
fn a_task_is_cancelled_when_dropped_unless_detached() {
    let (mut driver, handle) = Driver::<u8>::spawn(vec![Poll::Ready(1)], Callback::Queue);
    let task = Task::new(handle);
    assert_eq!(task.dropped(&mut driver.task), Some(CancelStep::Notify));
    assert!(driver.task.closed);

    let (mut driver, handle) = Driver::<u8>::spawn(vec![Poll::Ready(1)], Callback::Queue);
    let mut task = Task::new(handle);
    assert_eq!(task.detach().task(), 7);
    assert_eq!(task.dropped(&mut driver.task), None);
    assert!(!driver.task.closed);

    let (mut driver, handle) = Driver::<u8>::spawn(vec![Poll::Pending(0)], Callback::Queue);
    driver.run();
    let mut task = Task::new(handle);
    assert!(matches!(task.poll(&mut driver.task), JoinStep::Pending));
    let (handle, step) = task.cancel(&mut driver.task);
    assert_eq!(step, CancelStep::Schedule);
    driver.schedule_owned();
    assert_eq!(driver.poll_once(&handle), None, "it waits for the task to stop");
    driver.take_queued();
    driver.run();
    assert_eq!(driver.poll_once(&handle), Some(None));
}

#[test]
fn the_parts_of_a_task_lie_one_after_the_other() {
    let layout = |size, align| MemoryLayout { size, align };
    let (whole, offset) = extend(layout(10, 4), layout(8, 8)).unwrap();
    assert_eq!((whole.size, whole.align, offset), (24, 8, 16));
    assert!(extend(layout(usize::MAX - 2, 1), layout(8, 8)).is_none());

    let task = task_layout(layout(40, 8), layout(3, 1), layout(100, 4), layout(16, 16)).unwrap();
    assert_eq!((task.offset_s, task.offset_f, task.offset_r), (40, 48, 48));
    assert_eq!((task.layout.size, task.layout.align), (48 + 100, 16));
    let real = std::alloc::Layout::from_size_align(40, 8)
        .unwrap()
        .extend(std::alloc::Layout::from_size_align(3, 1).unwrap())
        .unwrap();
    assert_eq!(real.1, task.offset_s);
}

#[test]
fn the_registry_lists_the_latest_first() {
    let mut registry = TaskRegistry::new();
    assert_eq!(registry.head(), None);
    for task in [3, 5, 9] {
        registry.insert(task);
    }
    assert_eq!(registry.head(), Some(9));
    registry.remove(5);
    assert!(!registry.contains(5));
    assert!(registry.contains(3) && registry.contains(9));
    // A shutdown reads the head again after each task.
    registry.remove(9);
    registry.insert(5);
    assert_eq!(registry.head(), Some(5));
    registry.remove(5);
    assert_eq!(registry.head(), Some(3));
    registry.remove(3);
    assert_eq!(registry.head(), None);
}

#[test]
fn running_says_so_when_the_schedule_function_drops_the_task() {
    // Woken during the poll, so the runnable goes to the schedule function,
    // which drops it: the task is freed before its run has been answered.
    let (mut driver, handle) = Driver::<u32>::spawn(vec![Poll::Pending(1)], Callback::Drop);
    driver.drop_handle(handle);
    assert!(driver.run());
    driver.assert_freed();
}

#[test]
fn running_says_so_when_the_task_is_queued_again() {
    let (mut driver, handle) = Driver::<u32>::spawn(vec![Poll::Pending(1), Poll::Pending(0)], Callback::Queue);
    assert!(driver.run());
    assert_eq!(driver.queued, 1);
    assert!(!driver.run());
    driver.drop_handle(handle);
}

#[test]
fn a_larger_future_is_boxed_and_still_torn_down() {
    let (mut driver, handle) = Driver::spawn_sized(4096, vec![Poll::Ready(7u32)], Callback::Queue);
    driver.run();
    assert_eq!(driver.poll_once(&handle), Some(Some(7)));
    driver.drop_handle(handle);
    driver.assert_freed();
}

/// A schedule function that runs or drops the task and then unwinds.
fn synchronous_schedule_then_unwind(size: usize, run: bool) {
    let callback = if run { Callback::Run } else { Callback::Drop };
    let (mut driver, handle) = Driver::spawn_sized(size, vec![Poll::Ready(())], callback);
    driver.schedule_unwinds = true;
    driver.drop_handle(handle);
    driver.schedule_owned();
    assert_eq!(driver.unwound, 1);
    assert_eq!(driver.polls, usize::from(run));
    driver.assert_freed();
}

#[test]
fn synchronous_schedule_run_then_panic_inline() {
    synchronous_schedule_then_unwind(0, true);
}

#[test]
fn synchronous_schedule_run_then_panic_boxed() {
    synchronous_schedule_then_unwind(4096, true);
}

#[test]
fn synchronous_schedule_drop_then_panic_inline() {
    synchronous_schedule_then_unwind(0, false);
}

#[test]
fn synchronous_schedule_drop_then_panic_boxed() {
    synchronous_schedule_then_unwind(4096, false);
}

#[test]
fn pending_reschedule_panic_releases_runnable_inline() {
    let (mut driver, handle) = Driver::<()>::spawn(vec![Poll::Pending(1)], Callback::Drop);
    driver.schedule_unwinds = true;
    driver.drop_handle(handle);
    driver.run();
    assert_eq!((driver.unwound, driver.polls), (1, 1));
    driver.assert_freed();
}

#[test]
fn wake_schedule_panic_releases_consumed_waker_inline() {
    const THEN: Poll<()> = Poll::Pending(0);
    let (mut driver, handle) = Driver::<()>::spawn(vec![Poll::Saving(&THEN)], Callback::Drop);
    driver.schedule_unwinds = true;
    driver.drop_handle(handle);
    driver.run();
    driver.wake(true);
    driver.drop_waker(true);
    assert_eq!((driver.unwound, driver.polls), (1, 1));
    driver.assert_freed();
}

#[test]
fn cleanup_schedule_panic_releases_last_waker_inline() {
    const THEN: Poll<()> = Poll::Pending(0);
    let (mut driver, handle) = Driver::<()>::spawn(vec![Poll::Saving(&THEN)], Callback::Drop);
    driver.schedule_unwinds = true;
    driver.drop_handle(handle);
    driver.run();
    driver.drop_waker(true);
    assert_eq!((driver.unwound, driver.polls), (1, 1));
    driver.assert_freed();
}

#[test]
fn nobody_is_notified_of_a_cancellation_that_unwinds() {
    let (mut driver, handle) = Driver::<u8>::spawn(vec![Poll::Pending(0)], Callback::Queue);
    driver.run();
    assert_eq!(driver.poll_once(&handle), None);
    driver.schedule_unwinds = true;
    driver.cancel();
    assert_eq!((driver.unwound, driver.notified), (1, 0));
    // Running the task, which the schedule function kept, makes up for it.
    driver.take_queued();
    driver.run();
    assert_eq!(driver.notified, 1);
    assert_eq!(driver.poll_once(&handle), Some(None));
    driver.drop_handle(handle);
    driver.assert_freed();
}

#[test]
fn an_output_that_unwinds_leaves_the_task_over() {
    let (mut driver, handle) = Driver::<u8>::spawn(vec![Poll::Ready(3)], Callback::Queue);
    driver.output_unwinds = true;
    driver.drop_handle(handle);
    driver.run();
    assert_eq!((driver.unwound, driver.unread.as_slice()), (1, &[3][..]));
    driver.assert_freed();

    // Cancelled while it was polled, with somebody waiting.
    let (mut driver, handle) = Driver::<u8>::spawn(vec![Poll::Ready(4)], Callback::Queue);
    driver.output_unwinds = true;
    assert_eq!(driver.poll_once(&handle), None);
    let next = driver.task.begin_run(true);
    driver.cancel();
    let next = driver.task.resume(true, next.flow, Event::Ready(4));
    driver.drive(next);
    assert_eq!((driver.unwound, driver.unread.as_slice()), (1, &[4][..]));
    assert_eq!(driver.poll_once(&handle), Some(None));
    driver.drop_handle(handle);
    driver.assert_freed();
}
