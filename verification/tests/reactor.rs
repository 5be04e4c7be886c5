use glommio::sys::reactor::Reactor;
use glommio::sys::requests::{
    copy_file_range_op, create_dir_op, remove_file_op, rename_op, ring_for_source, truncate_op, BlockingThreadOp,
};
use glommio::sys::ring::{Cqe, RingKind};
use glommio::sys::setup::{
    align_up, arena_size, check_memlock_limit, new_buffer, MemLockLimit, RegisterStep, Registration, Setup, SetupError,
    SetupEvent, SetupStep,
};
use glommio::sys::source::{
    Buffer, DirectIo, EnqueuedStatus, InnerSource, IoBuffer, Iovec, Msghdr, PollableStatus, SourceType, StatsCollection,
    Wakers,
};
use glommio::sys::sqe::{Sqe, UringDescriptor, UringOpDescriptor, IO_LINK};
use glommio::sys::stats::{Report, RingIoStats};
use glommio::sys::wait::{Event, Step, Wait};
use glommio::timer::time::Instant;

const BUF: Buffer = Buffer { addr: 0x1000, len: 512, uring_buffer_id: Some(0) };
const CACHED: PollableStatus = PollableStatus::NonPollable(DirectIo::Disabled);
const DIRECT: PollableStatus = PollableStatus::NonPollable(DirectIo::Enabled);

fn at(nanos: u128) -> Instant {
    Instant { nanos }
}

fn source(source_type: SourceType) -> InnerSource {
    InnerSource {
        fd: 3,
        source_type,
        enqueued: None,
        timeout: None,
        wakers: Wakers { result: None, waiters: 1, queued_at: None, submitted_at: None, fulfilled_at: None },
        stats_collection: None,
        task_queue: None,
    }
}

/// Keeps count of what was fulfilled, of what served others, and of failures.
fn record(report: Report) -> RingIoStats {
    let mut stats = report.stats;
    match (report.collector, report.result) {
        (0, Ok(_)) => stats.fulfilled += report.count,
        (1, _) => stats.reused += report.count,
        (2, Err(_)) => stats.fulfilled += 100 * report.count,
        _ => {}
    }
    stats
}

fn reactor() -> Reactor {
    Reactor::new(8, 40, 50, 0x5000)
}

fn last(reactor: &Reactor, kind: RingKind) -> UringDescriptor {
    let ring = match kind {
        RingKind::Main => &reactor.main_ring,
        RingKind::Latency => &reactor.latency_ring,
        RingKind::Poll => &reactor.poll_ring,
    };
    *ring.queue.submissions.back().unwrap()
}

/// Submits everything queued for a ring and takes in its completions.
fn complete(reactor: &mut Reactor, kind: RingKind, results: &[i32]) -> Vec<glommio::sys::ring::Reaped> {
    let ops = reactor.consume_submission_queue(kind, 8, at(20));
    reactor.submitted(kind, ops.len());
    let cqes: Vec<Cqe> =
        ops.iter().zip(results).map(|(op, result)| Cqe { user_data: op.user_data, result: *result }).collect();
    reactor.consume_completion_queue(kind, &cqes, at(30), record)
}

#[test]
fn requests_go_to_their_rings() {
    let iov = Iovec { addr: 1, base: 0, len: 0 };
    let hdr = Msghdr { addr: 2, name: 0, namelen: 0, iov: 0, iovlen: 0 };
    for (source_type, kind) in [
        (SourceType::Read(PollableStatus::Pollable, None), RingKind::Poll),
        (SourceType::Write(PollableStatus::Pollable, IoBuffer::DmaSource(BUF)), RingKind::Poll),
        (SourceType::Read(DIRECT, None), RingKind::Main),
        (SourceType::Write(CACHED, IoBuffer::Buffered(BUF)), RingKind::Main),
        (SourceType::SockRecv(None), RingKind::Latency),
        (SourceType::SockRecvMsg(None, iov, hdr, 3), RingKind::Latency),
        (SourceType::Accept(1, 2), RingKind::Latency),
        (SourceType::Connect(1, 2), RingKind::Latency),
        (SourceType::SockSend(BUF), RingKind::Main),
        (SourceType::SockSendMsg(BUF, iov, hdr, 3, 4), RingKind::Main),
        (SourceType::Open(1), RingKind::Main),
        (SourceType::Statx(1), RingKind::Main),
        (SourceType::Timeout(1, 0), RingKind::Main),
        (SourceType::LinkRings, RingKind::Main),
        (SourceType::Plain, RingKind::Main),
    ] {
        assert_eq!(ring_for_source(&source_type), kind, "{source_type:?}");
    }
}

#[test]
fn every_request_becomes_its_operation() {
    let mut r = reactor();
    let pollable = SourceType::Write(PollableStatus::Pollable, IoBuffer::DmaSource(BUF));
    r.write_dma(source(pollable), 64, at(1));
    assert_eq!(last(&r, RingKind::Poll).args, UringOpDescriptor::WriteFixed(0x1000, 512, 64, 0));
    r.write_dma(source(SourceType::Write(CACHED, IoBuffer::DmaSource(BUF))), 64, at(1));
    assert_eq!(last(&r, RingKind::Main).args, UringOpDescriptor::Write(0x1000, 512, 64));
    let heap = Buffer { uring_buffer_id: None, ..BUF };
    r.write_dma(source(SourceType::Write(DIRECT, IoBuffer::DmaSource(heap))), 65, at(1));
    assert_eq!(last(&r, RingKind::Main).args, UringOpDescriptor::Write(0x1000, 512, 65));
    r.write_buffered(source(SourceType::Write(CACHED, IoBuffer::Buffered(BUF))), 66, at(1));
    assert_eq!(last(&r, RingKind::Main).args, UringOpDescriptor::Write(0x1000, 512, 66));
    r.read_dma(source(SourceType::Read(DIRECT, None)), 1, 2, at(1));
    assert_eq!(last(&r, RingKind::Main).args, UringOpDescriptor::ReadFixed(1, 2));
    r.read_buffered(source(SourceType::Read(CACHED, None)), 1, 2, at(1));
    assert_eq!(last(&r, RingKind::Main).args, UringOpDescriptor::Read(1, 2));
    r.poll_ready(source(SourceType::Plain), 5, at(1));
    assert_eq!(last(&r, RingKind::Main).args, UringOpDescriptor::PollAdd(5));
    r.send(source(SourceType::SockSend(BUF)), 9, at(1));
    assert_eq!(last(&r, RingKind::Main).args, UringOpDescriptor::SockSend(0x1000, 512, 9));
    r.recv(source(SourceType::SockRecv(None)), 10, 11, at(1));
    assert_eq!(last(&r, RingKind::Latency).args, UringOpDescriptor::SockRecv(10, 11));
    r.connect(source(SourceType::Connect(12, 16)), at(1));
    assert_eq!(last(&r, RingKind::Latency).args, UringOpDescriptor::Connect(12, 16));
    r.accept(source(SourceType::Accept(13, 14)), at(1));
    assert_eq!(last(&r, RingKind::Latency).args, UringOpDescriptor::Accept(13, 14));
    r.fdatasync(source(SourceType::Plain), at(1));
    assert_eq!(last(&r, RingKind::Main).args, UringOpDescriptor::FDataSync);
    r.fallocate(source(SourceType::Plain), 1, 2, 3, at(1));
    assert_eq!(last(&r, RingKind::Main).args, UringOpDescriptor::Fallocate(1, 2, 3));
    r.close(source(SourceType::Plain), at(1));
    assert_eq!(last(&r, RingKind::Main).args, UringOpDescriptor::Close);
    r.statx_fd(source(SourceType::Statx(15)), at(1));
    assert_eq!(last(&r, RingKind::Main).args, UringOpDescriptor::StatxFd(3, 15));
    r.open_at(source(SourceType::Open(16)), 17, 18, at(1));
    assert_eq!(last(&r, RingKind::Main).args, UringOpDescriptor::Open(16, 17, 18));
    r.nop(source(SourceType::Plain), at(1));
    assert_eq!(last(&r, RingKind::Main).args, UringOpDescriptor::Nop);
    r.async_close(77);
    let close = last(&r, RingKind::Main);
    assert_eq!((close.fd, close.user_data, close.args), (77, 0, UringOpDescriptor::Close));
}

#[test]
fn messages_are_addressed_before_they_go_out() {
    let mut r = reactor();
    let iov = Iovec { addr: 0x200, base: 0x1000, len: 512 };
    let hdr = Msghdr { addr: 0x300, name: 0, namelen: 0, iov: 0, iovlen: 0 };
    let id = r.sendmsg(source(SourceType::SockSendMsg(BUF, iov, hdr, 0x400, 16)), 7, at(1));
    assert_eq!(last(&r, RingKind::Main).args, UringOpDescriptor::SockSendMsg(0x300, 7));
    let sent = Msghdr { addr: 0x300, name: 0x400, namelen: 16, iov: 0x200, iovlen: 1 };
    assert_eq!(r.sources.get(id).unwrap().source_type, SourceType::SockSendMsg(BUF, iov, sent, 0x400, 16));

    r.recvmsg(source(SourceType::SockRecvMsg(None, iov, hdr, 0x500)), 100, 8, at(1));
    assert_eq!(last(&r, RingKind::Latency).args, UringOpDescriptor::SockRecvMsg(100, 8));
}

#[test]
fn a_time_limit_follows_its_request() {
    let mut r = reactor();
    let limited = InnerSource { timeout: Some(0x99), ..source(SourceType::Plain) };
    let id = r.fdatasync(limited, at(1));
    let ops = r.consume_submission_queue(RingKind::Main, 1, at(2));
    assert!(ops.is_empty(), "half a chain is never submitted");
    let ops = r.consume_submission_queue(RingKind::Main, 2, at(2));
    assert_eq!(ops[0], UringDescriptor { fd: 3, flags: IO_LINK, user_data: id as u64 + 1, args: UringOpDescriptor::FDataSync });
    assert_eq!(ops[1], UringDescriptor { fd: -1, flags: 0, user_data: 0, args: UringOpDescriptor::LinkTimeout(0x99) });
}

#[test]
fn a_request_comes_back_with_its_result() {
    let mut r = reactor();
    let id = r.read_dma(source(SourceType::Read(DIRECT, None)), 64, 512, at(10));
    let ops = r.consume_submission_queue(RingKind::Main, 8, at(20));
    let entry = r.fill_sqe(&ops[0], Some(BUF));
    assert_eq!(entry.sqe, Sqe::ReadFixed { fd: 3, addr: 0x1000, len: 512, offset: 64, buf_index: 0 });
    assert_eq!(entry.user_data, id as u64 + 1);
    r.submitted(RingKind::Main, 1);

    let reaped = r.consume_completion_queue(RingKind::Main, &vec![Cqe { user_data: entry.user_data, result: 512 }], at(30), record);
    assert!(reaped[0].woke);
    let done = reaped[0].source.unwrap();
    assert_eq!(done.source_type, SourceType::Read(DIRECT, Some(IoBuffer::DmaSink(BUF))));
    assert_eq!(done.wakers.result, Some(Ok(512)));
    assert_eq!(
        (done.wakers.queued_at, done.wakers.submitted_at, done.wakers.fulfilled_at),
        (Some(at(10)), Some(at(20)), Some(at(30)))
    );
    assert!(r.sources.get(id).is_none());
}

#[test]
fn a_request_that_is_cancelled_is_dropped_or_recalled() {
    let mut r = reactor();
    let early = r.close(source(SourceType::Plain), at(1));
    let late = r.accept(source(SourceType::Accept(1, 2)), at(1));
    r.cancel(early, RingKind::Main);
    assert!(r.consume_submission_queue(RingKind::Main, 8, at(2)).is_empty());
    assert!(r.sources.get(early).is_none());

    assert_eq!(r.consume_submission_queue(RingKind::Latency, 8, at(2)).len(), 1);
    r.submitted(RingKind::Latency, 1);
    r.cancel(late, RingKind::Latency);
    let ops = r.consume_cancellation_queue(RingKind::Latency, 8, at(3));
    assert_eq!(ops.len(), 1);
    assert_eq!((ops[0].user_data, ops[0].args), (0, UringOpDescriptor::Cancel(late as u64 + 1)));
    assert!(r.sources.get(late).is_some(), "the kernel still has its memory");
}

#[test]
fn the_old_timer_gives_way_to_the_new() {
    let mut r = reactor();
    let first = r.arm_latency_timer(0x10);
    assert_eq!(r.latency_timer, Some(first));
    let second = r.arm_latency_timer(0x20);
    assert_eq!(r.sources.get(first).unwrap().enqueued.unwrap().status, EnqueuedStatus::Canceled);
    let ops = r.consume_submission_queue(RingKind::Latency, 8, at(1));
    assert_eq!(ops.len(), 1, "the one that was never submitted never is");
    assert_eq!(ops[0].args, UringOpDescriptor::Timeout(0x20, 0));
    r.submitted(RingKind::Latency, 1);

    r.disarm_latency_timer();
    assert_eq!(r.latency_timer, None);
    let ops = r.consume_cancellation_queue(RingKind::Latency, 8, at(1));
    assert_eq!(ops[0].args, UringOpDescriptor::Cancel(second as u64 + 1));
    r.disarm_latency_timer();
    assert!(r.consume_cancellation_queue(RingKind::Latency, 8, at(1)).is_empty());
}

#[test]
fn a_timer_that_fired_is_forgotten() {
    let mut r = reactor();
    r.arm_latency_timer(0x10);
    let reaped = complete(&mut r, RingKind::Latency, &[-libc::ETIME]);
    assert_eq!(reaped[0].source.unwrap().wakers.result, Some(Err(libc::ETIME)));
    assert!(!reaped[0].woke);
    assert_eq!(r.latency_timer, None);
}

#[test]
fn the_throughput_timer_wakes_by_way_of_the_eventfd() {
    let mut r = reactor();
    r.close(source(SourceType::Plain), at(1));
    let id = r.arm_throughput_timer(0x10, 8, 0x77);
    assert_eq!(r.throughput_timer, Some(id));
    let ops = r.consume_submission_queue(RingKind::Main, 8, at(1));
    assert_eq!(ops[0].args, UringOpDescriptor::Timeout(0x10, 8));
    assert_eq!(ops[0].flags, IO_LINK);
    assert_eq!((ops[1].fd, ops[1].args), (50, UringOpDescriptor::Write(0x77, 8, 0)));
    assert_eq!(ops[2].args, UringOpDescriptor::Close);
}

#[test]
fn the_eventfd_is_waited_for_once() {
    let mut r = reactor();
    assert!(r.install_eventfd(true).is_none(), "there is no room");
    let op = r.install_eventfd(false).unwrap();
    assert_eq!((op.fd, op.args), (50, UringOpDescriptor::Read(0, 8)));
    let entry = r.fill_sqe(&op, None);
    assert_eq!(entry.sqe, Sqe::Read { fd: 50, addr: 0x5000, len: 8, offset: 0 });
    r.eventfd_installed(true);
    r.submitted(RingKind::Latency, 1);
    assert!(r.install_eventfd(false).is_none());

    r.consume_completion_queue(RingKind::Latency, &vec![Cqe { user_data: op.user_data, result: 8 }], at(1), record);
    assert!(!r.installed, "a wake has to be waited for anew");
    assert!(r.install_eventfd(false).is_some());
}

#[test]
fn the_main_ring_polls_the_latency_ring() {
    let mut r = reactor();
    assert!(r.link_rings(true).is_none());
    let op = r.link_rings(false).unwrap();
    assert_eq!((op.fd, op.args), (40, UringOpDescriptor::PollAdd(0x3b)));
    r.submitted(RingKind::Main, 1);
    let reaped = r.consume_completion_queue(RingKind::Main, &vec![Cqe { user_data: op.user_data, result: 1 }], at(1), record);
    assert!(!reaped[0].woke);
    assert!(r.can_sleep((0, 0), (0, 0), (0, 0)));
}

#[test]
fn work_in_any_ring_keeps_the_reactor_awake() {
    let mut r = reactor();
    assert_eq!(r.ring_depth(), 8);
    assert!(r.can_sleep((0, 0), (0, 0), (0, 5)));
    assert!(!r.can_sleep((1, 0), (0, 0), (0, 0)));
    assert!(!r.can_sleep((0, 1), (0, 0), (0, 0)));
    assert!(!r.can_sleep((0, 0), (1, 0), (0, 0)));
    assert!(!r.can_sleep((0, 0), (0, 1), (0, 0)));
    assert!(!r.can_sleep((0, 0), (0, 0), (1, 0)));
    r.close(source(SourceType::Plain), at(1));
    assert!(!r.can_sleep((0, 0), (0, 0), (0, 0)));
}

#[test]
fn counts_are_handed_out_once() {
    let mut r = reactor();
    let mut counted = source(SourceType::Plain);
    counted.stats_collection = Some(StatsCollection { fulfilled: Some(0), reused: None });
    counted.task_queue = Some(4);
    r.nop(counted, at(1));
    complete(&mut r, RingKind::Main, &[0]);
    let one = RingIoStats { fulfilled: 1, reused: 0 };
    let none = RingIoStats { fulfilled: 0, reused: 0 };
    let queue = r.task_queue_io_stats(4).unwrap();
    assert_eq!((queue.main, queue.latency, queue.poll), (one, none, none));
    assert!(r.task_queue_io_stats(5).is_none());
    assert_eq!(r.task_queue_io_stats(4).unwrap().main, none);
    assert_eq!(r.io_stats().main, one);
    assert_eq!(r.io_stats().main, none);
}

#[test]
fn collectors_decide_what_a_completion_counts_for() {
    let mut r = reactor();
    // Fails: the one that counts successes keeps out of it, and the queue is
    // noted all the same.
    let mut failing = source(SourceType::Plain);
    failing.stats_collection = Some(StatsCollection { fulfilled: Some(0), reused: None });
    failing.task_queue = Some(4);
    r.nop(failing, at(1));
    complete(&mut r, RingKind::Main, &[-5]);
    let none = RingIoStats { fulfilled: 0, reused: 0 };
    assert_eq!(r.io_stats().main, none);
    assert_eq!(r.task_queue_io_stats(4).unwrap().main, none);

    failing.stats_collection = Some(StatsCollection { fulfilled: Some(2), reused: None });
    r.nop(failing, at(1));
    complete(&mut r, RingKind::Main, &[-5]);
    assert_eq!(r.io_stats().main, RingIoStats { fulfilled: 100, reused: 0 });

    // Nobody is told of a result that served one waiter that it served more.
    let mut reused = source(SourceType::Plain);
    reused.stats_collection = Some(StatsCollection { fulfilled: None, reused: Some(1) });
    reused.task_queue = Some(6);
    r.nop(reused, at(1));
    complete(&mut r, RingKind::Main, &[0]);
    assert!(r.task_queue_io_stats(6).is_none());
    reused.wakers.waiters = 4;
    r.nop(reused, at(1));
    complete(&mut r, RingKind::Main, &[-5]);
    assert_eq!(r.task_queue_io_stats(6).unwrap().main, RingIoStats { fulfilled: 0, reused: 3 });
}

#[test]
fn calls_that_block_are_described() {
    assert_eq!(truncate_op(3, 9), BlockingThreadOp::Truncate(3, 9));
    assert_eq!(rename_op(&SourceType::Rename(1, 2)), BlockingThreadOp::Rename(1, 2));
    assert_eq!(
        copy_file_range_op(&source(SourceType::CopyFileRange(8, 64, 512)), 128),
        BlockingThreadOp::CopyFileRange(8, 64, 3, 128, 512)
    );
    assert_eq!(create_dir_op(&SourceType::CreateDir(1), 0o755), BlockingThreadOp::CreateDir(1, 0o755));
    assert_eq!(remove_file_op(&SourceType::Remove(1)), BlockingThreadOp::Remove(1));
}

fn steps(mut wait: Wait, events: &[Event]) -> (Vec<Step>, Wait) {
    let mut seen = vec![wait.step];
    for event in events {
        wait.advance(*event);
        seen.push(wait.step);
    }
    (seen, wait)
}

const COLLECT: [Event; 6] = [
    Event::Woke(0),
    Event::Woke(0),
    Event::Done,
    Event::Woke(0),
    Event::Submitted(Ok(3)),
    Event::Woke(0),
];

#[test]
fn an_idle_turn_sleeps() {
    let mut events = COLLECT.to_vec();
    events.extend([
        Event::Idle(false, true),
        Event::Submitted(Ok(1)),
        Event::Remote(0, true),
        Event::Submitted(Ok(1)),
        Event::Submitted(Ok(1)),
        Event::Done,
        Event::Submitted(Ok(0)),
        Event::Done,
        Event::Done,
        Event::Preempt(None),
    ]);
    let (seen, wait) = steps(Wait::new(Some(0x30), 0), &events);
    assert_eq!(
        seen,
        vec![
            Step::FlushBlocking,
            Step::ConsumeRings,
            Step::RearmTimers,
            Step::FlushCancellations,
            Step::FlushRings,
            Step::ConsumeAgain,
            Step::AskToSleep,
            Step::ArmUserTimer(0x30),
            Step::PrepareToSleep,
            Step::LinkRings,
            Step::Sleep,
            Step::FlushCancellationsAwake,
            Step::FlushRingsAwake,
            Step::ConsumeRingsAwake,
            Step::WakeUp,
            Step::AskToPreempt,
            Step::Return(Ok(true)),
        ]
    );
    assert!(wait.should_sleep);
}

#[test]
fn a_turn_that_woke_something_does_not_sleep() {
    for (woke, events) in [(1, COLLECT.to_vec()), (0, {
        let mut events = COLLECT.to_vec();
        events[5] = Event::Woke(2);
        events
    })] {
        let mut events = events;
        events.extend([Event::Idle(false, true), Event::Preempt(Some(0x40)), Event::Submitted(Ok(1))]);
        let (seen, _) = steps(Wait::new(None, woke), &events);
        assert_eq!(seen[7..], [Step::AskToPreempt, Step::ArmPreemptTimer(0x40), Step::Return(Ok(false))]);
    }
}

#[test]
fn a_queue_that_waits_or_a_busy_ring_prevents_sleep() {
    for idle in [Event::Idle(true, true), Event::Idle(false, false)] {
        let mut events = COLLECT.to_vec();
        events.push(idle);
        let (seen, _) = steps(Wait::new(None, 0), &events);
        assert_eq!(seen.last(), Some(&Step::AskToPreempt));
    }
}

#[test]
fn sleep_is_given_up_where_it_would_not_be_safe() {
    let mut events = COLLECT.to_vec();
    events.push(Event::Idle(false, true));
    let after = |event: Event| {
        let mut all = events.clone();
        all.push(event);
        steps(Wait::new(None, 0), &all).1
    };
    // Something came from another thread.
    assert_eq!(after(Event::Remote(1, true)).step, Step::AskToPreempt);
    // No wake is waited for.
    assert_eq!(after(Event::Remote(0, false)).step, Step::WakeUp);
    // The link did not go out, or there was no room for it.
    let linking = after(Event::Remote(0, true));
    for (event, step) in [
        (Event::Submitted(Ok(0)), Step::FlushCancellationsAwake),
        (Event::Submitted(Err(Some(libc::EBUSY))), Step::FlushCancellationsAwake),
        (Event::Full, Step::SubmitMain),
        (Event::Submitted(Ok(1)), Step::Sleep),
    ] {
        let mut wait = linking;
        wait.advance(event);
        assert_eq!(wait.step, step);
    }
    let mut wait = linking;
    wait.advance(Event::Full);
    wait.advance(Event::Submitted(Ok(4)));
    assert_eq!(wait.step, Step::FlushCancellationsAwake);
}

#[test]
fn an_error_that_does_not_pass_ends_the_turn() {
    for (errno, step) in [
        (libc::EBUSY, Step::ConsumeAgain),
        (libc::EAGAIN, Step::ConsumeAgain),
        (libc::EINTR, Step::ConsumeAgain),
        (libc::EIO, Step::Return(Err(Some(libc::EIO)))),
    ] {
        let mut events = COLLECT[..4].to_vec();
        events.push(Event::Submitted(Err(Some(errno))));
        assert_eq!(steps(Wait::new(None, 0), &events).1.step, step);
    }
}

#[test]
fn too_little_lockable_memory_is_refused() {
    assert_eq!(check_memlock_limit(512 * 1024), Ok(()));
    assert_eq!(
        check_memlock_limit(512 * 1024 - 1),
        Err(MemLockLimit { limit: 512 * 1024 - 1, min: 512 * 1024 })
    );
}

#[test]
fn the_arena_comes_in_pages() {
    assert_eq!(arena_size(0), 65536);
    assert_eq!(arena_size(65537), 69632);
    assert_eq!(arena_size(10 << 20), 10 << 20);
    assert_eq!(align_up(1, 4096), 4096);
    assert_eq!(align_up(4096, 4096), 4096);
    assert_eq!(align_up(0, 4096), 0);
}

fn registered(answers: &[bool]) -> (Vec<RegisterStep>, Registration) {
    let mut registration = Registration::new();
    let mut seen = vec![registration.step];
    for ok in answers {
        registration.advance(*ok);
        seen.push(registration.step);
    }
    (seen, registration)
}

#[test]
fn the_arena_is_registered_with_all_rings_or_none() {
    let (seen, all) = registered(&[true, true, true]);
    assert_eq!(
        seen,
        vec![RegisterStep::Register(RingKind::Main), RegisterStep::Register(RingKind::Poll), RegisterStep::Register(RingKind::Latency), RegisterStep::Finished(Some(0))]
    );
    assert!(all.main && all.poll && all.latency);

    let (seen, none) = registered(&[true, true, false, true, true]);
    assert_eq!(seen[3..], [RegisterStep::Unregister(RingKind::Poll), RegisterStep::Unregister(RingKind::Main), RegisterStep::Finished(None)]);
    assert!(!none.main && !none.poll && !none.latency);

    assert_eq!(registered(&[true, false, true]).0[2..], [RegisterStep::Unregister(RingKind::Main), RegisterStep::Finished(None)]);
    assert_eq!(registered(&[false]).0[1..], [RegisterStep::Finished(None)]);
}

#[test]
fn a_buffer_comes_from_the_arena_while_it_has_room() {
    assert_eq!(
        new_buffer(0x1000, None, 4096, Some(1234)),
        Some(Buffer { addr: 0x1000, len: 4096, uring_buffer_id: Some(1234) })
    );
    assert_eq!(
        new_buffer(0, Some(0x2000), 4096, Some(1234)),
        Some(Buffer { addr: 0x2000, len: 4096, uring_buffer_id: None })
    );
    assert_eq!(new_buffer(0, None, 4096, Some(1234)), None);
}

fn set_up(io_memory: usize, events: &[SetupEvent]) -> SetupStep {
    let mut setup = Setup::new(io_memory);
    for event in events {
        setup.advance(*event);
    }
    setup.step
}

#[test]
fn a_reactor_is_set_up_in_order() {
    let built = SetupEvent::Built(Ok(()));
    let mut events = vec![SetupEvent::Limit(Ok(1 << 20))];
    assert_eq!(set_up(70_000, &[]), SetupStep::ReadLimit);
    assert_eq!(set_up(70_000, &events), SetupStep::Allocate(73_728));
    events.push(SetupEvent::Done);
    for kind in [RingKind::Main, RingKind::Poll, RingKind::Latency] {
        assert_eq!(set_up(0, &events), SetupStep::Build(kind));
        events.push(built);
    }
    assert_eq!(set_up(0, &events), SetupStep::Register(Registration::new()));

    let mut all = events.clone();
    all.extend([SetupEvent::Registered(true); 3]);
    assert_eq!(set_up(0, &all), SetupStep::InstallEventfd(Some(0)));
    all.push(SetupEvent::Done);
    assert_eq!(set_up(0, &all), SetupStep::Finished(Ok(Some(0))));

    let mut refused = events.clone();
    refused.push(SetupEvent::Registered(false));
    assert_eq!(set_up(0, &refused), SetupStep::InstallEventfd(None), "it works without");
}

#[test]
fn a_reactor_that_cannot_be_set_up_says_why() {
    let low = set_up(0, &[SetupEvent::Limit(Ok(65536))]);
    assert_eq!(
        low,
        SetupStep::Finished(Err(SetupError::MemLockLimit(MemLockLimit { limit: 65536, min: 512 * 1024 })))
    );
    let unknown = set_up(0, &[SetupEvent::Limit(Err(Some(libc::EPERM)))]);
    assert_eq!(unknown, SetupStep::Finished(Err(SetupError::Os(Some(libc::EPERM)))));
    let refused = [
        SetupEvent::Limit(Ok(1 << 20)),
        SetupEvent::Done,
        SetupEvent::Built(Ok(())),
        SetupEvent::Built(Err(Some(libc::ENOSYS))),
    ];
    assert_eq!(set_up(0, &refused), SetupStep::Finished(Err(SetupError::Os(Some(libc::ENOSYS)))));
}

/// A kernel that knows timeouts and cancellations, and a clock in
/// milliseconds.
#[derive(Default)]
struct Kernel {
    now: u64,
    pending: Vec<(u64, u64)>,
    completions: Vec<Cqe>,
}

impl Kernel {
    fn submit(&mut self, ops: &[UringDescriptor]) {
        for op in ops {
            match op.args {
                UringOpDescriptor::Timeout(millis, _) => self.pending.push((op.user_data, self.now + millis)),
                UringOpDescriptor::Cancel(target) => {
                    self.pending.retain(|(user_data, _)| *user_data != target);
                    self.completions.push(Cqe { user_data: target, result: -libc::ECANCELED });
                    self.completions.push(Cqe { user_data: 0, result: 0 });
                }
                other => panic!("{other:?}"),
            }
        }
    }

    /// Sleeps until something completes.
    fn sleep(&mut self) {
        let first = self.pending.iter().map(|(_, at)| *at).min().unwrap();
        self.now = self.now.max(first);
        let (fired, left): (Vec<_>, Vec<_>) = self.pending.iter().partition(|(_, at)| *at <= self.now);
        self.pending = left;
        self.completions.extend(fired.iter().map(|(user_data, _)| Cqe { user_data: *user_data, result: -libc::ETIME }));
    }
}

/// One turn on the main ring.
fn turn(r: &mut Reactor, kernel: &mut Kernel) {
    let ops = r.consume_cancellation_queue(RingKind::Main, 8, at(0));
    kernel.submit(&ops);
    r.submitted(RingKind::Main, ops.len());
    let ops = r.consume_submission_queue(RingKind::Main, 8, at(0));
    kernel.submit(&ops);
    r.submitted(RingKind::Main, ops.len());
    r.consume_completion_queue(RingKind::Main, &std::mem::take(&mut kernel.completions), at(0), record);
    kernel.sleep();
    r.consume_completion_queue(RingKind::Main, &std::mem::take(&mut kernel.completions), at(0), record);
}

/// Dropping the in-flight `slow` timer mid-test cancels it.
#[test]
fn timeout_smoke_test() {
    let mut r = Reactor::new(128, 40, 50, 0x5000);
    let mut kernel = Kernel::default();
    let mut timeout = |r: &mut Reactor, millis: u64| {
        let mut timer = source(SourceType::Timeout(millis, 0));
        timer.fd = -1;
        r.queue_request(timer, UringOpDescriptor::Timeout(millis, 0), at(0))
    };

    let fast = timeout(&mut r, 50);
    let slow = timeout(&mut r, 150);
    let lethargic = timeout(&mut r, 300);

    turn(&mut r, &mut kernel);
    let elapsed_ms = kernel.now;
    assert!((50..100).contains(&elapsed_ms));
    assert!(r.sources.get(fast).is_none());

    r.cancel(slow, RingKind::Main);

    turn(&mut r, &mut kernel);
    let elapsed_ms = kernel.now;
    assert!((300..350).contains(&elapsed_ms));
    assert!(r.sources.get(slow).is_none() && r.sources.get(lethargic).is_none());
}
