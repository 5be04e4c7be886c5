use glommio::sys::errno::{
    again_ok, busy_ok, intr_ok, submitted, transmute_error, EAGAIN, EBUSY, ECANCELED, EINTR, EMFILE, ENFILE, ENOMEM,
    ENOSYS, EPERM, ETIMEDOUT,
};
use glommio::sys::free_list::FreeList;
use glommio::sys::queue::{next_chain, NextChain};
use glommio::sys::requests::{COMMON_FLAGS, READ_FLAGS};
use glommio::sys::ring::{flush_cancellations, Cqe, Flush, Ring, RingKind, MAX_FLUSHES};
use glommio::sys::source::{
    Buffer, DirectIo, EnqueuedSource, EnqueuedStatus, InnerSource, IoBuffer, Iovec, Msghdr, PollableStatus, SourceMap,
    SourceType, StatsCollection, Wakers,
};
use glommio::sys::sqe::{
    buffer_request, fill_sqe, BufferRequest, Entry, Sqe, UringDescriptor, UringOpDescriptor, IO_HARDLINK, IO_LINK,
    SOCKADDR_LEN, SOCK_CLOEXEC, STATX_FLAGS, STATX_MASK,
};
use glommio::sys::stats::{combine, Report, RingIoStats, TaskQueueStats};
use glommio::sys::support::{
    check_supported_operations, missing_operations, parse_disabled, uring_ops, OsError, SupportCache, UringUnsupported,
};
use glommio::timer::time::Instant;
use io_uring::opcode;

fn now() -> Instant {
    Instant { nanos: 77 }
}

fn source(source_type: SourceType) -> InnerSource {
    InnerSource {
        fd: 3,
        source_type,
        enqueued: None,
        timeout: None,
        wakers: Wakers { result: None, waiters: 1, queued_at: None, submitted_at: None, fulfilled_at: None },
        stats_collection: None,
        task_queue: None,
    }
}

fn op(flags: u8, user_data: u64) -> UringDescriptor {
    UringDescriptor { fd: -1, flags, user_data, args: UringOpDescriptor::Nop }
}

/// Keeps count of what was fulfilled, of what served others, and of failures.
fn record(report: Report) -> RingIoStats {
    let mut stats = report.stats;
    match (report.collector, report.result) {
        (0, Ok(_)) => stats.fulfilled += report.count,
        (1, _) => stats.reused += report.count,
        (2, Err(_)) => stats.fulfilled += 100 * report.count,
        _ => {}
    }
    stats
}

#[test]
fn probes_every_opcode_glommio_submits() {
    let submitted = [
        opcode::Nop::CODE,
        opcode::Fsync::CODE,
        opcode::ReadFixed::CODE,
        opcode::WriteFixed::CODE,
        opcode::PollAdd::CODE,
        opcode::PollRemove::CODE,
        opcode::SendMsg::CODE,
        opcode::RecvMsg::CODE,
        opcode::Timeout::CODE,
        opcode::TimeoutRemove::CODE,
        opcode::Accept::CODE,
        opcode::LinkTimeout::CODE,
        opcode::Connect::CODE,
        opcode::Fallocate::CODE,
        opcode::OpenAt::CODE,
        opcode::Close::CODE,
        opcode::Statx::CODE,
        opcode::Read::CODE,
        opcode::Write::CODE,
        opcode::Send::CODE,
        opcode::Recv::CODE,
        opcode::AsyncCancel::CODE,
    ];

    let ops = uring_ops();
    for code in submitted {
        assert!(
            ops.iter().any(|probed| probed.code == code),
            "opcode {code} is submitted but never probed"
        );
    }
}

#[test]
fn entries_carry_the_codes_of_the_kernel() {
    let (fd, addr, len, offset, buf_index) = (3, 0, 0, 0, 0);
    let pairs = [
        (Sqe::Nop, opcode::Nop::CODE),
        (Sqe::Fsync { fd, datasync: true }, opcode::Fsync::CODE),
        (Sqe::ReadFixed { fd, addr, len, offset, buf_index }, opcode::ReadFixed::CODE),
        (Sqe::WriteFixed { fd, addr, len, offset, buf_index }, opcode::WriteFixed::CODE),
        (Sqe::PollAdd { fd, events: 0 }, opcode::PollAdd::CODE),
        (Sqe::PollRemove { target: 0 }, opcode::PollRemove::CODE),
        (Sqe::SendMsg { fd, msg: 0, msg_flags: 0 }, opcode::SendMsg::CODE),
        (Sqe::RecvMsg { fd, msg: 0, msg_flags: 0 }, opcode::RecvMsg::CODE),
        (Sqe::Timeout { timespec: 0, count: 0 }, opcode::Timeout::CODE),
        (Sqe::TimeoutRemove { target: 0 }, opcode::TimeoutRemove::CODE),
        (Sqe::Accept { fd, addr, addrlen_at: 0, flags: 0 }, opcode::Accept::CODE),
        (Sqe::AsyncCancel { target: 0 }, opcode::AsyncCancel::CODE),
        (Sqe::LinkTimeout { timespec: 0 }, opcode::LinkTimeout::CODE),
        (Sqe::Connect { fd, addr, addrlen: 0 }, opcode::Connect::CODE),
        (Sqe::Fallocate { fd, size: 0, offset, falloc_mode: 0 }, opcode::Fallocate::CODE),
        (Sqe::OpenAt { fd, path: 0, flags: 0, mode: 0 }, opcode::OpenAt::CODE),
        (Sqe::Close { fd }, opcode::Close::CODE),
        (Sqe::Statx { fd, buf: 0, flags: 0, mask: 0 }, opcode::Statx::CODE),
        (Sqe::Read { fd, addr, len, offset }, opcode::Read::CODE),
        (Sqe::Write { fd, addr, len, offset }, opcode::Write::CODE),
        (Sqe::Send { fd, addr, len, flags: 0 }, opcode::Send::CODE),
        (Sqe::Recv { fd, addr, len, flags: 0 }, opcode::Recv::CODE),
    ];
    for (sqe, code) in pairs {
        assert_eq!(sqe.code(), code, "{sqe:?}");
    }
}

#[test]
fn numbers_are_those_of_the_kernel() {
    assert_eq!(EPERM, libc::EPERM);
    assert_eq!(EINTR, libc::EINTR);
    assert_eq!(EAGAIN, libc::EAGAIN);
    assert_eq!(ENOMEM, libc::ENOMEM);
    assert_eq!(EBUSY, libc::EBUSY);
    assert_eq!(ENFILE, libc::ENFILE);
    assert_eq!(EMFILE, libc::EMFILE);
    assert_eq!(ENOSYS, libc::ENOSYS);
    assert_eq!(ETIMEDOUT, libc::ETIMEDOUT);
    assert_eq!(ECANCELED, libc::ECANCELED);
    assert_eq!(IO_LINK, io_uring::squeue::Flags::IO_LINK.bits());
    assert_eq!(IO_HARDLINK, io_uring::squeue::Flags::IO_HARDLINK.bits());
    assert_eq!(SOCK_CLOEXEC, libc::SOCK_CLOEXEC);
    assert_eq!(STATX_FLAGS, libc::AT_STATX_SYNC_AS_STAT | libc::AT_NO_AUTOMOUNT | libc::AT_EMPTY_PATH);
    assert_eq!(STATX_MASK, libc::STATX_BASIC_STATS);
    assert_eq!(SOCKADDR_LEN as usize, std::mem::size_of::<libc::sockaddr_storage>());
    assert_eq!(COMMON_FLAGS, libc::POLLERR | libc::POLLHUP | libc::POLLNVAL);
    assert_eq!(READ_FLAGS, libc::POLLIN | libc::POLLPRI);
    assert_eq!(COMMON_FLAGS | READ_FLAGS, 0x3b);
}

#[test]
fn missing_opcodes_are_named_in_the_error() {
    let err = UringUnsupported::MissingOps(vec!["STATX", "CLOSE"]).message(None);
    assert!(err.contains("IORING_OP_STATX"), "{err}");
    assert!(err.contains("IORING_OP_CLOSE"), "{err}");
    assert_eq!(
        err,
        "the kernel's io_uring is missing operations glommio submits: IORING_OP_STATX, IORING_OP_CLOSE. \
         glommio's supported minimum is 5.8"
    );
}

fn os_error(errno: i32) -> OsError {
    OsError { errno: Some(errno), text: std::io::Error::from_raw_os_error(errno).to_string() }
}

#[test]
fn eperm_points_at_whatever_is_restricting_io_uring() {
    for (disabled, expected) in [
        (Some(1), "kernel.io_uring_disabled=1"),
        (Some(2), "kernel.io_uring_disabled=2"),
        (Some(0), "seccomp"),
        (None, "seccomp"),
    ] {
        let err = UringUnsupported::SetupFailed(os_error(libc::EPERM)).message(disabled);
        assert!(err.contains(expected), "{err}");
    }
}

#[test]
fn other_failures_say_what_failed() {
    let setup = UringUnsupported::SetupFailed(os_error(libc::ENOMEM)).message(Some(1));
    assert!(setup.starts_with("failed to create an io_uring: "), "{setup}");
    assert!(!setup.contains("io_uring_disabled"), "{setup}");
    let probe = UringUnsupported::ProbeFailed(os_error(libc::EINVAL)).message(None);
    assert!(probe.starts_with("failed to register a probe against io_uring: "), "{probe}");
}

#[test]
fn an_empty_probe_misses_everything() {
    let ops = uring_ops();
    let probe = io_uring::Probe::new();
    let missing = missing_operations(&ops, &probe);
    let names: Vec<_> = ops.iter().map(|op| op.name).collect();
    assert_eq!(missing, names);
    match check_supported_operations(&ops, Ok(Ok(io_uring::Probe::new()))) {
        Err(UringUnsupported::MissingOps(missing)) => assert_eq!(missing, names),
        other => panic!("{}", other.is_ok()),
    }
}

/// Where the kernel lets a ring be made, what it says it supports is not
/// missing.
#[test]
fn a_probe_of_the_kernel_is_believed() {
    if let Ok(ring) = io_uring::IoUring::new(2) {
        let mut probe = io_uring::Probe::new();
        if ring.submitter().register_probe(&mut probe).is_ok() {
            let ops = uring_ops();
            let missing = missing_operations(&ops, &probe);
            for op in &ops {
                assert_eq!(missing.contains(&op.name), !probe.is_supported(op.code), "{}", op.name);
            }
        }
    }
}

#[test]
fn failures_are_reported_for_what_they_are() {
    let ops = uring_ops();
    assert!(matches!(
        check_supported_operations(&ops, Err(os_error(libc::EPERM))),
        Err(UringUnsupported::SetupFailed(_))
    ));
    assert!(matches!(
        check_supported_operations(&ops, Ok(Err(os_error(libc::EINVAL)))),
        Err(UringUnsupported::ProbeFailed(_))
    ));
    assert!(check_supported_operations(&Vec::new(), Ok(Ok(io_uring::Probe::new()))).is_ok());
}

#[test]
fn only_lasting_verdicts_are_remembered() {
    for errno in [libc::ENOMEM, libc::EMFILE, libc::ENFILE] {
        assert!(UringUnsupported::SetupFailed(os_error(errno)).is_transient(), "{errno}");
    }
    assert!(!UringUnsupported::SetupFailed(os_error(libc::EPERM)).is_transient());
    assert!(!UringUnsupported::MissingOps(vec!["READ"]).is_transient());

    let mut cache = SupportCache::new();
    assert!(cache.cached().is_none());
    assert!(cache.check_uring_support(Err(UringUnsupported::SetupFailed(os_error(libc::EMFILE))), None).is_err());
    assert!(cache.cached().is_none(), "a passing shortage is asked about again");
    assert!(cache.check_uring_support(Err(UringUnsupported::MissingOps(vec!["READ"])), None).is_err());
    assert!(matches!(cache.cached(), Some(Err(_))));

    let mut good = SupportCache::new();
    assert_eq!(good.check_uring_support(Ok(()), None), Ok(()));
    assert_eq!(good.cached(), Some(Ok(())));
}

#[test]
fn the_setting_is_read_as_a_number() {
    assert_eq!(parse_disabled("0\n"), Some(0));
    assert_eq!(parse_disabled(" 2 \n"), Some(2));
    assert_eq!(parse_disabled("+1"), Some(1));
    assert_eq!(parse_disabled("255"), Some(255));
    assert_eq!(parse_disabled("256"), None);
    assert_eq!(parse_disabled(""), None);
    assert_eq!(parse_disabled("x"), None);
    assert_eq!(parse_disabled("-1"), None);
    assert_eq!(parse_disabled("\u{a0}\u{2003}2\u{3000}"), Some(2));
    assert_eq!(parse_disabled("1\u{200b}"), None);
    assert_eq!(parse_disabled("+"), None);
}

#[test]
fn completions_are_counts_or_errors() {
    assert_eq!(transmute_error(0), Ok(0));
    assert_eq!(transmute_error(4096), Ok(4096));
    assert_eq!(transmute_error(-libc::EIO), Err(libc::EIO));
    assert_eq!(transmute_error(-libc::ECANCELED), Err(libc::ETIMEDOUT));
}

#[test]
fn errors_that_pass_are_forgiven() {
    assert_eq!(busy_ok(Err(Some(libc::EBUSY))), Ok(0));
    assert_eq!(busy_ok(Err(Some(libc::EAGAIN))), Err(Some(libc::EAGAIN)));
    assert_eq!(again_ok(Err(Some(libc::EAGAIN))), Ok(0));
    assert_eq!(intr_ok(Err(Some(libc::EINTR))), Ok(0));
    for errno in [libc::EBUSY, libc::EAGAIN, libc::EINTR] {
        assert_eq!(submitted(Err(Some(errno))), Ok(0));
    }
    assert_eq!(submitted(Err(Some(libc::EIO))), Err(Some(libc::EIO)));
    assert_eq!(submitted(Err(None)), Err(None));
    assert_eq!(submitted(Ok(3)), Ok(3));
}

/// Enqueues three nops. The second is soft-linked to the third.
#[test]
fn sqe_link_chain() {
    let mut sources = SourceMap::new();
    let mut ring = Ring::new(RingKind::Main, 4);

    for i in 0..3 {
        ring.queue.submissions.push_back(op(if i == 1 { IO_LINK } else { 0 }, 0));
    }

    let submit = |ring: &mut Ring, sources: &mut SourceMap| match ring.submit_one_event(sources, 4, now()) {
        NextChain::Ready(ops) => {
            let count = ops.len();
            assert_eq!(ops.into_vec().len(), count);
            ring.submitted(count);
            count
        }
        _ => 0,
    };
    let done = |count: usize| vec![Cqe { user_data: 0, result: 0 }; count];

    assert_eq!(1, submit(&mut ring, &mut sources));
    assert_eq!(1, ring.consume_completion_queue(&done(1), &mut sources, now(), record).len());

    assert_eq!(2, submit(&mut ring, &mut sources));
    assert_eq!(2, ring.in_kernel);
    assert_eq!(2, ring.consume_completion_queue(&done(2), &mut sources, now(), record).len());
    assert_eq!(0, ring.in_kernel);
    assert_eq!(0, submit(&mut ring, &mut sources));
}

#[test]
fn a_chain_that_does_not_fit_waits_whole() {
    let mut sources = SourceMap::new();
    let mut queue = std::collections::VecDeque::from([op(IO_HARDLINK, 0), op(0, 0), op(0, 0)]);
    assert!(matches!(next_chain(&mut sources, &mut queue, 4, 1, now()), NextChain::NoRoom));
    assert_eq!(queue.len(), 3);
    match next_chain(&mut sources, &mut queue, 4, 2, now()) {
        NextChain::Ready(ops) => assert_eq!(ops.into_vec(), vec![op(IO_HARDLINK, 0), op(0, 0)]),
        _ => panic!("it fits"),
    }
    assert!(matches!(next_chain(&mut sources, &mut queue, 4, 4, now()), NextChain::Ready(_)));
    assert!(matches!(next_chain(&mut sources, &mut queue, 4, 4, now()), NextChain::Idle));
}

#[test]
fn a_request_nobody_wants_never_goes_out() {
    let mut sources = SourceMap::new();
    let mut ring = Ring::new(RingKind::Main, 4);
    let a = ring.queue.queue_request(source(SourceType::Plain), UringOpDescriptor::Close, &mut sources, now());
    let b = ring.queue.queue_request(source(SourceType::Plain), UringOpDescriptor::FDataSync, &mut sources, now());
    let mut dropped = *sources.get(a).unwrap();
    dropped.enqueued = Some(EnqueuedSource { id: a, status: EnqueuedStatus::Canceled });
    sources.replace(a, dropped);

    let ops = ring.consume_submission_queue(&mut sources, 4, Instant { nanos: 90 });
    assert_eq!(ops.len(), 1);
    assert_eq!(ops[0].user_data, b as u64 + 1);
    assert!(sources.get(a).is_none());
    let left = sources.get(b).unwrap();
    assert_eq!(left.enqueued, Some(EnqueuedSource { id: b, status: EnqueuedStatus::Dispatched }));
    assert_eq!(left.wakers.queued_at, Some(now()));
    assert_eq!(left.wakers.submitted_at, Some(Instant { nanos: 90 }));
}

#[test]
fn places_are_handed_out_again() {
    let mut list: FreeList<&str> = FreeList::new();
    let a = list.allocate("a");
    let b = list.allocate("b");
    assert_ne!(a, b);
    assert_eq!(list.deallocate(a), "a");
    assert_eq!(list.get(a), None);
    assert_eq!(list.allocate("c"), a);
    assert_eq!((list.get(a), list.get(b)), (Some(&"c"), Some(&"b")));
}

#[test]
fn completions_are_counted_where_asked_for() {
    let mut sources = SourceMap::new();
    let mut ring = Ring::new(RingKind::Poll, 8);
    let mut counted = source(SourceType::Plain);
    counted.wakers.waiters = 3;
    counted.task_queue = Some(7);
    counted.stats_collection = Some(StatsCollection { fulfilled: Some(0), reused: Some(1) });
    let mut uncounted = source(SourceType::Plain);
    uncounted.wakers.waiters = 0;
    let a = ring.queue.queue_request(counted, UringOpDescriptor::Nop, &mut sources, now());
    let b = ring.queue.queue_request(uncounted, UringOpDescriptor::Nop, &mut sources, now());
    let ops = ring.consume_submission_queue(&mut sources, 8, now());
    ring.submitted(ops.len());
    assert!(ring.needs_kernel_enter(0), "the poll ring is entered to collect");
    assert!(!ring.can_sleep(0, 0));

    let reaped = ring.consume_completion_queue(
        &vec![
            Cqe { user_data: a as u64 + 1, result: 5 },
            Cqe { user_data: b as u64 + 1, result: -libc::ECANCELED },
        ],
        &mut sources,
        Instant { nanos: 99 },
        record,
    );
    assert!(reaped[0].woke);
    let first = reaped[0].source.unwrap();
    assert_eq!(first.wakers.result, Some(Ok(5)));
    assert_eq!(first.wakers.fulfilled_at, Some(Instant { nanos: 99 }));
    assert_eq!(first.wakers.waiters, 0);
    assert!(!reaped[1].woke);
    assert_eq!(reaped[1].source.unwrap().wakers.result, Some(Err(libc::ETIMEDOUT)));

    assert_eq!(ring.stats, RingIoStats { fulfilled: 1, reused: 2 });
    assert_eq!(ring.take_stats(), RingIoStats { fulfilled: 1, reused: 2 });
    assert_eq!(ring.take_stats(), RingIoStats { fulfilled: 0, reused: 0 });
    assert_eq!(ring.task_queue_stats.take(7), Some(RingIoStats { fulfilled: 1, reused: 2 }));
    assert_eq!(ring.task_queue_stats.take(7), Some(RingIoStats { fulfilled: 0, reused: 0 }));
    assert_eq!(ring.task_queue_stats.take(8), None);
    assert!(ring.can_sleep(0, 5), "its completions are not waited for");
    assert!(ring.consume_one_event(None, &mut sources, now(), record).is_none());
}

#[test]
fn counts_of_three_rings_are_joined() {
    let mut table = TaskQueueStats::new();
    assert_eq!(table.take(1), None);
    assert_eq!(table.get(1), RingIoStats { fulfilled: 0, reused: 0 });
    table.set(1, RingIoStats { fulfilled: 2, reused: 3 });
    table.set(1, RingIoStats { fulfilled: 3, reused: 3 });
    table.set(2, RingIoStats { fulfilled: 9, reused: 9 });
    assert_eq!(table.get(1), RingIoStats { fulfilled: 3, reused: 3 });
    let one = table.take(1);
    assert_eq!(one, Some(RingIoStats { fulfilled: 3, reused: 3 }));
    assert_eq!(table.take(2), Some(RingIoStats { fulfilled: 9, reused: 9 }));

    assert_eq!(combine(None, None, None), None);
    let joined = combine(None, one, None).unwrap();
    assert_eq!(joined.latency, RingIoStats { fulfilled: 3, reused: 3 });
    assert_eq!(joined.main, RingIoStats { fulfilled: 0, reused: 0 });
    assert_eq!(joined.poll, RingIoStats { fulfilled: 0, reused: 0 });
}

#[test]
fn a_link_between_rings_completes_silently() {
    let mut sources = SourceMap::new();
    let mut ring = Ring::new(RingKind::Main, 4);
    let a = ring.queue.queue_request(source(SourceType::LinkRings), UringOpDescriptor::PollAdd(1), &mut sources, now());
    let ops = ring.consume_submission_queue(&mut sources, 4, now());
    ring.submitted(ops.len());
    let reaped = ring.consume_one_event(Some(Cqe { user_data: a as u64 + 1, result: 1 }), &mut sources, now(), record).unwrap();
    assert!(!reaped.woke);
    assert_eq!(reaped.source.unwrap().wakers.result, None);
}

#[test]
fn rings_differ_in_when_they_enter_the_kernel() {
    let mut main = Ring::new(RingKind::Main, 4);
    assert_eq!((main.name(), main.may_rush()), ("main", false));
    main.submitted(2);
    assert!(!main.needs_kernel_enter(0), "the kernel posts its completions by itself");
    assert!(main.needs_kernel_enter(1));
    assert!(main.can_sleep(0, 0));
    assert!(!main.can_sleep(1, 0));
    assert!(!main.can_sleep(0, 1));
    main.queue.async_close(9);
    assert!(!main.can_sleep(0, 0));

    assert!(main.dispatches(true, 0, 1));
    assert!(!main.dispatches(false, 0, 1));
    assert!(main.dispatches(false, 2, 1));
    assert!(!main.dispatches(true, 0, 0));

    let poll = Ring::new(RingKind::Poll, 4);
    assert_eq!((poll.name(), poll.may_rush()), ("poll", true));
    assert_eq!(Ring::new(RingKind::Latency, 4).name(), "latency");
}

#[test]
fn cancellations_are_tried_until_they_are_through() {
    assert_eq!(flush_cancellations(0, true), Flush::Finished);
    assert_eq!(flush_cancellations(0, false), Flush::Again);
    assert_eq!(flush_cancellations(MAX_FLUSHES - 1, false), Flush::Again);
    assert_eq!(flush_cancellations(MAX_FLUSHES, false), Flush::GiveUp);
    assert_eq!(flush_cancellations(MAX_FLUSHES, true), Flush::Finished);
}

const BUFFER: Buffer = Buffer { addr: 0x1000, len: 512, uring_buffer_id: Some(2) };

fn filled(source_type: SourceType, args: UringOpDescriptor, buffer: Option<Buffer>) -> (Entry, SourceType) {
    let mut sources = SourceMap::new();
    let id = sources.allocate(source(source_type));
    let op = UringDescriptor { fd: 3, flags: IO_LINK, user_data: id as u64 + 1, args };
    let entry = fill_sqe(&op, buffer, &mut sources);
    (entry, sources.get(id).unwrap().source_type)
}

#[test]
fn entries_are_filled_in() {
    let sqe = |args| filled(SourceType::Plain, args, None).0.sqe;
    assert_eq!(sqe(UringOpDescriptor::PollAdd(5)), Sqe::PollAdd { fd: 3, events: 5 });
    assert_eq!(sqe(UringOpDescriptor::PollRemove(8)), Sqe::PollRemove { target: 8 });
    assert_eq!(sqe(UringOpDescriptor::Cancel(8)), Sqe::AsyncCancel { target: 8 });
    assert_eq!(sqe(UringOpDescriptor::Write(1, 2, 3)), Sqe::Write { fd: 3, addr: 1, len: 2, offset: 3 });
    assert_eq!(
        sqe(UringOpDescriptor::WriteFixed(1, 2, 3, 4)),
        Sqe::WriteFixed { fd: 3, addr: 1, len: 2, offset: 3, buf_index: 4 }
    );
    assert_eq!(sqe(UringOpDescriptor::Open(1, 2, 3)), Sqe::OpenAt { fd: 3, path: 1, flags: 2, mode: 3 });
    assert_eq!(sqe(UringOpDescriptor::Close), Sqe::Close { fd: 3 });
    assert_eq!(sqe(UringOpDescriptor::FDataSync), Sqe::Fsync { fd: 3, datasync: true });
    assert_eq!(sqe(UringOpDescriptor::Connect(1, 16)), Sqe::Connect { fd: 3, addr: 1, addrlen: 16 });
    assert_eq!(sqe(UringOpDescriptor::LinkTimeout(1)), Sqe::LinkTimeout { timespec: 1 });
    assert_eq!(
        sqe(UringOpDescriptor::Accept(1, 2)),
        Sqe::Accept { fd: 3, addr: 1, addrlen_at: 2, flags: libc::SOCK_CLOEXEC }
    );
    assert_eq!(
        sqe(UringOpDescriptor::Fallocate(1, 2, 3)),
        Sqe::Fallocate { fd: 3, size: 2, offset: 1, falloc_mode: 3 }
    );
    assert_eq!(
        sqe(UringOpDescriptor::StatxFd(9, 1)),
        Sqe::Statx { fd: 9, buf: 1, flags: STATX_FLAGS, mask: STATX_MASK }
    );
    assert_eq!(sqe(UringOpDescriptor::Timeout(1, 2)), Sqe::Timeout { timespec: 1, count: 2 });
    assert_eq!(sqe(UringOpDescriptor::TimeoutRemove(1)), Sqe::TimeoutRemove { target: 1 });
    assert_eq!(sqe(UringOpDescriptor::SockSend(1, 2, 3)), Sqe::Send { fd: 3, addr: 1, len: 2, flags: 3 });
    assert_eq!(sqe(UringOpDescriptor::SockSendMsg(1, 2)), Sqe::SendMsg { fd: 3, msg: 1, msg_flags: 2 });
    assert_eq!(sqe(UringOpDescriptor::Nop), Sqe::Nop);
}

#[test]
fn a_request_to_stop_another_is_not_waited_for() {
    assert_eq!(filled(SourceType::Plain, UringOpDescriptor::Cancel(8), None).0.user_data, 0);
    assert_eq!(filled(SourceType::Plain, UringOpDescriptor::PollRemove(8), None).0.user_data, 0);
    let (entry, _) = filled(SourceType::Plain, UringOpDescriptor::Nop, None);
    assert_eq!((entry.user_data, entry.flags), (1, IO_LINK));
}

#[test]
fn reads_get_their_memory() {
    let direct = PollableStatus::NonPollable(DirectIo::Enabled);
    let cached = PollableStatus::NonPollable(DirectIo::Disabled);
    let sink = Some(IoBuffer::DmaSink(BUFFER));

    let (entry, after) = filled(SourceType::Read(direct, None), UringOpDescriptor::ReadFixed(64, 512), Some(BUFFER));
    assert_eq!(entry.sqe, Sqe::ReadFixed { fd: 3, addr: 0x1000, len: 512, offset: 64, buf_index: 2 });
    assert_eq!(after, SourceType::Read(direct, sink));

    let (entry, _) = filled(SourceType::Read(cached, None), UringOpDescriptor::ReadFixed(64, 512), Some(BUFFER));
    assert_eq!(entry.sqe, Sqe::Read { fd: 3, addr: 0x1000, len: 512, offset: 64 });

    let heap = Buffer { uring_buffer_id: None, ..BUFFER };
    let (entry, _) = filled(SourceType::Read(direct, None), UringOpDescriptor::ReadFixed(64, 512), Some(heap));
    assert_eq!(entry.sqe, Sqe::Read { fd: 3, addr: 0x1000, len: 512, offset: 64 });

    let (entry, after) = filled(SourceType::Read(cached, None), UringOpDescriptor::Read(64, 512), Some(BUFFER));
    assert_eq!(entry.sqe, Sqe::Read { fd: 3, addr: 0x1000, len: 512, offset: 64 });
    assert_eq!(after, SourceType::Read(cached, sink));

    let (entry, after) = filled(SourceType::ForeignNotifier(0x40, true), UringOpDescriptor::Read(0, 8), None);
    assert_eq!(entry.sqe, Sqe::Read { fd: 3, addr: 0x40, len: 8, offset: 0 });
    assert_eq!(after, SourceType::ForeignNotifier(0x40, true));
}

#[test]
fn what_is_received_gets_its_memory() {
    let (entry, after) = filled(SourceType::SockRecv(None), UringOpDescriptor::SockRecv(100, 7), Some(BUFFER));
    assert_eq!(entry.sqe, Sqe::Recv { fd: 3, addr: 0x1000, len: 100, flags: 7 });
    assert_eq!(after, SourceType::SockRecv(Some(BUFFER)));

    let iov = Iovec { addr: 0x200, base: 0, len: 0 };
    let hdr = Msghdr { addr: 0x300, name: 0, namelen: 0, iov: 0, iovlen: 0 };
    let (entry, after) =
        filled(SourceType::SockRecvMsg(None, iov, hdr, 0x400), UringOpDescriptor::SockRecvMsg(100, 7), Some(BUFFER));
    assert_eq!(entry.sqe, Sqe::RecvMsg { fd: 3, msg: 0x300, msg_flags: 7 });
    assert_eq!(
        after,
        SourceType::SockRecvMsg(
            Some(BUFFER),
            Iovec { addr: 0x200, base: 0x1000, len: 100 },
            Msghdr { addr: 0x300, name: 0x400, namelen: 128, iov: 0x200, iovlen: 1 },
            0x400
        )
    );
}

#[test]
fn memory_is_asked_for_before() {
    let mut sources = SourceMap::new();
    let read = sources.allocate(source(SourceType::Read(PollableStatus::Pollable, None)));
    let wake = sources.allocate(source(SourceType::ForeignNotifier(0x40, false)));
    let ask = |id: usize, args| {
        buffer_request(&UringDescriptor { fd: 3, flags: 0, user_data: id as u64 + 1, args }, &sources)
    };
    assert_eq!(ask(read, UringOpDescriptor::Read(0, 64)), BufferRequest::Ring(64));
    assert_eq!(ask(wake, UringOpDescriptor::Read(0, 8)), BufferRequest::Nothing);
    assert_eq!(ask(read, UringOpDescriptor::ReadFixed(0, 64)), BufferRequest::Ring(64));
    assert_eq!(ask(read, UringOpDescriptor::SockRecv(64, 0)), BufferRequest::Heap(64));
    assert_eq!(ask(read, UringOpDescriptor::SockRecvMsg(64, 0)), BufferRequest::Heap(64));
    assert_eq!(ask(read, UringOpDescriptor::Close), BufferRequest::Nothing);
}
