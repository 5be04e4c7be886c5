//! Which operation a request becomes, and which ring it goes to.

use super::ring::RingKind;
use super::source::{Buffer, DirectIo, InnerSource, IoBuffer, Msghdr, PollableStatus, SourceType};
use super::sqe::{asked, law_writes_land_where_asked, Sqe, UringDescriptor, UringOpDescriptor};
use vstd::prelude::*;

verus! {

/// An error, a hang-up or a descriptor that is not open.
pub const COMMON_FLAGS: i16 = 0x38;

/// All possible readability events.
pub const READ_FLAGS: i16 = 0x3;

/// The ring a request goes to:
///
/// * disk reads and writes go to the poll ring if possible, or the main ring
///   otherwise;
/// * what a socket receives, connects and accepts goes to the latency ring;
/// * every other request goes to the main ring.
///
/// Requests that come in high numbers are kept off the latency ring because
/// the more requests are issued there, the less effective it becomes.
pub open spec fn ring_of(source: SourceType) -> RingKind {
    match source {
        SourceType::Read(PollableStatus::Pollable, _) | SourceType::Write(PollableStatus::Pollable, _) => RingKind::Poll,
        SourceType::SockRecv(_)
        | SourceType::SockRecvMsg(_, _, _, _)
        | SourceType::Accept(_, _)
        | SourceType::Connect(_, _) => RingKind::Latency,
        _ => RingKind::Main,
    }
}

/// The ring a request goes to.
pub fn ring_for_source(source: &SourceType) -> (kind: RingKind)
    requires
        !(source is Invalid),
    ensures
        kind == ring_of(*source),
{
    match source {
        SourceType::Read(status, _) => match status {
            PollableStatus::Pollable => RingKind::Poll,
            PollableStatus::NonPollable(_) => RingKind::Main,
        },
        SourceType::Write(status, _) => match status {
            PollableStatus::Pollable => RingKind::Poll,
            PollableStatus::NonPollable(_) => RingKind::Main,
        },
        SourceType::SockRecv(_) => RingKind::Latency,
        SourceType::SockRecvMsg(_, _, _, _) => RingKind::Latency,
        SourceType::Accept(_, _) => RingKind::Latency,
        SourceType::Connect(_, _) => RingKind::Latency,
        _ => RingKind::Main,
    }
}

/// The kernel, whatever descriptor it is asked of, is asked to write `len`
/// bytes from `addr` to the file from `pos` on.
pub open spec fn writes(args: UringOpDescriptor, addr: int, len: int, pos: int) -> bool {
    forall|op: UringDescriptor, source: SourceType, buffer: Option<Buffer>|
        op.args == args ==> match #[trigger] asked(op, source, buffer) {
            Sqe::Write { fd, addr: from, len: count, offset } => fd == op.fd && from as int == addr && offset as int == pos
                && count as int == len % 0x1_0000_0000,
            Sqe::WriteFixed { fd, addr: from, len: count, offset, .. } => fd == op.fd && from as int == addr && offset
                as int == pos && count as int == len % 0x1_0000_0000,
            _ => false,
        }
}

proof fn lemma_writes(addr: u64, len: usize, pos: u64, index: u32)
    ensures
        writes(UringOpDescriptor::Write(addr, len, pos), addr as int, len as int, pos as int),
        writes(UringOpDescriptor::WriteFixed(addr, len, pos, index), addr as int, len as int, pos as int),
{
    let plain = UringOpDescriptor::Write(addr, len, pos);
    let fixed = UringOpDescriptor::WriteFixed(addr, len, pos, index);
    assert forall|op: UringDescriptor, source: SourceType, buffer: Option<Buffer>|
        (op.args == plain || op.args == fixed) implies match #[trigger] asked(op, source, buffer) {
        Sqe::Write { fd, addr: from, len: count, offset } => fd == op.fd && from as int == addr && offset as int == pos
            && count as int == len as int % 0x1_0000_0000,
        Sqe::WriteFixed { fd, addr: from, len: count, offset, .. } => fd == op.fd && from as int == addr && offset as int
            == pos && count as int == len as int % 0x1_0000_0000,
        _ => false,
    } by {
        law_writes_land_where_asked(op, addr, len, pos, index, 0, source, buffer);
    }
}

/// A write of an aligned buffer: from registered memory where the buffer lies
/// in it, unless the file is written through the page cache.
pub fn write_dma_op(source: &SourceType, pos: u64) -> (op: UringOpDescriptor)
    requires
        source is Write,
        source->Write_1 is DmaSource,
    ensures
        ({
            let buf = source->Write_1->DmaSource_0;
            op == if buf.uring_buffer_id is Some && source->Write_0 != PollableStatus::NonPollable(DirectIo::Disabled) {
                UringOpDescriptor::WriteFixed(buf.addr, buf.len, pos, buf.uring_buffer_id->0)
            } else {
                UringOpDescriptor::Write(buf.addr, buf.len, pos)
            }
        }),
        writes(op, source->Write_1->DmaSource_0.addr as int, source->Write_1->DmaSource_0.len as int, pos as int),
{
    proof {
        let buf = source->Write_1->DmaSource_0;
        let index: u32 = match buf.uring_buffer_id {
            Some(id) => id,
            None => 0,
        };
        lemma_writes(buf.addr, buf.len, pos, index);
    }
    match source {
        SourceType::Write(PollableStatus::NonPollable(DirectIo::Disabled), IoBuffer::DmaSource(buf)) =>
            UringOpDescriptor::Write(buf.addr, buf.len, pos),
        SourceType::Write(_, IoBuffer::DmaSource(buf)) => match buf.uring_buffer_id {
            Some(id) => UringOpDescriptor::WriteFixed(buf.addr, buf.len, pos, id),
            None => UringOpDescriptor::Write(buf.addr, buf.len, pos),
        },
        _ => vstd::pervasive::unreached(),
    }
}

/// A write of a buffer through the page cache.
pub fn write_buffered_op(source: &SourceType, pos: u64) -> (op: UringOpDescriptor)
    requires
        source is Write,
        source->Write_0 == PollableStatus::NonPollable(DirectIo::Disabled),
        source->Write_1 is Buffered,
    ensures
        op == UringOpDescriptor::Write(
            source->Write_1->Buffered_0.addr,
            source->Write_1->Buffered_0.len,
            pos,
        ),
        writes(op, source->Write_1->Buffered_0.addr as int, source->Write_1->Buffered_0.len as int, pos as int),
{
    proof {
        lemma_writes(source->Write_1->Buffered_0.addr, source->Write_1->Buffered_0.len, pos, 0);
    }
    match source {
        SourceType::Write(_, IoBuffer::Buffered(buf)) => UringOpDescriptor::Write(buf.addr, buf.len, pos),
        _ => vstd::pervasive::unreached(),
    }
}

/// Sends a buffer.
pub fn send_op(source: &SourceType, flags: i32) -> (op: UringOpDescriptor)
    requires
        source is SockSend,
    ensures
        op == UringOpDescriptor::SockSend(source->SockSend_0.addr, source->SockSend_0.len, flags),
{
    match source {
        SourceType::SockSend(buf) => UringOpDescriptor::SockSend(buf.addr, buf.len, flags),
        _ => vstd::pervasive::unreached(),
    }
}

/// A message to be sent, once its record says what it is made of and whom it
/// is for.
pub open spec fn addressed(source: SourceType) -> SourceType {
    match source {
        SourceType::SockSendMsg(buf, iov, hdr, name, namelen) => SourceType::SockSendMsg(
            buf,
            iov,
            Msghdr { name, namelen, iov: iov.addr, iovlen: 1, ..hdr },
            name,
            namelen,
        ),
        other => other,
    }
}

/// Sends a message: fills in its record and sends that.
pub fn sendmsg_op(source: &mut SourceType, flags: i32) -> (op: UringOpDescriptor)
    requires
        *old(source) is SockSendMsg,
    ensures
        *final(source) == addressed(*old(source)),
        op == UringOpDescriptor::SockSendMsg((*old(source))->SockSendMsg_2.addr, flags),
{
    match *source {
        SourceType::SockSendMsg(buf, iov, hdr, name, namelen) => {
            let mut hdr: Msghdr = hdr;
            hdr.iov = iov.addr;
            hdr.iovlen = 1;
            hdr.name = name;
            hdr.namelen = namelen;
            *source = SourceType::SockSendMsg(buf, iov, hdr, name, namelen);
            UringOpDescriptor::SockSendMsg(hdr.addr, flags)
        },
        _ => vstd::pervasive::unreached(),
    }
}

/// Connects.
pub fn connect_op(source: &SourceType) -> (op: UringOpDescriptor)
    requires
        source is Connect,
    ensures
        op == UringOpDescriptor::Connect(source->Connect_0, source->Connect_1),
{
    match source {
        SourceType::Connect(addr, len) => UringOpDescriptor::Connect(*addr, *len),
        _ => vstd::pervasive::unreached(),
    }
}

/// Accepts.
pub fn accept_op(source: &SourceType) -> (op: UringOpDescriptor)
    requires
        source is Accept,
    ensures
        op == UringOpDescriptor::Accept(source->Accept_0, source->Accept_1),
{
    match source {
        SourceType::Accept(addr, len_at) => UringOpDescriptor::Accept(*addr, *len_at),
        _ => vstd::pervasive::unreached(),
    }
}

/// Reads the attributes of a descriptor.
pub fn statx_op(source: &InnerSource) -> (op: UringOpDescriptor)
    requires
        source.source_type is Statx,
    ensures
        op == UringOpDescriptor::StatxFd(source.fd, source.source_type->Statx_0),
{
    match source.source_type {
        SourceType::Statx(buf) => UringOpDescriptor::StatxFd(source.fd, buf),
        _ => vstd::pervasive::unreached(),
    }
}

/// Opens a path.
pub fn open_op(source: &SourceType, flags: i32, mode: u32) -> (op: UringOpDescriptor)
    requires
        source is Open,
    ensures
        op == UringOpDescriptor::Open(source->Open_0, flags, mode),
{
    match source {
        SourceType::Open(path) => UringOpDescriptor::Open(*path, flags, mode),
        _ => vstd::pervasive::unreached(),
    }
}

/// A call that blocks, for a thread of its own.
#[derive(Debug, Clone, Copy, PartialEq, Eq, Structural)]
pub enum BlockingThreadOp {
    /// Rename the path at the one number to the path at the other.
    Rename(u64, u64),
    /// Remove the path at the number given.
    Remove(u64),
    /// Make a directory of the path at the number given, with a mode.
    CreateDir(u64, i32),
    /// Cut a file to a length.
    Truncate(i32, i64),
    /// Copy from a descriptor and an offset to a descriptor and an offset, a
    /// length.
    CopyFileRange(i32, i64, i32, i64, usize),
    /// Call a function.
    Fn,
}

/// Cuts a file to a length.
pub fn truncate_op(fd: i32, size: u64) -> (op: BlockingThreadOp)
    ensures
        op == BlockingThreadOp::Truncate(fd, size as i64),
        size <= i64::MAX ==> (op matches BlockingThreadOp::Truncate(of, to) && of == fd && to as int == size as int),
{
    BlockingThreadOp::Truncate(fd, #[verifier::truncate]
    (size as i64))
}

/// Renames a path.
pub fn rename_op(source: &SourceType) -> (op: BlockingThreadOp)
    requires
        source is Rename,
    ensures
        op == BlockingThreadOp::Rename(source->Rename_0, source->Rename_1),
{
    match source {
        SourceType::Rename(from, to) => BlockingThreadOp::Rename(*from, *to),
        _ => vstd::pervasive::unreached(),
    }
}

/// Copies into a descriptor from `pos` on.
pub fn copy_file_range_op(source: &InnerSource, pos: u64) -> (op: BlockingThreadOp)
    requires
        source.source_type is CopyFileRange,
        source.source_type->CopyFileRange_1 <= i64::MAX,
        pos <= i64::MAX,
    ensures
        op == BlockingThreadOp::CopyFileRange(
            source.source_type->CopyFileRange_0,
            source.source_type->CopyFileRange_1 as i64,
            source.fd,
            pos as i64,
            source.source_type->CopyFileRange_2,
        ),
        op matches BlockingThreadOp::CopyFileRange(_, from, to, at, _) && from as int == source.source_type->CopyFileRange_1
            as int && at as int == pos as int && to == source.fd,
{
    match source.source_type {
        SourceType::CopyFileRange(fd_in, off_in, len) => BlockingThreadOp::CopyFileRange(
            fd_in,
            off_in as i64,
            source.fd,
            pos as i64,
            len,
        ),
        _ => vstd::pervasive::unreached(),
    }
}

/// Makes a directory.
pub fn create_dir_op(source: &SourceType, mode: i32) -> (op: BlockingThreadOp)
    requires
        source is CreateDir,
    ensures
        op == BlockingThreadOp::CreateDir(source->CreateDir_0, mode),
{
    match source {
        SourceType::CreateDir(path) => BlockingThreadOp::CreateDir(*path, mode),
        _ => vstd::pervasive::unreached(),
    }
}

/// Removes a path.
pub fn remove_file_op(source: &SourceType) -> (op: BlockingThreadOp)
    requires
        source is Remove,
    ensures
        op == BlockingThreadOp::Remove(source->Remove_0),
{
    match source {
        SourceType::Remove(path) => BlockingThreadOp::Remove(*path),
        _ => vstd::pervasive::unreached(),
    }
}

/// Where a request goes. Reads and writes of a file go to the ring that is
/// polled exactly where the file can be polled; what waits for a peer goes to
/// the latency ring, and nothing else does.
pub proof fn law_where_requests_go(source: SourceType)
    ensures
        source is Read ==> ring_of(source) == if source->Read_0 is Pollable {
            RingKind::Poll
        } else {
            RingKind::Main
        },
        source is Write ==> ring_of(source) == if source->Write_0 is Pollable {
            RingKind::Poll
        } else {
            RingKind::Main
        },
        ring_of(source) is Latency <==> source is SockRecv || source is SockRecvMsg || source is Accept
            || source is Connect,
        ring_of(source) is Poll ==> source is Read || source is Write,
{
}

/// A message says what it is made of and whom it is for, and nothing else of
/// the request changes.
pub proof fn law_a_message_is_addressed(source: SourceType)
    ensures
        source matches SourceType::SockSendMsg(buf, iov, hdr, name, namelen) ==> (addressed(source) matches SourceType::SockSendMsg(
            buf2,
            iov2,
            hdr2,
            name2,
            namelen2,
        ) && buf2 == buf && iov2 == iov && name2 == name && namelen2 == namelen && hdr2.addr == hdr.addr && hdr2.iov
            as int == iov.addr as int && hdr2.iovlen == 1 && hdr2.name as int == name as int && hdr2.namelen as int
            == namelen as int),
        !(source is SockSendMsg) ==> addressed(source) == source,
{
}

} // verus!
