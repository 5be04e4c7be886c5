//! What one entry of a submission queue asks of the kernel.

use super::source::{
    from_user_data, user_data_of, Buffer, DirectIo, InnerSource, IoBuffer, Iovec, Msghdr, PollableStatus,
    SourceMap, SourceType,
};
use super::support::required_operations;
use vstd::prelude::*;

verus! {

/// The next entry starts only when this one succeeded.
pub const IO_LINK: u8 = 4;

/// The next entry starts when this one is done, however it ended.
pub const IO_HARDLINK: u8 = 8;

/// A connection that is accepted is closed when another program is run.
pub const SOCK_CLOEXEC: i32 = 0x8_0000;

/// Look attributes up by descriptor alone, without mounting anything, as
/// `stat` does.
pub const STATX_FLAGS: i32 = 0x1800;

/// All the basic attributes.
pub const STATX_MASK: u32 = 0x7ff;

/// The room a peer's address takes at most.
pub const SOCKADDR_LEN: u32 = 128;

/// A request as it is queued.
#[derive(Debug, Clone, Copy, PartialEq, Eq, Structural)]
pub enum UringOpDescriptor {
    /// Wait for any of these conditions.
    PollAdd(i16),
    /// Stop waiting.
    PollRemove(u64),
    /// Cancel.
    Cancel(u64),
    /// Write from an address, a length and an offset.
    Write(u64, usize, u64),
    /// The same from registered memory.
    WriteFixed(u64, usize, u64, u32),
    /// Read an offset and a length, into registered memory if there is room.
    ReadFixed(u64, usize),
    /// Read an offset and a length.
    Read(u64, usize),
    /// Open a path with flags and a mode.
    Open(u64, i32, u32),
    /// Close.
    Close,
    /// Write data back.
    FDataSync,
    /// Connect to an address of a length.
    Connect(u64, u32),
    /// Limit the entry before by a time.
    LinkTimeout(u64),
    /// Accept, with room for the peer's address and its length.
    Accept(u64, u64),
    /// Allocate from an offset a size with flags.
    Fallocate(u64, u64, i32),
    /// Read the attributes of a descriptor to an address.
    StatxFd(i32, u64),
    /// Wait for a time, or for that many completions.
    Timeout(u64, u32),
    /// Stop waiting for a time.
    TimeoutRemove(u64),
    /// Send from an address a length with flags.
    SockSend(u64, usize, i32),
    /// Send a message with flags.
    SockSendMsg(u64, i32),
    /// Receive a length with flags.
    SockRecv(usize, i32),
    /// Receive a message of a length with flags.
    SockRecvMsg(usize, i32),
    /// Nothing.
    Nop,
}

/// A request as it is queued, with what goes with every request.
#[derive(Debug, Clone, Copy, PartialEq, Eq, Structural)]
pub struct UringDescriptor {
    /// The descriptor it is about.
    pub fd: i32,
    /// How it is tied to the next.
    pub flags: u8,
    /// The number its completion carries back.
    pub user_data: u64,
    /// What it is.
    pub args: UringOpDescriptor,
}

/// What an entry asks of the kernel.
#[derive(Debug, Clone, Copy, PartialEq, Eq, Structural)]
#[allow(missing_docs)]
pub enum Sqe {
    Nop,
    Fsync {
        /// The file.
        fd: i32,
        /// Only what is needed to read the data back.
        datasync: bool,
    },
    ReadFixed { fd: i32, addr: u64, len: u32, offset: u64, buf_index: u16 },
    WriteFixed { fd: i32, addr: u64, len: u32, offset: u64, buf_index: u16 },
    PollAdd { fd: i32, events: u32 },
    PollRemove { target: u64 },
    SendMsg { fd: i32, msg: u64, msg_flags: u32 },
    RecvMsg { fd: i32, msg: u64, msg_flags: u32 },
    Timeout { timespec: u64, count: u32 },
    TimeoutRemove { target: u64 },
    Accept { fd: i32, addr: u64, addrlen_at: u64, flags: i32 },
    AsyncCancel { target: u64 },
    LinkTimeout { timespec: u64 },
    Connect { fd: i32, addr: u64, addrlen: u32 },
    Fallocate { fd: i32, size: u64, offset: u64, falloc_mode: i32 },
    OpenAt { fd: i32, path: u64, flags: i32, mode: u32 },
    Close { fd: i32 },
    Statx { fd: i32, buf: u64, flags: i32, mask: u32 },
    Read { fd: i32, addr: u64, len: u32, offset: u64 },
    Write { fd: i32, addr: u64, len: u32, offset: u64 },
    Send { fd: i32, addr: u64, len: u32, flags: i32 },
    Recv { fd: i32, addr: u64, len: u32, flags: i32 },
}

/// An entry of a submission queue.
#[derive(Debug, Clone, Copy, PartialEq, Eq, Structural)]
pub struct Entry {
    /// What it asks.
    pub sqe: Sqe,
    /// The number its completion carries back. Zero for one nobody waits for.
    pub user_data: u64,
    /// How it is tied to the next.
    pub flags: u8,
}

impl Sqe {
    /// The code of the operation.
    pub open spec fn spec_code(self) -> u8 {
        match self {
            Sqe::Nop => 0,
            Sqe::Fsync { .. } => 3,
            Sqe::ReadFixed { .. } => 4,
            Sqe::WriteFixed { .. } => 5,
            Sqe::PollAdd { .. } => 6,
            Sqe::PollRemove { .. } => 7,
            Sqe::SendMsg { .. } => 9,
            Sqe::RecvMsg { .. } => 10,
            Sqe::Timeout { .. } => 11,
            Sqe::TimeoutRemove { .. } => 12,
            Sqe::Accept { .. } => 13,
            Sqe::AsyncCancel { .. } => 14,
            Sqe::LinkTimeout { .. } => 15,
            Sqe::Connect { .. } => 16,
            Sqe::Fallocate { .. } => 17,
            Sqe::OpenAt { .. } => 18,
            Sqe::Close { .. } => 19,
            Sqe::Statx { .. } => 21,
            Sqe::Read { .. } => 22,
            Sqe::Write { .. } => 23,
            Sqe::Send { .. } => 26,
            Sqe::Recv { .. } => 27,
        }
    }

    /// The code of the operation.
    pub fn code(self) -> (code: u8)
        ensures
            code == self.spec_code(),
    {
        match self {
            Sqe::Nop => 0,
            Sqe::Fsync { .. } => 3,
            Sqe::ReadFixed { .. } => 4,
            Sqe::WriteFixed { .. } => 5,
            Sqe::PollAdd { .. } => 6,
            Sqe::PollRemove { .. } => 7,
            Sqe::SendMsg { .. } => 9,
            Sqe::RecvMsg { .. } => 10,
            Sqe::Timeout { .. } => 11,
            Sqe::TimeoutRemove { .. } => 12,
            Sqe::Accept { .. } => 13,
            Sqe::AsyncCancel { .. } => 14,
            Sqe::LinkTimeout { .. } => 15,
            Sqe::Connect { .. } => 16,
            Sqe::Fallocate { .. } => 17,
            Sqe::OpenAt { .. } => 18,
            Sqe::Close { .. } => 19,
            Sqe::Statx { .. } => 21,
            Sqe::Read { .. } => 22,
            Sqe::Write { .. } => 23,
            Sqe::Send { .. } => 26,
            Sqe::Recv { .. } => 27,
        }
    }

    /// Every operation an entry can ask for is one the kernel is probed for
    /// before anything is submitted.
    pub proof fn law_every_operation_is_probed(self)
        ensures
            exists|i: int|
                0 <= i < required_operations().len() && (#[trigger] required_operations()[i]).code == self.spec_code(),
    {
        let ops = required_operations();
        assert(ops.len() == 24);
        let i: int = match self {
            Sqe::Nop => 0,
            Sqe::Fsync { .. } => 3,
            Sqe::ReadFixed { .. } => 4,
            Sqe::WriteFixed { .. } => 5,
            Sqe::PollAdd { .. } => 6,
            Sqe::PollRemove { .. } => 7,
            Sqe::SendMsg { .. } => 8,
            Sqe::RecvMsg { .. } => 9,
            Sqe::Timeout { .. } => 10,
            Sqe::TimeoutRemove { .. } => 11,
            Sqe::Accept { .. } => 12,
            Sqe::AsyncCancel { .. } => 23,
            Sqe::LinkTimeout { .. } => 13,
            Sqe::Connect { .. } => 14,
            Sqe::Fallocate { .. } => 15,
            Sqe::OpenAt { .. } => 16,
            Sqe::Close { .. } => 17,
            Sqe::Statx { .. } => 18,
            Sqe::Read { .. } => 19,
            Sqe::Write { .. } => 20,
            Sqe::Send { .. } => 21,
            Sqe::Recv { .. } => 22,
        };
        assert(ops[i].code == self.spec_code());
    }
}

/// The memory an entry needs before it can be filled in.
#[derive(Debug, Clone, Copy, PartialEq, Eq, Structural)]
pub enum BufferRequest {
    /// None.
    Nothing,
    /// This much of the memory registered with the rings, or of any other
    /// where that is used up.
    Ring(usize),
    /// This much of any memory.
    Heap(usize),
}

impl UringOpDescriptor {
    /// Whether filling in the entry looks at the request itself.
    pub open spec fn needs_source(self) -> bool {
        self is Read || self is ReadFixed || self is SockRecv || self is SockRecvMsg
    }

    /// The memory an entry for a request of type `source` needs.
    pub open spec fn buffer_request(self, source: SourceType) -> BufferRequest {
        match self {
            UringOpDescriptor::Read(_, len) => if source is ForeignNotifier {
                BufferRequest::Nothing
            } else {
                BufferRequest::Ring(len)
            },
            UringOpDescriptor::ReadFixed(_, len) => BufferRequest::Ring(len),
            UringOpDescriptor::SockRecv(len, _) => BufferRequest::Heap(len),
            UringOpDescriptor::SockRecvMsg(len, _) => BufferRequest::Heap(len),
            _ => BufferRequest::Nothing,
        }
    }

    /// A request of type `source`, given `buffer`, is one this can be filled
    /// in for. A buffered read must not have memory yet: the kernel knows
    /// about that memory already and will write to it.
    pub open spec fn suits(self, source: SourceType, buffer: Option<Buffer>) -> bool {
        &&& self.buffer_request(source) is Nothing || buffer is Some
        &&& match self {
            UringOpDescriptor::Read(_, _) => match source {
                SourceType::ForeignNotifier(_, _) => true,
                SourceType::Read(status, slot) => status == PollableStatus::NonPollable(DirectIo::Disabled)
                    && slot is None,
                _ => false,
            },
            UringOpDescriptor::ReadFixed(_, _) => source is Read,
            UringOpDescriptor::SockRecv(_, _) => source is SockRecv,
            UringOpDescriptor::SockRecvMsg(_, _) => source is SockRecvMsg,
            _ => true,
        }
    }
}

/// The memory an entry needs before it can be filled in.
pub fn buffer_request(op: &UringDescriptor, sources: &SourceMap) -> (request: BufferRequest)
    requires
        op.args.needs_source() ==> 0 < op.user_data <= usize::MAX && sources@.contains_key(
            (op.user_data - 1) as usize,
        ),
    ensures
        request == op.args.buffer_request(sources@[(op.user_data - 1) as usize].source_type),
{
    match op.args {
        UringOpDescriptor::Read(_, len) => {
            match sources.get(from_user_data(op.user_data)) {
                Some(source) => match source.source_type {
                    SourceType::ForeignNotifier(_, _) => BufferRequest::Nothing,
                    _ => BufferRequest::Ring(len),
                },
                None => BufferRequest::Ring(len),
            }
        },
        UringOpDescriptor::ReadFixed(_, len) => BufferRequest::Ring(len),
        UringOpDescriptor::SockRecv(len, _) => BufferRequest::Heap(len),
        UringOpDescriptor::SockRecvMsg(len, _) => BufferRequest::Heap(len),
        _ => BufferRequest::Nothing,
    }
}

/// A read of `len` bytes into `buffer`: by its number where its memory is
/// registered and the request may use that.
pub open spec fn read_into(fd: i32, buffer: Buffer, len: usize, offset: u64, registered: bool) -> Sqe {
    match buffer.uring_buffer_id {
        Some(id) => if registered {
            Sqe::ReadFixed { fd, addr: buffer.addr, len: len as u32, offset, buf_index: id as u16 }
        } else {
            Sqe::Read { fd, addr: buffer.addr, len: len as u32, offset }
        },
        None => Sqe::Read { fd, addr: buffer.addr, len: len as u32, offset },
    }
}

/// What the entry for a descriptor asks, given the request's type and the
/// memory it was given.
pub open spec fn asked(op: UringDescriptor, source: SourceType, buffer: Option<Buffer>) -> Sqe {
    let fd = op.fd;
    match op.args {
        UringOpDescriptor::PollAdd(events) => Sqe::PollAdd { fd, events: events as u32 },
        UringOpDescriptor::PollRemove(target) => Sqe::PollRemove { target },
        UringOpDescriptor::Cancel(target) => Sqe::AsyncCancel { target },
        UringOpDescriptor::Write(addr, len, offset) => Sqe::Write { fd, addr, len: len as u32, offset },
        UringOpDescriptor::WriteFixed(addr, len, offset, index) => Sqe::WriteFixed {
            fd,
            addr,
            len: len as u32,
            offset,
            buf_index: index as u16,
        },
        UringOpDescriptor::Read(offset, len) => match source {
            SourceType::ForeignNotifier(addr, _) => Sqe::Read { fd, addr, len: 8, offset },
            _ => read_into(fd, buffer->0, len, offset, false),
        },
        UringOpDescriptor::ReadFixed(offset, len) => read_into(
            fd,
            buffer->0,
            len,
            offset,
            source->Read_0 != PollableStatus::NonPollable(DirectIo::Disabled),
        ),
        UringOpDescriptor::Open(path, flags, mode) => Sqe::OpenAt { fd, path, flags, mode },
        UringOpDescriptor::Close => Sqe::Close { fd },
        UringOpDescriptor::FDataSync => Sqe::Fsync { fd, datasync: true },
        UringOpDescriptor::Connect(addr, addrlen) => Sqe::Connect { fd, addr, addrlen },
        UringOpDescriptor::LinkTimeout(timespec) => Sqe::LinkTimeout { timespec },
        UringOpDescriptor::Accept(addr, addrlen) => Sqe::Accept {
            fd,
            addr,
            addrlen_at: addrlen,
            flags: SOCK_CLOEXEC,
        },
        UringOpDescriptor::Fallocate(offset, size, mode) => Sqe::Fallocate {
            fd,
            size,
            offset,
            falloc_mode: mode,
        },
        UringOpDescriptor::StatxFd(statx_fd, buf) => Sqe::Statx {
            fd: statx_fd,
            buf,
            flags: STATX_FLAGS,
            mask: STATX_MASK,
        },
        UringOpDescriptor::Timeout(timespec, count) => Sqe::Timeout { timespec, count },
        UringOpDescriptor::TimeoutRemove(target) => Sqe::TimeoutRemove { target },
        UringOpDescriptor::SockSend(addr, len, flags) => Sqe::Send { fd, addr, len: len as u32, flags },
        UringOpDescriptor::SockSendMsg(msg, flags) => Sqe::SendMsg { fd, msg, msg_flags: flags as u32 },
        UringOpDescriptor::SockRecv(len, flags) => Sqe::Recv {
            fd,
            addr: buffer->0.addr,
            len: len as u32,
            flags,
        },
        UringOpDescriptor::SockRecvMsg(_, flags) => Sqe::RecvMsg {
            fd,
            msg: source->SockRecvMsg_2.addr,
            msg_flags: flags as u32,
        },
        UringOpDescriptor::Nop => Sqe::Nop,
    }
}

/// The number the completion carries back: a request to stop another one is
/// not itself waited for.
pub open spec fn carried(op: UringDescriptor) -> u64 {
    if op.args is PollRemove || op.args is Cancel {
        0
    } else {
        op.user_data
    }
}

/// A request's type once its memory is attached, where the kernel will fill
/// it.
pub open spec fn attached(op: UringDescriptor, source: SourceType, buffer: Option<Buffer>) -> SourceType {
    match (op.args, source) {
        (UringOpDescriptor::Read(_, _), SourceType::Read(status, _)) => SourceType::Read(
            status,
            Some(IoBuffer::DmaSink(buffer->0)),
        ),
        (UringOpDescriptor::ReadFixed(_, _), SourceType::Read(status, _)) => SourceType::Read(
            status,
            Some(IoBuffer::DmaSink(buffer->0)),
        ),
        (UringOpDescriptor::SockRecv(_, _), SourceType::SockRecv(_)) => SourceType::SockRecv(buffer),
        (UringOpDescriptor::SockRecvMsg(len, _), SourceType::SockRecvMsg(_, iov, hdr, name)) => SourceType::SockRecvMsg(
            buffer,
            Iovec { base: buffer->0.addr, len, ..iov },
            Msghdr { name, namelen: SOCKADDR_LEN, iov: iov.addr, iovlen: 1, ..hdr },
            name,
        ),
        _ => source,
    }
}

/// The requests once `op` is filled in.
pub open spec fn sources_after(
    op: UringDescriptor,
    sources: Map<usize, InnerSource>,
    buffer: Option<Buffer>,
) -> Map<usize, InnerSource> {
    if op.args.needs_source() {
        let id = (op.user_data - 1) as usize;
        sources.insert(
            id,
            InnerSource { source_type: attached(op, sources[id].source_type, buffer), ..sources[id] },
        )
    } else {
        sources
    }
}

fn fill_read(fd: i32, buffer: Buffer, len: usize, offset: u64, registered: bool) -> (sqe: Sqe)
    ensures
        sqe == read_into(fd, buffer, len, offset, registered),
{
    match buffer.uring_buffer_id {
        Some(id) => if registered {
            Sqe::ReadFixed {
                fd,
                addr: buffer.addr,
                len: #[verifier::truncate]
                (len as u32),
                offset,
                buf_index: #[verifier::truncate]
                (id as u16),
            }
        } else {
            Sqe::Read {
                fd,
                addr: buffer.addr,
                len: #[verifier::truncate]
                (len as u32),
                offset,
            }
        },
        None => Sqe::Read {
            fd,
            addr: buffer.addr,
            len: #[verifier::truncate]
            (len as u32),
            offset,
        },
    }
}

/// Builds the submission queue entry for one descriptor and attaches the
/// memory it was given to the request, where the kernel will fill it.
pub fn fill_sqe(op: &UringDescriptor, buffer: Option<Buffer>, sources: &mut SourceMap) -> (entry: Entry)
    requires
        old(sources).wf(),
        op.args.needs_source() ==> 0 < op.user_data <= usize::MAX && old(sources)@.contains_key(
            (op.user_data - 1) as usize,
        ) && op.args.suits(old(sources)@[(op.user_data - 1) as usize].source_type, buffer),
    ensures
        final(sources).wf(),
        final(sources)@ == sources_after(*op, old(sources)@, buffer),
        entry == (Entry {
            sqe: asked(*op, old(sources)@[(op.user_data - 1) as usize].source_type, buffer),
            user_data: carried(*op),
            flags: op.flags,
        }),
{
    let fd: i32 = op.fd;
    let mut user_data: u64 = op.user_data;
    let given: Buffer = match buffer {
        Some(given) => given,
        None => Buffer { addr: 0, len: 0, uring_buffer_id: None },
    };
    let sqe: Sqe = match op.args {
        UringOpDescriptor::PollAdd(events) => Sqe::PollAdd {
            fd,
            events: #[verifier::truncate]
            (events as u32),
        },
        UringOpDescriptor::PollRemove(target) => {
            user_data = 0;
            Sqe::PollRemove { target }
        },
        UringOpDescriptor::Cancel(target) => {
            user_data = 0;
            Sqe::AsyncCancel { target }
        },
        UringOpDescriptor::Write(addr, len, offset) => Sqe::Write {
            fd,
            addr,
            len: #[verifier::truncate]
            (len as u32),
            offset,
        },
        UringOpDescriptor::WriteFixed(addr, len, offset, index) => Sqe::WriteFixed {
            fd,
            addr,
            len: #[verifier::truncate]
            (len as u32),
            offset,
            buf_index: #[verifier::truncate]
            (index as u16),
        },
        UringOpDescriptor::Read(offset, len) => {
            let id: usize = from_user_data(op.user_data);
            let mut source: InnerSource = lookup(sources, id);
            match source.source_type {
                SourceType::ForeignNotifier(addr, _) => {
                    assert(sources@ =~= sources_after(*op, old(sources)@, buffer));
                    Sqe::Read { fd, addr, len: 8, offset }
                },
                SourceType::Read(status, _) => {
                    source.source_type = SourceType::Read(status, Some(IoBuffer::DmaSink(given)));
                    sources.replace(id, source);
                    fill_read(fd, given, len, offset, false)
                },
                _ => Sqe::Nop,
            }
        },
        UringOpDescriptor::ReadFixed(offset, len) => {
            let id: usize = from_user_data(op.user_data);
            let mut source: InnerSource = lookup(sources, id);
            match source.source_type {
                SourceType::Read(status, _) => {
                    let registered: bool = match status {
                        PollableStatus::NonPollable(DirectIo::Disabled) => false,
                        _ => true,
                    };
                    source.source_type = SourceType::Read(status, Some(IoBuffer::DmaSink(given)));
                    sources.replace(id, source);
                    fill_read(fd, given, len, offset, registered)
                },
                _ => Sqe::Nop,
            }
        },
        UringOpDescriptor::Open(path, flags, mode) => Sqe::OpenAt { fd, path, flags, mode },
        UringOpDescriptor::Close => Sqe::Close { fd },
        UringOpDescriptor::FDataSync => Sqe::Fsync { fd, datasync: true },
        UringOpDescriptor::Connect(addr, addrlen) => Sqe::Connect { fd, addr, addrlen },
        UringOpDescriptor::LinkTimeout(timespec) => Sqe::LinkTimeout { timespec },
        UringOpDescriptor::Accept(addr, addrlen) => Sqe::Accept {
            fd,
            addr,
            addrlen_at: addrlen,
            flags: SOCK_CLOEXEC,
        },
        UringOpDescriptor::Fallocate(offset, size, mode) => Sqe::Fallocate {
            fd,
            size,
            offset,
            falloc_mode: mode,
        },
        UringOpDescriptor::StatxFd(statx_fd, buf) => Sqe::Statx {
            fd: statx_fd,
            buf,
            flags: STATX_FLAGS,
            mask: STATX_MASK,
        },
        UringOpDescriptor::Timeout(timespec, count) => Sqe::Timeout { timespec, count },
        UringOpDescriptor::TimeoutRemove(target) => Sqe::TimeoutRemove { target },
        UringOpDescriptor::SockSend(addr, len, flags) => Sqe::Send {
            fd,
            addr,
            len: #[verifier::truncate]
            (len as u32),
            flags,
        },
        UringOpDescriptor::SockSendMsg(msg, flags) => Sqe::SendMsg {
            fd,
            msg,
            msg_flags: #[verifier::truncate]
            (flags as u32),
        },
        UringOpDescriptor::SockRecv(len, flags) => {
            let id: usize = from_user_data(op.user_data);
            let mut source: InnerSource = lookup(sources, id);
            source.source_type = SourceType::SockRecv(buffer);
            sources.replace(id, source);
            Sqe::Recv {
                fd,
                addr: given.addr,
                len: #[verifier::truncate]
                (len as u32),
                flags,
            }
        },
        UringOpDescriptor::SockRecvMsg(len, flags) => {
            let id: usize = from_user_data(op.user_data);
            let mut source: InnerSource = lookup(sources, id);
            match source.source_type {
                SourceType::SockRecvMsg(_, iov, hdr, name) => {
                    let mut iov: Iovec = iov;
                    iov.base = given.addr;
                    iov.len = len;
                    let mut hdr: Msghdr = hdr;
                    hdr.name = name;
                    hdr.namelen = SOCKADDR_LEN;
                    hdr.iov = iov.addr;
                    hdr.iovlen = 1;
                    source.source_type = SourceType::SockRecvMsg(buffer, iov, hdr, name);
                    sources.replace(id, source);
                    Sqe::RecvMsg {
                        fd,
                        msg: hdr.addr,
                        msg_flags: #[verifier::truncate]
                        (flags as u32),
                    }
                },
                _ => Sqe::Nop,
            }
        },
        UringOpDescriptor::Nop => Sqe::Nop,
    };
    Entry { sqe, user_data, flags: op.flags }
}

/// Lengths and indices go into an entry as its narrower fields hold them: as
/// they are where they fit, and without what does not fit where not.
proof fn lemma_fields(len: usize, index: u32, events: i16, flags: i32)
    ensures
        (len as u32) as int == len as int % 0x1_0000_0000,
        (index as u16) as int == index as int % 0x1_0000,
        (events as u32) as int == if events >= 0 {
            events as int
        } else {
            events + 0x1_0000_0000
        },
        (flags as u32) as int == if flags >= 0 {
            flags as int
        } else {
            flags + 0x1_0000_0000
        },
{
    let wide = len as u64;
    assert(wide as u32 == wide % 0x1_0000_0000) by (bit_vector);
    assert((len as u64) as u32 == len as u32) by (bit_vector);
    assert(index as u16 == index % 0x1_0000) by (bit_vector);
    assert(events >= 0 ==> events as u32 == events) by (bit_vector);
    assert(events < 0 ==> events as u32 == events + 0x1_0000_0000) by (bit_vector);
    assert(flags >= 0 ==> flags as u32 == flags) by (bit_vector);
    assert(flags < 0 ==> flags as u32 == flags + 0x1_0000_0000) by (bit_vector);
}

/// What is written is what was asked to be written: the kernel is told to take
/// the bytes from the request's own address and to put them in the request's
/// own file, beginning at the very position that was asked for, whichever of
/// the positions a file can have that is, and as many of them as were asked
/// for. Asking for a position so much further on has the bytes land so much
/// further on.
pub proof fn law_writes_land_where_asked(
    op: UringDescriptor,
    addr: u64,
    len: usize,
    offset: u64,
    index: u32,
    further: u64,
    source: SourceType,
    buffer: Option<Buffer>,
)
    requires
        op.args == UringOpDescriptor::Write(addr, len, offset) || op.args == UringOpDescriptor::WriteFixed(
            addr,
            len,
            offset,
            index,
        ),
        offset + further <= u64::MAX,
    ensures
        op.args is Write ==> (asked(op, source, buffer) matches Sqe::Write { fd, addr: from, len: count, offset: at } && fd
            == op.fd && from as int == addr as int && at as int == offset as int && count as int == len as int
            % 0x1_0000_0000),
        op.args is WriteFixed ==> (asked(op, source, buffer) matches Sqe::WriteFixed {
            fd,
            addr: from,
            len: count,
            offset: at,
            buf_index,
        } && fd == op.fd && from as int == addr as int && at as int == offset as int && count as int == len as int
            % 0x1_0000_0000 && buf_index as int == index as int % 0x1_0000),
        ({
            let on = UringDescriptor {
                args: UringOpDescriptor::Write(addr, len, (offset + further) as u64),
                ..op
            };
            op.args is Write ==> asked(on, source, buffer)->Write_offset - asked(op, source, buffer)->Write_offset
                == further
        }),
{
    lemma_fields(len, index, 0, 0);
}

/// What is read is what was asked to be read: the kernel is told to read the
/// request's own file from the very position asked for, as many bytes as were
/// asked for, into the memory that the request was given and that whoever
/// waits for it will find attached to it. Registered memory is named by its
/// number, and only where the request does not go through the page cache.
pub proof fn law_reads_come_from_where_asked(
    op: UringDescriptor,
    offset: u64,
    len: usize,
    source: SourceType,
    buffer: Buffer,
)
    requires
        op.args == UringOpDescriptor::Read(offset, len) || op.args == UringOpDescriptor::ReadFixed(offset, len),
        source is Read,
        op.args.suits(source, Some(buffer)),
    ensures
        match asked(op, source, Some(buffer)) {
            Sqe::Read { fd, addr, len: count, offset: at } => {
                &&& fd == op.fd && addr as int == buffer.addr as int && at as int == offset as int
                &&& count as int == len as int % 0x1_0000_0000
                &&& buffer.uring_buffer_id is None || op.args is Read || source->Read_0 == PollableStatus::NonPollable(
                    DirectIo::Disabled,
                )
            },
            Sqe::ReadFixed { fd, addr, len: count, offset: at, buf_index } => {
                &&& fd == op.fd && addr as int == buffer.addr as int && at as int == offset as int
                &&& count as int == len as int % 0x1_0000_0000
                &&& op.args is ReadFixed && source->Read_0 != PollableStatus::NonPollable(DirectIo::Disabled)
                &&& buffer.uring_buffer_id matches Some(id) && buf_index as int == id as int % 0x1_0000
            },
            _ => false,
        },
        attached(op, source, Some(buffer)) == SourceType::Read(source->Read_0, Some(IoBuffer::DmaSink(buffer))),
{
    match buffer.uring_buffer_id {
        Some(id) => {
            lemma_fields(len, id, 0, 0);
        },
        None => {
            lemma_fields(len, 0, 0, 0);
        },
    }
}

/// A wake from another thread is read as the eight bytes of its count, to
/// where the notifier keeps them.
pub proof fn law_wakes_are_read_in_full(op: UringDescriptor, offset: u64, len: usize, addr: u64, installed: bool, buffer: Option<Buffer>)
    requires
        op.args == UringOpDescriptor::Read(offset, len),
    ensures
        asked(op, SourceType::ForeignNotifier(addr, installed), buffer) matches Sqe::Read {
            fd,
            addr: to,
            len: count,
            offset: at,
        } && fd == op.fd && to as int == addr as int && count as int == 8 && at as int == offset as int,
        attached(op, SourceType::ForeignNotifier(addr, installed), buffer) == SourceType::ForeignNotifier(addr, installed),
{
}

/// What is sent and received goes by the request's own socket: from the
/// address, for the length and with the flags that were asked for, and into
/// the memory that the request was given.
pub proof fn law_sockets_carry_what_was_asked(op: UringDescriptor, source: SourceType, buffer: Buffer)
    ensures
        op.args matches UringOpDescriptor::SockSend(addr, len, flags) ==> (asked(op, source, Some(buffer)) matches Sqe::Send {
            fd,
            addr: from,
            len: count,
            flags: with,
        } && fd == op.fd && from as int == addr as int && count as int == len as int % 0x1_0000_0000 && with as int
            == flags as int),
        op.args matches UringOpDescriptor::SockRecv(len, flags) ==> (asked(op, source, Some(buffer)) matches Sqe::Recv {
            fd,
            addr: to,
            len: count,
            flags: with,
        } && fd == op.fd && to as int == buffer.addr as int && count as int == len as int % 0x1_0000_0000 && with as int
            == flags as int) && (source is SockRecv ==> attached(op, source, Some(buffer)) == SourceType::SockRecv(
            Some(buffer),
        )),
        op.args matches UringOpDescriptor::SockSendMsg(msg, flags) ==> (asked(op, source, Some(buffer)) matches Sqe::SendMsg {
            fd,
            msg: from,
            msg_flags,
        } && fd == op.fd && from as int == msg as int && (msg_flags as int - flags as int) % 0x1_0000_0000 == 0),
        source is SockRecvMsg ==> (op.args matches UringOpDescriptor::SockRecvMsg(len, flags) ==> {
            let after = attached(op, source, Some(buffer));
            &&& asked(op, source, Some(buffer)) matches Sqe::RecvMsg { fd, msg, msg_flags } && fd == op.fd && msg as int
                == source->SockRecvMsg_2.addr as int && (msg_flags as int - flags as int) % 0x1_0000_0000 == 0
            &&& after matches SourceType::SockRecvMsg(given, iov, hdr, name) && given == Some(buffer) && iov.base
                as int == buffer.addr as int && iov.len as int == len as int && iov.addr == source->SockRecvMsg_1.addr
                && hdr.addr == source->SockRecvMsg_2.addr && hdr.iov as int == iov.addr as int && hdr.iovlen == 1
                && hdr.name as int == name as int && name == source->SockRecvMsg_3 && hdr.namelen as int == 128
        }),
{
    match op.args {
        UringOpDescriptor::SockSend(_, len, flags) => {
            lemma_fields(len, 0, 0, flags);
        },
        UringOpDescriptor::SockRecv(len, flags) => {
            lemma_fields(len, 0, 0, flags);
        },
        UringOpDescriptor::SockSendMsg(_, flags) => {
            lemma_fields(0, 0, 0, flags);
        },
        UringOpDescriptor::SockRecvMsg(len, flags) => {
            lemma_fields(len, 0, 0, flags);
        },
        _ => {},
    }
}

/// Whatever else is asked reaches the kernel as it was asked: of the
/// descriptor it was asked of, with the numbers it was asked with.
pub proof fn law_the_kernel_is_asked_what_was_asked(op: UringDescriptor, source: SourceType, buffer: Option<Buffer>)
    ensures
        op.args matches UringOpDescriptor::PollAdd(events) ==> (asked(op, source, buffer) matches Sqe::PollAdd {
            fd,
            events: for_any,
        } && fd == op.fd && (for_any as int - events as int) % 0x1_0000_0000 == 0),
        op.args matches UringOpDescriptor::PollRemove(id) ==> (asked(op, source, buffer) matches Sqe::PollRemove { target } && target
            as int == id as int),
        op.args matches UringOpDescriptor::Cancel(id) ==> (asked(op, source, buffer) matches Sqe::AsyncCancel { target } && target
            as int == id as int),
        op.args matches UringOpDescriptor::Open(path, flags, mode) ==> (asked(op, source, buffer) matches Sqe::OpenAt {
            fd,
            path: at,
            flags: with,
            mode: bits,
        } && fd == op.fd && at as int == path as int && with as int == flags as int && bits as int == mode as int),
        op.args is Close ==> (asked(op, source, buffer) matches Sqe::Close { fd } && fd == op.fd),
        op.args is FDataSync ==> (asked(op, source, buffer) matches Sqe::Fsync { fd, datasync } && fd == op.fd
            && datasync),
        op.args matches UringOpDescriptor::Connect(addr, addrlen) ==> (asked(op, source, buffer) matches Sqe::Connect {
            fd,
            addr: to,
            addrlen: of,
        } && fd == op.fd && to as int == addr as int && of as int == addrlen as int),
        op.args matches UringOpDescriptor::LinkTimeout(time) ==> (asked(op, source, buffer) matches Sqe::LinkTimeout {
            timespec,
        } && timespec as int == time as int),
        op.args matches UringOpDescriptor::Accept(addr, addrlen) ==> (asked(op, source, buffer) matches Sqe::Accept {
            fd,
            addr: to,
            addrlen_at,
            flags,
        } && fd == op.fd && to as int == addr as int && addrlen_at as int == addrlen as int && flags as int == 0x8_0000),
        op.args matches UringOpDescriptor::Fallocate(from, bytes, mode) ==> (asked(op, source, buffer) matches Sqe::Fallocate {
            fd,
            size,
            offset,
            falloc_mode,
        } && fd == op.fd && size as int == bytes as int && offset as int == from as int && falloc_mode as int == mode
            as int),
        op.args matches UringOpDescriptor::StatxFd(of, to) ==> (asked(op, source, buffer) matches Sqe::Statx {
            fd,
            buf,
            flags,
            mask,
        } && fd as int == of as int && buf as int == to as int && flags as int == 0x1800 && mask as int == 0x7ff),
        op.args matches UringOpDescriptor::Timeout(time, events) ==> (asked(op, source, buffer) matches Sqe::Timeout {
            timespec,
            count,
        } && timespec as int == time as int && count as int == events as int),
        op.args matches UringOpDescriptor::TimeoutRemove(id) ==> (asked(op, source, buffer) matches Sqe::TimeoutRemove {
            target,
        } && target as int == id as int),
        op.args is Nop ==> asked(op, source, buffer) is Nop,
{
    if let UringOpDescriptor::PollAdd(events) = op.args {
        lemma_fields(0, 0, events, 0);
    }
}

/// A completion finds its request: an entry carries the request's own number,
/// whatever it is, and only an entry that stops another request carries none.
/// Nothing else of a request but the memory it was given is touched.
pub proof fn law_completions_find_their_request(op: UringDescriptor, source: SourceType, buffer: Option<Buffer>)
    ensures
        !(op.args is PollRemove) && !(op.args is Cancel) ==> carried(op) as int == op.user_data as int,
        op.args is PollRemove || op.args is Cancel ==> carried(op) as int == 0,
        !(op.args is Read) && !(op.args is ReadFixed) && !(op.args is SockRecv) && !(op.args is SockRecvMsg)
            ==> attached(op, source, buffer) == source,
{
}

/// Memory is asked for exactly where the kernel is going to fill it, and as
/// much as it is going to fill.
pub proof fn law_memory_is_asked_for(args: UringOpDescriptor, source: SourceType)
    ensures
        match args.buffer_request(source) {
            BufferRequest::Nothing => !(args is ReadFixed) && !(args is SockRecv) && !(args is SockRecvMsg) && (
            args is Read ==> source is ForeignNotifier),
            BufferRequest::Ring(size) => (args matches UringOpDescriptor::ReadFixed(_, len) && size as int == len as int)
                || (args matches UringOpDescriptor::Read(_, len) && size as int == len as int && !(source is ForeignNotifier)),
            BufferRequest::Heap(size) => (args matches UringOpDescriptor::SockRecv(len, _) && size as int == len as int)
                || (args matches UringOpDescriptor::SockRecvMsg(len, _) && size as int == len as int),
        },
{
}

/// The request at a place.
pub fn lookup(sources: &SourceMap, id: usize) -> (source: InnerSource)
    requires
        sources@.contains_key(id),
    ensures
        source == sources@[id],
{
    match sources.get(id) {
        Some(source) => *source,
        None => vstd::pervasive::unreached(),
    }
}

/// Attaching memory to a request leaves every request in its place and every
/// other one untouched.
pub proof fn law_filling_moves_no_request(
    op: UringDescriptor,
    sources: Map<usize, InnerSource>,
    buffer: Option<Buffer>,
)
    requires
        op.args.needs_source() ==> 0 < op.user_data <= usize::MAX && sources.contains_key(
            (op.user_data - 1) as usize,
        ),
    ensures
        sources_after(op, sources, buffer).dom() == sources.dom(),
        forall|id: usize| #[trigger]
            sources.contains_key(id) ==> {
                let after = sources_after(op, sources, buffer)[id];
                &&& after == InnerSource { source_type: after.source_type, ..sources[id] }
                &&& user_data_of(id) != op.user_data ==> after == sources[id]
                &&& user_data_of(id) == op.user_data && op.args.needs_source() ==> after.source_type == attached(
                    op,
                    sources[id].source_type,
                    buffer,
                )
            },
{
    assert(sources_after(op, sources, buffer).dom() =~= sources.dom());
}

} // verus!
