//! Requests on their way through the rings.
//!
//! Buffers, paths, addresses and the other memory a request hands to the
//! kernel belong to whoever made the request. Here they are the numbers the
//! kernel is given for them.

use super::free_list::FreeList;
use crate::timer::time::Instant;
use vstd::prelude::*;

verus! {

/// Whether a file is read past the page cache.
#[derive(Debug, Clone, Copy, PartialEq, Eq, Structural)]
pub enum DirectIo {
    /// It is.
    Enabled,
    /// It is not.
    Disabled,
}

/// Whether completions of a file's requests can be polled for.
#[derive(Debug, Clone, Copy, PartialEq, Eq, Structural)]
pub enum PollableStatus {
    /// They can.
    Pollable,
    /// They cannot.
    NonPollable(DirectIo),
}

/// A buffer.
#[derive(Debug, Clone, Copy, PartialEq, Eq, Structural)]
pub struct Buffer {
    /// Where it begins.
    pub addr: u64,
    /// How long it is.
    pub len: usize,
    /// The number the kernel knows the memory it lies in by, if it was
    /// registered.
    pub uring_buffer_id: Option<u32>,
}

/// A buffer of a file request.
#[derive(Debug, Clone, Copy, PartialEq, Eq, Structural)]
pub enum IoBuffer {
    /// To be filled.
    DmaSink(Buffer),
    /// To be written, aligned.
    DmaSource(Buffer),
    /// To be written, however it lies.
    Buffered(Buffer),
}

/// One piece of a message.
#[derive(Debug, Clone, Copy, PartialEq, Eq, Structural)]
pub struct Iovec {
    /// Where this record itself lies.
    pub addr: u64,
    /// Where the piece begins.
    pub base: u64,
    /// How long it is.
    pub len: usize,
}

/// A message and whom it is from or for.
#[derive(Debug, Clone, Copy, PartialEq, Eq, Structural)]
pub struct Msghdr {
    /// Where this record itself lies.
    pub addr: u64,
    /// The address of the peer.
    pub name: u64,
    /// How long that is.
    pub namelen: u32,
    /// The first piece.
    pub iov: u64,
    /// How many pieces there are.
    pub iovlen: usize,
}

/// What a request is for, with what it needs.
#[derive(Debug, Clone, Copy, PartialEq, Eq, Structural)]
pub enum SourceType {
    /// Write a file.
    Write(PollableStatus, IoBuffer),
    /// Read a file, into a buffer once there is one.
    Read(PollableStatus, Option<IoBuffer>),
    /// Send.
    SockSend(Buffer),
    /// Receive, into a buffer once there is one.
    SockRecv(Option<Buffer>),
    /// Receive a message, into a buffer once there is one, with room for the
    /// peer's address at the number given.
    SockRecvMsg(Option<Buffer>, Iovec, Msghdr, u64),
    /// Send a message to the address at the number given, of the length given.
    SockSendMsg(Buffer, Iovec, Msghdr, u64, u32),
    /// Open the path at the number given.
    Open(u64),
    /// Wait for a wake from another thread, whose count lands at the number
    /// given; and whether the wait is installed.
    ForeignNotifier(u64, bool),
    /// Wait for the time at the number given to pass, or for that many
    /// completions.
    Timeout(u64, u32),
    /// Connect to the address at the number given, of the length given.
    Connect(u64, u32),
    /// Accept a peer, whose address and its length land at the numbers given.
    Accept(u64, u64),
    /// Wait on another ring.
    LinkRings,
    /// Read a file's attributes to the number given.
    Statx(u64),
    /// Rename the path at the one number to the path at the other.
    Rename(u64, u64),
    /// Make a directory of the path at the number given.
    CreateDir(u64),
    /// Remove the path at the number given.
    Remove(u64),
    /// Copy from a descriptor, from an offset on, a length.
    CopyFileRange(i32, u64, usize),
    /// Call a function that blocks.
    BlockingFn,
    /// Anything that needs no memory: sync, allocate, close, poll.
    Plain,
    /// Not a request any more.
    Invalid,
}

/// How far a request got.
#[derive(Debug, Clone, Copy, PartialEq, Eq, Structural)]
pub enum EnqueuedStatus {
    /// In a submission queue.
    Enqueued,
    /// In a submission queue, and nobody wants it any more.
    Canceled,
    /// Handed to the kernel.
    Dispatched,
}

/// Where a request is.
#[derive(Debug, Clone, Copy, PartialEq, Eq, Structural)]
pub struct EnqueuedSource {
    /// Its place among the requests under way.
    pub id: usize,
    /// How far it got.
    pub status: EnqueuedStatus,
}

/// Who waits for a request, what it came to, and when it passed by.
#[derive(Debug, Clone, Copy, PartialEq, Eq)]
pub struct Wakers {
    /// What it came to: a count or an error number.
    pub result: Option<Result<usize, i32>>,
    /// How many wait for it.
    pub waiters: usize,
    /// When it was queued.
    pub queued_at: Option<Instant>,
    /// When it was handed to the kernel.
    pub submitted_at: Option<Instant>,
    /// When the kernel was done with it.
    pub fulfilled_at: Option<Instant>,
}

/// Who keeps count of a request, by the numbers the collectors go by. Each is
/// told what the request came to, and decides what that counts for.
#[derive(Debug, Clone, Copy, PartialEq, Eq, Structural)]
pub struct StatsCollection {
    /// Is told that it was fulfilled.
    pub fulfilled: Option<u64>,
    /// Is told how often its result served another waiter.
    pub reused: Option<u64>,
}

/// A request.
#[derive(Debug, Clone, Copy, PartialEq, Eq)]
pub struct InnerSource {
    /// The descriptor it is about.
    pub fd: i32,
    /// What it is for.
    pub source_type: SourceType,
    /// Where it is, while it is under way.
    pub enqueued: Option<EnqueuedSource>,
    /// The time at this number limits it.
    pub timeout: Option<u64>,
    /// Who waits for it.
    pub wakers: Wakers,
    /// What to keep count of for it.
    pub stats_collection: Option<StatsCollection>,
    /// The task queue it was made from.
    pub task_queue: Option<usize>,
}

/// The requests under way.
pub type SourceMap = FreeList<InnerSource>;

/// Every request under way knows its place, and no other is handed out.
pub open spec fn all_enqueued(sources: Map<usize, InnerSource>) -> bool {
    forall|id: usize| #[trigger]
        sources.contains_key(id) ==> id < usize::MAX && (sources[id].enqueued matches Some(enqueued) && enqueued.id == id)
}

/// The number a completion carries back for the request at a place. Zero
/// stands for no request.
pub open spec fn user_data_of(id: usize) -> int {
    id + 1
}

/// The place a completion's number names.
pub fn from_user_data(user_data: u64) -> (id: usize)
    requires
        0 < user_data <= usize::MAX,
    ensures
        user_data == user_data_of(id),
{
    (user_data - 1) as usize
}

/// The number a completion carries back for the request at a place.
pub fn to_user_data(id: usize) -> (user_data: u64)
    requires
        id < u64::MAX,
    ensures
        user_data == user_data_of(id),
        user_data > 0,
{
    id as u64 + 1
}

/// A place and the number that stands for it name each other, and no number
/// stands for two places.
pub proof fn law_user_data_identifies(a: usize, b: usize)
    ensures
        user_data_of(a) > 0,
        user_data_of(a) == user_data_of(b) <==> a == b,
{
}

/// Notes a request as queued and gives it a place.
pub fn add_source(sources: &mut SourceMap, source: InnerSource) -> (id: usize)
    requires
        old(sources).wf(),
        all_enqueued(old(sources)@),
    ensures
        final(sources).wf(),
        !old(sources)@.contains_key(id),
        id < usize::MAX,
        all_enqueued(final(sources)@),
        final(sources)@ == old(sources)@.insert(
            id,
            (InnerSource {
                enqueued: Some(EnqueuedSource { id, status: EnqueuedStatus::Enqueued }),
                ..source
            }),
        ),
{
    let id: usize = sources.allocate(source);
    let mut queued: InnerSource = source;
    queued.enqueued = Some(EnqueuedSource { id, status: EnqueuedStatus::Enqueued });
    sources.replace(id, queued);
    proof {
        assert(sources@ =~= old(sources)@.insert(id, queued));
    }
    id
}

/// Takes a request that is no longer under way.
pub fn consume_source(sources: &mut SourceMap, id: usize) -> (source: InnerSource)
    requires
        old(sources).wf(),
        old(sources)@.contains_key(id),
    ensures
        final(sources).wf(),
        final(sources)@ == old(sources)@.remove(id),
        all_enqueued(old(sources)@) ==> all_enqueued(final(sources)@),
        source == (InnerSource { enqueued: None, ..old(sources)@[id] }),
{
    let mut source: InnerSource = sources.deallocate(id);
    source.enqueued = None;
    source
}

} // verus!
