//! Every request that can be made of the reactor.

use super::reactor::Reactor;
use super::requests::{
    accept_op, addressed, connect_op, open_op, send_op, sendmsg_op, statx_op, write_buffered_op, write_dma_op,
};
use super::source::{DirectIo, InnerSource, PollableStatus};
use super::sqe::UringOpDescriptor;
use crate::timer::time::Instant;
use vstd::prelude::*;

verus! {

impl Reactor {
    /// Writes an aligned buffer from `pos` on: from registered memory where the
    /// buffer lies in it, unless the file is written through the page cache.
    pub fn write_dma(&mut self, source: InnerSource, pos: u64, now: Instant) -> (id: usize)
        requires
            old(self).wf(),
            source.source_type is Write,
            source.source_type->Write_1 is DmaSource,
        ensures
            final(self).wf(),
            final(self).queued(
                old(self),
                source,
                ({
                    let buf = source.source_type->Write_1->DmaSource_0;
                    if buf.uring_buffer_id is Some && source.source_type->Write_0 != PollableStatus::NonPollable(
                        DirectIo::Disabled,
                    ) {
                        UringOpDescriptor::WriteFixed(buf.addr, buf.len, pos, buf.uring_buffer_id->0)
                    } else {
                        UringOpDescriptor::Write(buf.addr, buf.len, pos)
                    }
                }),
                now,
                id,
            ),
    {
        self.queue_request(source, write_dma_op(&source.source_type, pos), now)
    }

    /// Writes a buffer through the page cache, from `pos` on.
    pub fn write_buffered(&mut self, source: InnerSource, pos: u64, now: Instant) -> (id: usize)
        requires
            old(self).wf(),
            source.source_type is Write,
            source.source_type->Write_0 == PollableStatus::NonPollable(DirectIo::Disabled),
            source.source_type->Write_1 is Buffered,
        ensures
            final(self).wf(),
            final(self).queued(
                old(self),
                source,
                UringOpDescriptor::Write(
                    source.source_type->Write_1->Buffered_0.addr,
                    source.source_type->Write_1->Buffered_0.len,
                    pos,
                ),
                now,
                id,
            ),
    {
        self.queue_request(source, write_buffered_op(&source.source_type, pos), now)
    }

    /// Reads `size` bytes from `pos` on, past the page cache.
    pub fn read_dma(&mut self, source: InnerSource, pos: u64, size: usize, now: Instant) -> (id: usize)
        requires
            old(self).wf(),
            !(source.source_type is Invalid),
        ensures
            final(self).wf(),
            final(self).queued(
                old(self),
                source,
                UringOpDescriptor::ReadFixed(pos, size),
                now,
                id,
            ),
    {
        self.queue_request(source, UringOpDescriptor::ReadFixed(pos, size), now)
    }

    /// Reads `size` bytes from `pos` on, through the page cache.
    pub fn read_buffered(&mut self, source: InnerSource, pos: u64, size: usize, now: Instant) -> (id: usize)
        requires
            old(self).wf(),
            !(source.source_type is Invalid),
        ensures
            final(self).wf(),
            final(self).queued(
                old(self),
                source,
                UringOpDescriptor::Read(pos, size),
                now,
                id,
            ),
    {
        self.queue_request(source, UringOpDescriptor::Read(pos, size), now)
    }

    /// Waits for any of these conditions.
    pub fn poll_ready(&mut self, source: InnerSource, flags: i16, now: Instant) -> (id: usize)
        requires
            old(self).wf(),
            !(source.source_type is Invalid),
        ensures
            final(self).wf(),
            final(self).queued(
                old(self),
                source,
                UringOpDescriptor::PollAdd(flags),
                now,
                id,
            ),
    {
        self.queue_request(source, UringOpDescriptor::PollAdd(flags), now)
    }

    /// Sends a buffer.
    pub fn send(&mut self, source: InnerSource, flags: i32, now: Instant) -> (id: usize)
        requires
            old(self).wf(),
            source.source_type is SockSend,
        ensures
            final(self).wf(),
            final(self).queued(
                old(self),
                source,
                UringOpDescriptor::SockSend(
                    source.source_type->SockSend_0.addr,
                    source.source_type->SockSend_0.len,
                    flags,
                ),
                now,
                id,
            ),
    {
        self.queue_request(source, send_op(&source.source_type, flags), now)
    }

    /// Sends a message, once its record says what it is made of and whom it is
    /// for.
    pub fn sendmsg(&mut self, source: InnerSource, flags: i32, now: Instant) -> (id: usize)
        requires
            old(self).wf(),
            source.source_type is SockSendMsg,
        ensures
            final(self).wf(),
            final(self).queued(
                old(self),
                (InnerSource { source_type: addressed(source.source_type), ..source }),
                UringOpDescriptor::SockSendMsg(source.source_type->SockSendMsg_2.addr, flags),
                now,
                id,
            ),
    {
        let mut source: InnerSource = source;
        let op: UringOpDescriptor = sendmsg_op(&mut source.source_type, flags);
        self.queue_request(source, op, now)
    }

    /// Receives at most `len` bytes.
    pub fn recv(&mut self, source: InnerSource, len: usize, flags: i32, now: Instant) -> (id: usize)
        requires
            old(self).wf(),
            !(source.source_type is Invalid),
        ensures
            final(self).wf(),
            final(self).queued(
                old(self),
                source,
                UringOpDescriptor::SockRecv(len, flags),
                now,
                id,
            ),
    {
        self.queue_request(source, UringOpDescriptor::SockRecv(len, flags), now)
    }

    /// Receives a message of at most `len` bytes.
    pub fn recvmsg(&mut self, source: InnerSource, len: usize, flags: i32, now: Instant) -> (id: usize)
        requires
            old(self).wf(),
            !(source.source_type is Invalid),
        ensures
            final(self).wf(),
            final(self).queued(
                old(self),
                source,
                UringOpDescriptor::SockRecvMsg(len, flags),
                now,
                id,
            ),
    {
        self.queue_request(source, UringOpDescriptor::SockRecvMsg(len, flags), now)
    }

    /// Connects.
    pub fn connect(&mut self, source: InnerSource, now: Instant) -> (id: usize)
        requires
            old(self).wf(),
            source.source_type is Connect,
        ensures
            final(self).wf(),
            final(self).queued(
                old(self),
                source,
                UringOpDescriptor::Connect(source.source_type->Connect_0, source.source_type->Connect_1),
                now,
                id,
            ),
    {
        self.queue_request(source, connect_op(&source.source_type), now)
    }

    /// Accepts a peer.
    pub fn accept(&mut self, source: InnerSource, now: Instant) -> (id: usize)
        requires
            old(self).wf(),
            source.source_type is Accept,
        ensures
            final(self).wf(),
            final(self).queued(
                old(self),
                source,
                UringOpDescriptor::Accept(source.source_type->Accept_0, source.source_type->Accept_1),
                now,
                id,
            ),
    {
        self.queue_request(source, accept_op(&source.source_type), now)
    }

    /// Writes data back.
    pub fn fdatasync(&mut self, source: InnerSource, now: Instant) -> (id: usize)
        requires
            old(self).wf(),
            !(source.source_type is Invalid),
        ensures
            final(self).wf(),
            final(self).queued(
                old(self),
                source,
                UringOpDescriptor::FDataSync,
                now,
                id,
            ),
    {
        self.queue_request(source, UringOpDescriptor::FDataSync, now)
    }

    /// Allocates `size` bytes from `offset` on.
    pub fn fallocate(&mut self, source: InnerSource, offset: u64, size: u64, flags: i32, now: Instant) -> (id: usize)
        requires
            old(self).wf(),
            !(source.source_type is Invalid),
        ensures
            final(self).wf(),
            final(self).queued(
                old(self),
                source,
                UringOpDescriptor::Fallocate(offset, size, flags),
                now,
                id,
            ),
    {
        self.queue_request(source, UringOpDescriptor::Fallocate(offset, size, flags), now)
    }

    /// Closes.
    pub fn close(&mut self, source: InnerSource, now: Instant) -> (id: usize)
        requires
            old(self).wf(),
            !(source.source_type is Invalid),
        ensures
            final(self).wf(),
            final(self).queued(
                old(self),
                source,
                UringOpDescriptor::Close,
                now,
                id,
            ),
    {
        self.queue_request(source, UringOpDescriptor::Close, now)
    }

    /// Reads the attributes of a descriptor.
    pub fn statx_fd(&mut self, source: InnerSource, now: Instant) -> (id: usize)
        requires
            old(self).wf(),
            source.source_type is Statx,
        ensures
            final(self).wf(),
            final(self).queued(
                old(self),
                source,
                UringOpDescriptor::StatxFd(source.fd, source.source_type->Statx_0),
                now,
                id,
            ),
    {
        self.queue_request(source, statx_op(&source), now)
    }

    /// Opens a path.
    pub fn open_at(&mut self, source: InnerSource, flags: i32, mode: u32, now: Instant) -> (id: usize)
        requires
            old(self).wf(),
            source.source_type is Open,
        ensures
            final(self).wf(),
            final(self).queued(
                old(self),
                source,
                UringOpDescriptor::Open(source.source_type->Open_0, flags, mode),
                now,
                id,
            ),
    {
        self.queue_request(source, open_op(&source.source_type, flags, mode), now)
    }

    /// Does nothing, by way of the kernel.
    pub fn nop(&mut self, source: InnerSource, now: Instant) -> (id: usize)
        requires
            old(self).wf(),
            !(source.source_type is Invalid),
        ensures
            final(self).wf(),
            final(self).queued(
                old(self),
                source,
                UringOpDescriptor::Nop,
                now,
                id,
            ),
    {
        self.queue_request(source, UringOpDescriptor::Nop, now)
    }
}

} // verus!
