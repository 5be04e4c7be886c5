//! What a reactor is set up with: the memory it may lock, the arena it
//! registers with its rings, and the buffers it hands out of that.

use super::ring::RingKind;
use super::source::Buffer;
use crate::task::layout::{aligned_up, lemma_aligned_up};
use vstd::prelude::*;

verus! {

/// The least amount of memory a process has to be allowed to lock.
pub const MIN_MEMLOCK_LIMIT: u64 = 524_288;

/// A page.
pub const PAGE_SIZE: usize = 4096;

/// The least arena.
pub const MIN_IO_MEMORY: usize = 65536;

/// The process may not lock enough memory.
#[derive(Debug, Clone, Copy, PartialEq, Eq, Structural)]
pub struct MemLockLimit {
    /// How much it may.
    pub limit: u64,
    /// How much it has to.
    pub min: u64,
}

/// Whether the process may lock enough memory.
pub fn check_memlock_limit(limit: u64) -> (result: Result<(), MemLockLimit>)
    ensures
        result is Err <==> limit < MIN_MEMLOCK_LIMIT,
        result is Ok <==> limit >= 512 * 1024,
        result matches Err(err) ==> err == (MemLockLimit { limit, min: MIN_MEMLOCK_LIMIT }),
{
    if limit < MIN_MEMLOCK_LIMIT {
        Err(MemLockLimit { limit, min: MIN_MEMLOCK_LIMIT })
    } else {
        Ok(())
    }
}

/// The least multiple of `align` that is no less than `v`.
pub fn align_up(v: usize, align: usize) -> (aligned: usize)
    requires
        align > 0,
        v + align - 1 <= usize::MAX,
    ensures
        aligned == aligned_up(v as int, align as int),
        aligned % align == 0,
        v <= aligned < v + align,
{
    proof {
        lemma_aligned_up(v as int, align as int);
    }
    (v + (align - 1)) / align * align
}

/// How large the arena is: what was asked for, in whole pages, and always at
/// least some small amount.
pub fn arena_size(io_memory: usize) -> (size: usize)
    requires
        io_memory + PAGE_SIZE - 1 <= usize::MAX,
    ensures
        size == if aligned_up(io_memory as int, PAGE_SIZE as int) >= MIN_IO_MEMORY {
            aligned_up(io_memory as int, PAGE_SIZE as int)
        } else {
            MIN_IO_MEMORY as int
        },
        size >= io_memory,
        size >= 64 * 1024,
        size < io_memory + 4096 || size == 64 * 1024,
        size % PAGE_SIZE == 0,
        size % 4096 == 0,
{
    let size: usize = align_up(io_memory, PAGE_SIZE);
    if size >= MIN_IO_MEMORY {
        size
    } else {
        MIN_IO_MEMORY
    }
}

/// What is next in registering the arena with the rings.
#[derive(Debug, Clone, Copy, PartialEq, Eq, Structural)]
pub enum RegisterStep {
    /// Register it with this ring.
    Register(RingKind),
    /// Take it back from this ring.
    Unregister(RingKind),
    /// All is done. The number the rings know the arena by, if they do.
    Finished(Option<u32>),
}

/// The arena on its way to being registered with all three rings, or with
/// none.
#[derive(Debug, Clone, Copy, PartialEq, Eq, Structural)]
pub struct Registration {
    /// The main ring has it.
    pub main: bool,
    /// The poll ring has it.
    pub poll: bool,
    /// The latency ring has it.
    pub latency: bool,
    /// What is next.
    pub step: RegisterStep,
}

/// The step that follows: the poll ring after the main ring, the latency ring
/// after the poll ring. Where one fails, the rings that have the arena give it
/// back.
pub open spec fn next_registration(registration: Registration, ok: bool) -> RegisterStep {
    match (registration.step, ok) {
        (RegisterStep::Register(RingKind::Main), true) => RegisterStep::Register(RingKind::Poll),
        (RegisterStep::Register(RingKind::Main), false) => RegisterStep::Finished(None),
        (RegisterStep::Register(RingKind::Poll), true) => RegisterStep::Register(RingKind::Latency),
        (RegisterStep::Register(RingKind::Poll), false) => RegisterStep::Unregister(RingKind::Main),
        (RegisterStep::Register(RingKind::Latency), true) => RegisterStep::Finished(Some(0)),
        (RegisterStep::Register(RingKind::Latency), false) => RegisterStep::Unregister(RingKind::Poll),
        (RegisterStep::Unregister(RingKind::Poll), _) => RegisterStep::Unregister(RingKind::Main),
        _ => RegisterStep::Finished(None),
    }
}

impl Registration {
    /// A ring is told to take the arena only where it does not have it, and to
    /// give it back only where it has it. In the end all have it and it has a
    /// number, or none has it and it has none.
    pub open spec fn wf(self) -> bool {
        match self.step {
            RegisterStep::Register(RingKind::Main) => !self.main && !self.poll && !self.latency,
            RegisterStep::Register(RingKind::Poll) => self.main && !self.poll && !self.latency,
            RegisterStep::Register(RingKind::Latency) => self.main && self.poll && !self.latency,
            RegisterStep::Unregister(RingKind::Main) => self.main && !self.poll && !self.latency,
            RegisterStep::Unregister(RingKind::Poll) => self.main && self.poll && !self.latency,
            RegisterStep::Unregister(RingKind::Latency) => false,
            RegisterStep::Finished(Some(id)) => id == 0 && self.main && self.poll && self.latency,
            RegisterStep::Finished(None) => !self.main && !self.poll && !self.latency,
        }
    }

    /// How far it is from the end, at most.
    pub open spec fn distance(self) -> nat {
        match self.step {
            RegisterStep::Register(RingKind::Main) => 5,
            RegisterStep::Register(RingKind::Poll) => 4,
            RegisterStep::Register(RingKind::Latency) => 3,
            RegisterStep::Unregister(RingKind::Poll) => 2,
            RegisterStep::Unregister(_) => 1,
            RegisterStep::Finished(_) => 0,
        }
    }

    /// Which rings have the arena once the step was taken.
    pub open spec fn has(self, kind: RingKind) -> bool {
        match kind {
            RingKind::Main => self.main,
            RingKind::Poll => self.poll,
            RingKind::Latency => self.latency,
        }
    }

    /// No ring has the arena yet.
    pub fn new() -> (registration: Self)
        ensures
            registration.wf(),
            registration == registering(),
    {
        Registration { main: false, poll: false, latency: false, step: RegisterStep::Register(RingKind::Main) }
    }

    /// Takes note of whether the step succeeded and says which is next: the
    /// poll ring after the main ring, the latency ring after the poll ring.
    /// Where one fails, the rings that have the arena give it back.
    pub fn advance(&mut self, ok: bool)
        requires
            old(self).wf(),
            !(old(self).step is Finished),
            old(self).step is Unregister ==> ok,
        ensures
            final(self).wf(),
            final(self).distance() < old(self).distance(),
            forall|kind: RingKind| #[trigger]
                final(self).has(kind) == match old(self).step {
                    RegisterStep::Register(at) => old(self).has(kind) || ok && kind == at,
                    RegisterStep::Unregister(at) => old(self).has(kind) && kind != at,
                    RegisterStep::Finished(_) => old(self).has(kind),
                },
            final(self).step == next_registration(*old(self), ok),
    {
        match self.step {
            RegisterStep::Register(RingKind::Main) => {
                if ok {
                    self.main = true;
                    self.step = RegisterStep::Register(RingKind::Poll);
                } else {
                    self.step = RegisterStep::Finished(None);
                }
            },
            RegisterStep::Register(RingKind::Poll) => {
                if ok {
                    self.poll = true;
                    self.step = RegisterStep::Register(RingKind::Latency);
                } else {
                    self.step = RegisterStep::Unregister(RingKind::Main);
                }
            },
            RegisterStep::Register(RingKind::Latency) => {
                if ok {
                    self.latency = true;
                    self.step = RegisterStep::Finished(Some(0));
                } else {
                    self.step = RegisterStep::Unregister(RingKind::Poll);
                }
            },
            RegisterStep::Unregister(RingKind::Poll) => {
                self.poll = false;
                self.step = RegisterStep::Unregister(RingKind::Main);
            },
            _ => {
                self.main = false;
                self.step = RegisterStep::Finished(None);
            },
        }
    }
}

/// In the end all three rings have the arena and it has a number, or none has
/// it and it has none, whichever of them refused it on the way.
pub proof fn law_all_rings_or_none(registration: Registration)
    requires
        registration.wf(),
        registration.step is Finished,
    ensures
        registration.step->Finished_0 is Some <==> forall|kind: RingKind| #[trigger] registration.has(kind),
        registration.step->Finished_0 is None <==> forall|kind: RingKind| !#[trigger] registration.has(kind),
{
    assert(registration.has(RingKind::Main) == registration.main);
    assert(registration.has(RingKind::Poll) == registration.poll);
    assert(registration.has(RingKind::Latency) == registration.latency);
}

/// Why a reactor cannot be set up.
#[derive(Debug, Clone, Copy, PartialEq, Eq, Structural)]
pub enum SetupError {
    /// The process may not lock enough memory.
    MemLockLimit(MemLockLimit),
    /// The kernel refused, with this error number.
    Os(Option<i32>),
}

/// What is next in setting a reactor up.
#[derive(Debug, Clone, Copy, PartialEq, Eq)]
pub enum SetupStep {
    /// Find out how much memory the process may lock.
    ReadLimit,
    /// Allocate an arena of this size.
    Allocate(usize),
    /// Make this ring.
    Build(RingKind),
    /// Register the arena with the rings.
    Register(Registration),
    /// Wait for wakes from other threads. The number the rings know the arena
    /// by, if they do.
    InstallEventfd(Option<u32>),
    /// All is done, and the rings know the arena by this number, if they do;
    /// or the reactor cannot be set up.
    Finished(Result<Option<u32>, SetupError>),
}

/// What came of a step.
#[derive(Debug, Clone, Copy, PartialEq, Eq)]
pub enum SetupEvent {
    /// It was done.
    Done,
    /// The process may lock this much, or that could not be found out.
    Limit(Result<u64, Option<i32>>),
    /// The ring was made or refused.
    Built(Result<(), Option<i32>>),
    /// Whether the ring took the arena or gave it back.
    Registered(bool),
}

/// A reactor on its way to being set up.
#[derive(Debug, Clone, Copy, PartialEq, Eq)]
pub struct Setup {
    /// How much memory was asked for.
    pub io_memory: usize,
    /// What is next.
    pub step: SetupStep,
}

/// The arena is registered once the rings are there.
pub open spec fn registering() -> Registration {
    Registration { main: false, poll: false, latency: false, step: RegisterStep::Register(RingKind::Main) }
}

impl Setup {
    /// The size of the arena can be told, and registering it is consistent and
    /// not over.
    pub open spec fn wf(self) -> bool {
        &&& self.io_memory + PAGE_SIZE - 1 <= usize::MAX
        &&& self.step matches SetupStep::Register(registration) ==> registration.wf() && !(registration.step is Finished)
    }

    /// The event is an answer to the step. A ring that has the arena gives it
    /// back when told to.
    pub open spec fn answered_by(self, event: SetupEvent) -> bool {
        match self.step {
            SetupStep::ReadLimit => event is Limit,
            SetupStep::Allocate(_) => event is Done,
            SetupStep::Build(_) => event is Built,
            SetupStep::Register(registration) => event matches SetupEvent::Registered(ok) && (registration.step is Unregister
                ==> ok),
            SetupStep::InstallEventfd(_) => event is Done,
            SetupStep::Finished(_) => false,
        }
    }

    /// How far it is from the end, at most.
    pub open spec fn distance(self) -> nat {
        match self.step {
            SetupStep::ReadLimit => 12,
            SetupStep::Allocate(_) => 11,
            SetupStep::Build(RingKind::Main) => 10,
            SetupStep::Build(RingKind::Poll) => 9,
            SetupStep::Build(RingKind::Latency) => 8,
            SetupStep::Register(registration) => 2 + registration.distance(),
            SetupStep::InstallEventfd(_) => 1,
            SetupStep::Finished(_) => 0,
        }
    }

    /// Begins to set a reactor up.
    pub fn new(io_memory: usize) -> (setup: Self)
        requires
            io_memory + PAGE_SIZE - 1 <= usize::MAX,
        ensures
            setup.wf(),
            setup == (Setup { io_memory, step: SetupStep::ReadLimit }),
    {
        Setup { io_memory, step: SetupStep::ReadLimit }
    }

    /// Takes note of what came of the step and says which is next: the limit,
    /// the arena, the main ring, the poll ring, the latency ring, registering
    /// the arena, and waiting for wakes. A limit that is too low and a ring
    /// that is refused end it; an arena that is not registered does not.
    pub fn advance(&mut self, event: SetupEvent)
        requires
            old(self).wf(),
            old(self).answered_by(event),
        ensures
            final(self).wf(),
            final(self).io_memory == old(self).io_memory,
            final(self).distance() < old(self).distance(),
            match (old(self).step, event) {
                (SetupStep::ReadLimit, SetupEvent::Limit(Err(errno))) => final(self).step == SetupStep::Finished(
                    Err(SetupError::Os(errno)),
                ),
                (SetupStep::ReadLimit, SetupEvent::Limit(Ok(limit))) => if limit < MIN_MEMLOCK_LIMIT {
                    final(self).step == SetupStep::Finished(
                        Err(SetupError::MemLockLimit(MemLockLimit { limit, min: MIN_MEMLOCK_LIMIT })),
                    )
                } else {
                    final(self).step matches SetupStep::Allocate(size) && size == if aligned_up(
                        old(self).io_memory as int,
                        PAGE_SIZE as int,
                    ) >= MIN_IO_MEMORY {
                        aligned_up(old(self).io_memory as int, PAGE_SIZE as int)
                    } else {
                        MIN_IO_MEMORY as int
                    }
                },
                (SetupStep::Allocate(_), _) => final(self).step == SetupStep::Build(RingKind::Main),
                (SetupStep::Build(_), SetupEvent::Built(Err(errno))) => final(self).step == SetupStep::Finished(
                    Err(SetupError::Os(errno)),
                ),
                (SetupStep::Build(RingKind::Main), _) => final(self).step == SetupStep::Build(RingKind::Poll),
                (SetupStep::Build(RingKind::Poll), _) => final(self).step == SetupStep::Build(RingKind::Latency),
                (SetupStep::Build(RingKind::Latency), _) => final(self).step == SetupStep::Register(registering()),
                (SetupStep::Register(registration), SetupEvent::Registered(ok)) => match next_registration(
                    registration,
                    ok,
                ) {
                    RegisterStep::Finished(id) => final(self).step == SetupStep::InstallEventfd(id),
                    step => final(self).step matches SetupStep::Register(next) && next.step == step,
                },
                (SetupStep::InstallEventfd(id), _) => final(self).step == SetupStep::Finished(Ok(id)),
                _ => true,
            },
    {
        self.step = match self.step {
            SetupStep::ReadLimit => match event {
                SetupEvent::Limit(Ok(limit)) => match check_memlock_limit(limit) {
                    Ok(()) => SetupStep::Allocate(arena_size(self.io_memory)),
                    Err(err) => SetupStep::Finished(Err(SetupError::MemLockLimit(err))),
                },
                SetupEvent::Limit(Err(errno)) => SetupStep::Finished(Err(SetupError::Os(errno))),
                _ => vstd::pervasive::unreached(),
            },
            SetupStep::Allocate(_) => SetupStep::Build(RingKind::Main),
            SetupStep::Build(kind) => match event {
                SetupEvent::Built(Err(errno)) => SetupStep::Finished(Err(SetupError::Os(errno))),
                _ => match kind {
                    RingKind::Main => SetupStep::Build(RingKind::Poll),
                    RingKind::Poll => SetupStep::Build(RingKind::Latency),
                    RingKind::Latency => SetupStep::Register(Registration::new()),
                },
            },
            SetupStep::Register(registration) => match event {
                SetupEvent::Registered(ok) => {
                    let mut next: Registration = registration;
                    next.advance(ok);
                    match next.step {
                        RegisterStep::Finished(id) => SetupStep::InstallEventfd(id),
                        _ => SetupStep::Register(next),
                    }
                },
                _ => vstd::pervasive::unreached(),
            },
            SetupStep::InstallEventfd(id) => SetupStep::Finished(Ok(id)),
            SetupStep::Finished(result) => SetupStep::Finished(result),
        };
    }
}

/// Which memory a buffer lies in.
///
/// The arena gives an address, or zero where it has no room left. Then any
/// other memory serves, as long as there is any: the kernel knows such a
/// buffer by no number.
pub fn new_buffer(arena: u64, other: Option<u64>, size: usize, uring_buffer_id: Option<u32>) -> (buffer: Option<Buffer>)
    ensures
        buffer == if arena != 0 {
            Some(Buffer { addr: arena, len: size, uring_buffer_id })
        } else {
            match other {
                Some(addr) => Some(Buffer { addr, len: size, uring_buffer_id: None }),
                None => None,
            }
        },
        buffer is None <==> arena == 0 && other is None,
        buffer matches Some(buffer) ==> buffer.len as int == size as int && (arena != 0 ==> buffer.addr as int == arena as int)
            && (arena == 0 ==> Some(buffer.addr) == other && buffer.uring_buffer_id is None),
{
    if arena != 0 {
        return Some(Buffer { addr: arena, len: size, uring_buffer_id });
    }
    match other {
        Some(addr) => Some(Buffer { addr, len: size, uring_buffer_id: None }),
        None => None,
    }
}

/// A ring that takes the arena is never asked again, and one that refuses it
/// ends the asking: from there on the arena is only given back. What was given
/// back is not asked for again either.
pub proof fn law_a_refusal_ends_the_asking(registration: Registration, ok: bool)
    requires
        registration.wf(),
        !(registration.step is Finished),
        registration.step is Unregister ==> ok,
    ensures
        ({
            let next = next_registration(registration, ok);
            &&& registration.step is Unregister || !ok ==> !(next is Register) && next != RegisterStep::Finished(Some(0))
            &&& next matches RegisterStep::Register(kind) ==> !registration.has(kind) && RegisterStep::Register(kind)
                != registration.step
            &&& next matches RegisterStep::Unregister(kind) ==> registration.has(kind) && RegisterStep::Unregister(kind)
                != registration.step
            &&& next matches RegisterStep::Finished(Some(_)) ==> ok && registration.main && registration.poll
            &&& next == RegisterStep::Finished(None) ==> !registration.poll && !registration.latency
        }),
{
}

} // verus!
