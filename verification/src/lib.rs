//! Verified core of a thread-per-core runtime: its timers, its task and
//! initialisation state machines, and the decisions its reactor takes around
//! the kernel's submission and completion rings.

pub mod executor;
pub mod future;
pub mod io;
pub mod macros;
pub mod sync;
pub mod sys;
pub mod task;
pub mod timer;
