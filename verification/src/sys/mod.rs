//! The reactor's side of the kernel's rings: what is asked of the kernel, in
//! what order, and what its answers mean.

pub mod errno;
pub mod free_list;
pub mod operations;
pub mod queue;
pub mod reactor;
pub mod requests;
pub mod ring;
pub mod setup;
pub mod source;
pub mod sqe;
pub mod stats;
pub mod support;
pub mod wait;
