//! The life of a task: who holds it, when its future may be polled or dropped,
//! and when nothing of it is left.

pub mod flow;
pub mod join_handle;
pub mod layout;
pub mod raw;
pub mod registry;
