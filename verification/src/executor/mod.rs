//! Task queues, and where a task goes when it becomes runnable.

pub mod context;
pub mod local_context;
pub mod multitask;
