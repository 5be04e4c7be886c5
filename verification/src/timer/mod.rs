//! Timers: a hierarchical timing wheel over stable slab handles, and the
//! reactor's view of it.

pub mod reactor_adapter;
pub mod slab;
pub mod time;
pub mod timing_wheel;
pub mod wheel;
