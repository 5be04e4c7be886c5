//! A hierarchical timing wheel with stable handles.
//!
//! Entries live in a slab; the wheel's slots hold indices into it. Cascading
//! therefore moves four-byte indices between slots rather than whole entries,
//! and a handle stays valid for an entry's whole life however many times it
//! moves, which is what makes cancellation an array index rather than a
//! lookup.
//!
//! The wheel never reads the clock. [`TimingWheel::advance_to`] is told what
//! time it is, so the whole structure is testable without waiting and a caller
//! with its own time source can drive it.
//!
//! What the wheel decides for itself and what the caller decides is spelled out
//! in [`Policy`]: the level layout, which way a deadline between two ticks is
//! rounded, and how much work answering "what is due next" is worth.

pub mod level;
pub mod mask;
pub mod overflow;
pub mod placing;
pub mod policy;
pub mod ticks;
pub mod timing;

pub use self::policy::{CoarseQuery, Millis, Overflow, Policy, Rounding};
pub use self::timing::{Key, TimingWheel};
