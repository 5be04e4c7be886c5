//! Primitives that tasks share.

pub mod once_cell;
