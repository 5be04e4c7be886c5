//! What an entry point's attribute asks for, and what becomes of it.

pub mod args;
pub mod entry;
