//! Directories: what the kernel hands back for one, and what may be opened
//! under one.

pub mod directory;
