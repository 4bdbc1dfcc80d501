//! System calls.

pub mod fs;
pub mod number;
pub mod process;
