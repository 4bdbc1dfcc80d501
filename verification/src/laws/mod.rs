//! What holds between the system calls.

pub mod deadlock;
pub mod files;
pub mod memory;
pub mod numbers;
pub mod processes;
pub mod programs;
pub mod tables;
