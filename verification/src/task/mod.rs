//! Processes, threads and the resources that they hold.

pub mod argv;
pub mod banker;
pub mod deadlock;
pub mod id;
pub mod lifecycle;
pub mod manager;
pub mod process;
pub mod thread;
