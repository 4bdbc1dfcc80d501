//! Process management and the system calls of a small RISC-V kernel.
//!
//! The library decides; the machine around it carries out. A system call that needs more than
//! the kernel's own tables (user memory, the disk, a context switch) returns what is to be done
//! as a value.

mod assoc;
pub mod config;
pub mod fs;
pub mod laws;
pub mod mm;
pub mod syscall;
pub mod task;
pub mod trap;
