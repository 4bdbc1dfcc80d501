//! Threads of a process.

use crate::trap::TrapContext;
use vstd::prelude::*;

verus! {

/// User resources of a thread.
#[derive(Clone, Copy, Debug, PartialEq, Eq, Structural)]
pub struct TaskUserRes {
    /// number of the thread in its process
    pub tid: usize,
    /// where the user stacks of the process begin
    pub ustack_base: usize,
    /// top of the thread's user stack
    pub ustack_top: usize,
}

/// A thread.
#[derive(Clone, Copy)]
pub struct TaskControlBlock {
    /// user resources; none once the thread has exited
    pub res: Option<TaskUserRes>,
    /// top of the kernel stack
    pub kstack_top: usize,
    /// physical page of the trap context
    pub trap_cx_ppn: usize,
    /// what the thread enters user mode with
    pub trap_cx: TrapContext,
}

/// A thread by the process that it belongs to and its number there.
#[derive(Clone, Copy, Debug, PartialEq, Eq, Structural)]
pub struct TaskRef {
    pub pid: usize,
    pub tid: usize,
}

/// The memory that was set aside for a thread.
#[derive(Clone, Copy, Debug, PartialEq, Eq, Structural)]
pub struct ThreadPlace {
    /// top of the user stack
    pub ustack_top: usize,
    /// top of the kernel stack
    pub kstack_top: usize,
    /// physical page of the trap context
    pub trap_cx_ppn: usize,
}

/// How a trap gets back into the kernel.
#[derive(Clone, Copy, Debug, PartialEq, Eq, Structural)]
pub struct KernelEntry {
    /// root of the kernel's address space
    pub satp: usize,
    /// address of the trap handler
    pub trap_handler: usize,
}

} // verus!
