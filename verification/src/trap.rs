//! The registers with which a thread enters user mode.

use vstd::array::{spec_array_fill_for_copy_type, spec_array_update};
use vstd::prelude::*;

verus! {

/// index of the stack pointer among the registers
pub const SP: usize = 2;

/// index of the register of the first argument and of the result
pub const A0: usize = 10;

/// index of the register of the second argument
pub const A1: usize = 11;

/// What is restored when a thread enters user mode, and what it needs to come back.
#[derive(Clone, Copy)]
pub struct TrapContext {
    /// general registers
    pub x: [usize; 32],
    /// where user code goes on
    pub sepc: usize,
    /// root of the kernel's address space
    pub kernel_satp: usize,
    /// top of the thread's kernel stack
    pub kernel_sp: usize,
    /// address of the trap handler
    pub trap_handler: usize,
}

impl TrapContext {
    /// The context with one register changed.
    pub open spec fn with_reg(self, i: int, value: usize) -> TrapContext {
        TrapContext { x: spec_array_update(self.x, i, value), ..self }
    }

    /// The first context of a program: at `entry`, on the stack `sp`, with all other registers
    /// zero.
    pub open spec fn initial(
        entry: usize,
        sp: usize,
        kernel_satp: usize,
        kernel_sp: usize,
        trap_handler: usize,
    ) -> TrapContext {
        TrapContext {
            x: spec_array_fill_for_copy_type::<usize, 32>(0),
            sepc: entry,
            kernel_satp,
            kernel_sp,
            trap_handler,
        }.with_reg(SP as int, sp)
    }

    /// The first context of a program.
    pub fn app_init_context(
        entry: usize,
        sp: usize,
        kernel_satp: usize,
        kernel_sp: usize,
        trap_handler: usize,
    ) -> (result: TrapContext)
        ensures
            result == TrapContext::initial(entry, sp, kernel_satp, kernel_sp, trap_handler),
    {
        let mut cx = TrapContext { x: [0; 32], sepc: entry, kernel_satp, kernel_sp, trap_handler };
        cx.set_reg(SP, sp);
        cx
    }

    /// Changes one register.
    pub fn set_reg(&mut self, i: usize, value: usize)
        requires
            i < 32,
        ensures
            *final(self) == old(self).with_reg(i as int, value),
    {
        self.x[i] = value;
        assert(self.x =~= spec_array_update(old(self).x, i as int, value));
    }
}

/// Changing a register changes that one and no other.
pub proof fn law_registers(cx: TrapContext, i: int, value: usize, k: int)
    requires
        0 <= i < 32,
        0 <= k < 32,
    ensures
        cx.with_reg(i, value).x@[k] == if k == i {
            value
        } else {
            cx.x@[k]
        },
{
    broadcast use vstd::array::group_array_axioms;

}

} // verus!
