use os_kernel::fs::file::FileRef;
use os_kernel::mm::memory_set::{MapArea, MapPermission, MemorySet};
use os_kernel::mm::store::{StoreValue, UserStore};
use os_kernel::syscall::process::{
    sbrk_result, sys_exec, sys_exit, sys_fork, sys_getpid, sys_sbrk, sys_set_priority, sys_spawn, sys_waitpid,
    sys_yield, Switch, WaitOutcome, YieldOutcome,
};
use os_kernel::task::argv::{args_fit, push_args};
use os_kernel::task::id::PidHandle;
use os_kernel::task::lifecycle::ElfImage;
use os_kernel::task::manager::Kernel;
use os_kernel::task::process::{ProcessControlBlock, ProcessControlBlockInner};
use os_kernel::task::thread::{KernelEntry, TaskRef, ThreadPlace};

const ENTRY: KernelEntry = KernelEntry { satp: 0x5a, trap_handler: 0x7a };

fn area() -> MapArea {
    MapArea {
        start_vpn: 1,
        end_vpn: 9,
        permission: MapPermission { read: true, write: false, execute: true, user: true },
    }
}

fn image(token: usize) -> ElfImage {
    ElfImage {
        memory_set: MemorySet::new(token, vec![area()]),
        ustack_base: 0x8000,
        entry_point: 0x1000,
    }
}

fn place() -> ThreadPlace {
    ThreadPlace { ustack_top: 0xa000, kstack_top: 0xf000, trap_cx_ppn: 17 }
}

fn booted() -> (Kernel, usize) {
    let mut kernel = Kernel::new();
    let pid = ProcessControlBlock::new(&mut kernel, image(40), place(), ENTRY);
    (kernel, pid)
}

#[test]
fn a_new_process_has_one_ready_thread() {
    let (kernel, pid) = booted();
    assert_eq!(pid, 0);
    assert_eq!(kernel.ready_queue, vec![TaskRef { pid: 0, tid: 0 }]);
    let inner = kernel.processes.get(pid);
    assert!(!inner.is_zombie);
    assert_eq!(inner.parent, None);
    assert_eq!(inner.thread_count(), 1);
    assert_eq!(
        inner.fd_table,
        vec![Some(FileRef::stdin()), Some(FileRef::stdout()), Some(FileRef::stdout())]
    );
    let task = inner.get_task(0);
    assert_eq!(task.res.unwrap().tid, 0);
    assert_eq!(task.res.unwrap().ustack_base, 0x8000);
    assert_eq!(task.trap_cx_ppn, 17);
    assert_eq!(task.trap_cx.sepc, 0x1000);
    assert_eq!(task.trap_cx.x[2], 0xa000);
    assert_eq!(task.trap_cx.x[10], 0);
    assert_eq!(task.trap_cx.kernel_satp, 0x5a);
    assert_eq!(task.trap_cx.kernel_sp, 0xf000);
    assert_eq!(task.trap_cx.trap_handler, 0x7a);
}

#[test]
fn the_next_thread_number_is_one() {
    let (mut kernel, pid) = booted();
    assert_eq!(kernel.processes.get_mut(pid).alloc_tid(), 1);
}

#[test]
fn fork_copies_files_memory_and_registers() {
    let (mut kernel, pid) = booted();
    {
        let inner = kernel.processes.get_mut(pid);
        inner.fd_table[1] = None;
        inner.exit_code = 9;
        let mut task = inner.get_task(0);
        task.trap_cx.set_reg(5, 55);
        task.trap_cx.set_reg(10, 220);
        task.trap_cx.sepc = 0x1234;
        inner.tasks[0] = Some(task);
    }
    assert_eq!(sys_fork(&mut kernel, pid, 41, 0xe000, 18), 1);
    assert_eq!(
        kernel.ready_queue,
        vec![TaskRef { pid: 0, tid: 0 }, TaskRef { pid: 1, tid: 0 }]
    );
    assert_eq!(kernel.processes.get(0).children, vec![1]);
    assert_eq!(kernel.processes.get(0).get_task(0).trap_cx.x[10], 220);
    let child = kernel.processes.get(1);
    assert_eq!(child.parent, Some(0));
    assert_eq!(child.exit_code, 0);
    assert_eq!(child.fd_table[1], None);
    assert_eq!(child.fd_table[0], Some(FileRef::stdin()));
    assert_eq!(child.get_user_token(), 41);
    assert_eq!(child.memory_set.area(0), area());
    let task = child.get_task(0);
    assert_eq!(task.trap_cx.x[5], 55);
    assert_eq!(task.trap_cx.x[10], 0);
    assert_eq!(task.trap_cx.sepc, 0x1234);
    assert_eq!(task.trap_cx.kernel_sp, 0xe000);
    assert_eq!(task.kstack_top, 0xe000);
    assert_eq!(task.trap_cx_ppn, 18);
    assert_eq!(task.res.unwrap().ustack_top, 0xa000);
}

#[test]
fn fork_leaves_the_result_register_to_the_caller() {
    let (mut kernel, pid) = booted();
    let mut task = kernel.processes.get(pid).get_task(0);
    task.trap_cx.set_reg(10, 7);
    kernel.processes.get_mut(pid).tasks[0] = Some(task);
    let child = ProcessControlBlock::fork(&mut kernel, pid, 41, 0xe000, 18);
    assert_eq!(kernel.processes.get(child).get_task(0).trap_cx.x[10], 7);
}

#[test]
fn waiting_without_a_child() {
    let (mut kernel, pid) = booted();
    assert_eq!(sys_waitpid(&mut kernel, pid, -1, 0), WaitOutcome { ret: -1, store: None });
    sys_fork(&mut kernel, pid, 41, 0xe000, 18);
    assert_eq!(sys_waitpid(&mut kernel, pid, 2, 0), WaitOutcome { ret: -1, store: None });
    assert_eq!(sys_waitpid(&mut kernel, 1, -1, 0), WaitOutcome { ret: -1, store: None });
}

#[test]
fn waiting_for_a_running_child() {
    let (mut kernel, pid) = booted();
    sys_fork(&mut kernel, pid, 41, 0xe000, 18);
    assert_eq!(sys_waitpid(&mut kernel, pid, 1, 0), WaitOutcome { ret: -2, store: None });
    assert_eq!(sys_waitpid(&mut kernel, pid, -1, 0), WaitOutcome { ret: -2, store: None });
    assert_eq!(kernel.processes.get(pid).children, vec![1]);
}

#[test]
fn waiting_for_a_child_that_has_exited() {
    let (mut kernel, pid) = booted();
    for token in 41..44 {
        sys_fork(&mut kernel, pid, token, 0xe000, 18);
    }
    for child in [2, 3] {
        let inner = kernel.processes.get_mut(child);
        inner.is_zombie = true;
        inner.exit_code = -(child as i32);
    }
    // a child that runs is not taken for one that has exited
    assert_eq!(sys_waitpid(&mut kernel, pid, 1, 0x300).ret, -2);
    assert_eq!(
        sys_waitpid(&mut kernel, pid, -1, 0x300),
        WaitOutcome {
            ret: 2,
            store: Some(UserStore { token: 40, addr: 0x300, value: StoreValue::Int(-2) }),
        }
    );
    assert_eq!(kernel.processes.get(pid).children, vec![1, 3]);
    assert!(!kernel.processes.contains(2));
    assert_eq!(sys_waitpid(&mut kernel, pid, 2, 0x300).ret, -1);
    assert_eq!(
        sys_waitpid(&mut kernel, pid, 3, 0x308),
        WaitOutcome {
            ret: 3,
            store: Some(UserStore { token: 40, addr: 0x308, value: StoreValue::Int(-3) }),
        }
    );
    assert_eq!(sys_waitpid(&mut kernel, pid, -1, 0x300).ret, -2);
    // the numbers are used again, the last one first
    assert_eq!(sys_fork(&mut kernel, pid, 45, 0xe000, 18), 3);
    assert_eq!(sys_fork(&mut kernel, pid, 46, 0xe000, 18), 2);
    assert_eq!(kernel.processes.get(pid).children, vec![1, 3, 2]);
}

#[test]
fn arguments_on_the_stack() {
    let args = vec!["ab".to_string(), "c".to_string()];
    let frame = push_args(7, 1000, &args);
    let word = |addr, value| UserStore { token: 7, addr, value: StoreValue::Word(value) };
    let byte = |addr, value| UserStore { token: 7, addr, value: StoreValue::Byte(value) };
    assert_eq!(frame.argv_base, 976);
    assert_eq!(frame.user_sp, 968);
    assert_eq!(
        frame.stores,
        vec![
            word(992, 0),
            word(976, 973),
            byte(973, b'a'),
            byte(974, b'b'),
            byte(975, 0),
            word(984, 971),
            byte(971, b'c'),
            byte(972, 0),
        ]
    );
}

#[test]
fn no_arguments_leave_a_null_word() {
    let frame = push_args(7, 1000, &vec![]);
    assert_eq!(frame.argv_base, 992);
    assert_eq!(frame.user_sp, 992);
    assert_eq!(
        frame.stores,
        vec![UserStore { token: 7, addr: 992, value: StoreValue::Word(0) }]
    );
}

#[test]
fn arguments_are_bytes() {
    let frame = push_args(7, 1001, &vec!["é".to_string()]);
    assert_eq!(frame.argv_base, 985);
    assert_eq!(frame.stores[2].value, StoreValue::Byte(0xc3));
    assert_eq!(frame.stores[3].value, StoreValue::Byte(0xa9));
    assert_eq!(frame.stores[4].value, StoreValue::Byte(0));
    assert_eq!(frame.stores.len(), 5);
    assert_eq!(frame.user_sp, 976);
}

#[test]
fn arguments_must_fit() {
    let args = vec!["ab".to_string(), "c".to_string()];
    assert!(args_fit(29, &args));
    assert!(!args_fit(28, &args));
    assert!(args_fit(8, &vec![]));
    assert!(!args_fit(7, &vec![]));
}

#[test]
fn exec_replaces_the_program() {
    let (mut kernel, pid) = booted();
    sys_fork(&mut kernel, pid, 41, 0xe000, 18);
    let program = ElfImage {
        memory_set: MemorySet::new(50, vec![]),
        ustack_base: 0x20000,
        entry_point: 0x3000,
    };
    let args = vec!["run".to_string()];
    let stores =
        ProcessControlBlock::exec(&mut kernel, pid, program, 0x30000, 19, ENTRY, args);
    assert_eq!(stores.len(), 6);
    assert!(stores.iter().all(|s| s.token == 50));
    let inner = kernel.processes.get(pid);
    assert_eq!(inner.children, vec![1]);
    assert_eq!(inner.fd_table.len(), 3);
    assert_eq!(inner.get_user_token(), 50);
    let task = inner.get_task(0);
    assert_eq!(task.res.unwrap().ustack_base, 0x20000);
    assert_eq!(task.res.unwrap().ustack_top, 0x30000);
    assert_eq!(task.trap_cx_ppn, 19);
    assert_eq!(task.kstack_top, 0xf000);
    assert_eq!(task.trap_cx.kernel_sp, 0xf000);
    assert_eq!(task.trap_cx.sepc, 0x3000);
    assert_eq!(task.trap_cx.x[10], 1);
    assert_eq!(task.trap_cx.x[11], 0x30000 - 16);
    assert_eq!(task.trap_cx.x[2], 0x30000 - 24);
    assert_eq!(kernel.ready_queue.len(), 2);
}

#[test]
fn exec_of_an_unknown_program_fails() {
    let (mut kernel, pid) = booted();
    let outcome = sys_exec(&mut kernel, pid, None, 0, 0, ENTRY);
    assert_eq!(outcome.ret, -1);
    assert_eq!(outcome.stores, vec![]);
    assert_eq!(kernel.processes.get(pid).get_user_token(), 40);
    let outcome = sys_exec(&mut kernel, pid, Some(image(60)), 0x5000, 3, ENTRY);
    assert_eq!(outcome.ret, 0);
    assert_eq!(
        outcome.stores,
        vec![UserStore { token: 60, addr: 0x4ff8, value: StoreValue::Word(0) }]
    );
    assert_eq!(kernel.processes.get(pid).get_user_token(), 60);
}

#[test]
fn calls_that_only_ask_for_a_switch() {
    assert_eq!(sys_exit(-4), Switch::Exit(-4));
    assert_eq!(sys_yield(), YieldOutcome { ret: 0, switch: Switch::Suspend });
}

#[test]
fn calls_with_plain_results() {
    let pcb = ProcessControlBlock {
        pid: PidHandle(31),
        inner: ProcessControlBlockInner::blank(MemorySet::new(1, vec![]), None, vec![]),
    };
    assert_eq!(sys_getpid(&pcb), 31);
    assert_eq!(sys_sbrk(-4096).size, -4096);
    assert_eq!(sbrk_result(Some(0x4000)), 0x4000);
    assert_eq!(sbrk_result(None), -1);
    assert_eq!(sys_spawn(0x10), -1);
    assert_eq!(sys_set_priority(16), -1);
}
