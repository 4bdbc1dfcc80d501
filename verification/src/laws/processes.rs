//! Families of processes and their programs.

use crate::mm::memory_set::Memory;
use crate::syscall::number::as_unsigned;
use crate::task::argv::{
    frame_size, law_arguments_readable, lemma_count_fits, stack_pointer, table_at,
};
use crate::task::id::{law_alloc_gives_unused, law_recycles_last};
use crate::task::manager::KernelState;
use crate::task::process::ProcessState;
use crate::task::thread::{KernelEntry, TaskControlBlock, TaskRef, TaskUserRes};
use crate::trap::{law_registers, TrapContext, A0, A1, SP};
use vstd::prelude::*;

verus! {

/// The child of a fork is a new process whose parent is the forking one. It has the same areas
/// of memory and the same open files, and its thread goes on where the parent's is, with the
/// same registers but for the result, which is zero. No process but the parent has changed, and
/// of the parent only the list of its children.
pub proof fn law_fork_copies(
    kernel: KernelState,
    parent: usize,
    token: usize,
    kstack_top: usize,
    trap_cx_ppn: usize,
)
    requires
        kernel.wf(),
        kernel.pids.has_next(),
        kernel.processes.contains_key(parent),
        kernel.processes[parent].single_threaded(),
    ensures
        ({
            let child = kernel.pids.next_id();
            let forked = kernel.after_fork_call(parent, token, kstack_top, trap_cx_ppn);
            let old_process = kernel.processes[parent];
            let new_process = forked.processes[child];
            let old_cx = old_process.tasks[0]->0.trap_cx;
            let new_cx = new_process.tasks[0]->0.trap_cx;
            &&& child != parent
            &&& !kernel.processes.contains_key(child)
            &&& new_process.parent == Some(parent)
            &&& !new_process.is_zombie
            &&& new_process.children.len() == 0
            &&& new_process.memory_set.areas == old_process.memory_set.areas
            &&& new_process.fd_table == old_process.fd_table
            &&& new_process.single_threaded()
            &&& new_cx.sepc == old_cx.sepc
            &&& new_cx.x@[A0 as int] == 0
            &&& forall|i: int| 0 <= i < 32 && i != A0 ==> #[trigger] new_cx.x@[i] == old_cx.x@[i]
            &&& forked.processes[parent] == (ProcessState {
                children: old_process.children.push(child),
                ..old_process
            })
            &&& forall|pid: usize|
                pid != parent && pid != child ==> {
                    &&& #[trigger] forked.processes.contains_key(pid)
                        <==> kernel.processes.contains_key(pid)
                    &&& forked.processes[pid] == kernel.processes[pid]
                }
        }),
{
    law_alloc_gives_unused(kernel.pids);
    let child = kernel.pids.next_id();
    assert(kernel.pids.live(parent));
    let forked = kernel.after_fork(parent, token, kstack_top, trap_cx_ppn);
    let cx = forked.processes[child].tasks[0]->0.trap_cx;
    law_registers(cx, A0 as int, 0, A0 as int);
    let new_cx = forked.processes[child].returning(0).tasks[0]->0.trap_cx;
    assert forall|i: int| 0 <= i < 32 && i != A0 implies #[trigger] new_cx.x@[i]
        == kernel.processes[parent].tasks[0]->0.trap_cx.x@[i] by {
        law_registers(cx, A0 as int, 0, i);
    }
}

/// The parent can wait for the child of a fork at once, and finds it still running.
pub proof fn law_forked_child_is_running(
    kernel: KernelState,
    parent: usize,
    token: usize,
    kstack_top: usize,
    trap_cx_ppn: usize,
    pid: isize,
)
    requires
        kernel.wf(),
        kernel.pids.has_next(),
        kernel.processes.contains_key(parent),
        kernel.processes[parent].single_threaded(),
        pid != -1,
        as_unsigned(pid as int) == kernel.pids.next_id(),
    ensures
        ({
            let forked = kernel.after_fork_call(parent, token, kstack_top, trap_cx_ppn);
            &&& exists|k: int| #[trigger] forked.child_selected(parent, pid, k)
            &&& forall|k: int| !#[trigger] forked.child_reapable(parent, pid, k)
        }),
{
    law_alloc_gives_unused(kernel.pids);
    let child = kernel.pids.next_id();
    assert(kernel.pids.live(parent));
    let forked = kernel.after_fork_call(parent, token, kstack_top, trap_cx_ppn);
    let last = kernel.processes[parent].children.len() as int;
    assert(forked.processes[parent].children[last] == child);
    assert(forked.child_selected(parent, pid, last));
}

/// A child is waited for once: after that its number means no child of the process, and no
/// process at all.
pub proof fn law_reaped_once(kernel: KernelState, parent: usize, pid: isize, k: int)
    requires
        kernel.wf(),
        kernel.processes.contains_key(parent),
        0 <= k < kernel.processes[parent].children.len(),
        pid != -1,
        as_unsigned(pid as int) == kernel.processes[parent].children[k],
    ensures
        ({
            let after = kernel.after_reap(parent, k);
            &&& forall|i: int| !#[trigger] after.child_selected(parent, pid, i)
            &&& !after.processes.contains_key(kernel.processes[parent].children[k])
        }),
{
    let process = kernel.processes[parent];
    let child = process.children[k];
    let after = kernel.after_reap(parent, k);
    assert(kernel.children_known(parent));
    assert(child != parent);
    let rest = after.processes[parent].children;
    assert(rest == process.children.remove(k));
    assert forall|i: int| !#[trigger] after.child_selected(parent, pid, i) by {
        if after.child_selected(parent, pid, i) {
            let j = if i < k {
                i
            } else {
                i + 1
            };
            assert(rest[i] == process.children[j]);
            assert(process.children[j] != process.children[k]);
        }
    }
}

/// Waiting touches no process but the child that is taken out and its parent, and of the parent
/// only the list of its children.
pub proof fn law_reap_keeps_others(kernel: KernelState, parent: usize, k: int, pid: usize)
    requires
        kernel.wf(),
        kernel.processes.contains_key(parent),
        0 <= k < kernel.processes[parent].children.len(),
        pid != kernel.processes[parent].children[k],
    ensures
        ({
            let after = kernel.after_reap(parent, k);
            &&& after.processes.contains_key(pid) <==> kernel.processes.contains_key(pid)
            &&& pid != parent ==> after.processes[pid] == kernel.processes[pid]
            &&& pid == parent ==> after.processes[pid] == (ProcessState {
                children: kernel.processes[pid].children.remove(k),
                ..kernel.processes[pid]
            })
        }),
{
}

/// If a child that `pid` means has exited, there is a first one.
pub proof fn law_first_reapable(kernel: KernelState, parent: usize, pid: isize, k: int)
    requires
        kernel.child_reapable(parent, pid, k),
    ensures
        exists|i: int| #[trigger] kernel.first_reapable(parent, pid, i),
    decreases k,
{
    if exists|i: int| 0 <= i < k && kernel.child_reapable(parent, pid, i) {
        let i = choose|i: int| 0 <= i < k && kernel.child_reapable(parent, pid, i);
        law_first_reapable(kernel, parent, pid, i);
    } else {
        assert(kernel.first_reapable(parent, pid, k));
    }
}

/// The number of a child that was waited for is the one that the next process gets.
pub proof fn law_pid_reused(kernel: KernelState, parent: usize, k: int)
    ensures
        kernel.after_reap(parent, k).pids.next_id() == kernel.processes[parent].children[k],
{
    law_recycles_last(kernel.pids, kernel.processes[parent].children[k]);
}

/// A process that runs another program stays the same process: its files, its family and all but
/// its memory and its thread are as before. The thread starts at the entry point, below its
/// arguments, with their number and their place in the first two argument registers.
pub proof fn law_exec_keeps_process(
    process: ProcessState,
    memory_set: Memory,
    ustack_base: usize,
    entry_point: usize,
    ustack_top: usize,
    trap_cx_ppn: usize,
    entry: KernelEntry,
    args: Seq<Seq<u8>>,
)
    requires
        process.single_threaded(),
        frame_size(args) <= ustack_top,
    ensures
        ({
            let after = process.after_exec(
                memory_set,
                ustack_base,
                entry_point,
                ustack_top,
                trap_cx_ppn,
                entry,
                args,
            );
            let cx = after.tasks[0]->0.trap_cx;
            &&& after == (ProcessState { memory_set, tasks: after.tasks, ..process })
            &&& after.single_threaded()
            &&& cx.sepc == entry_point
            &&& cx.x@[A0 as int] == args.len()
            &&& cx.x@[A1 as int] == table_at(args, ustack_top as int)
            &&& cx.x@[SP as int] == stack_pointer(args, ustack_top as int)
            &&& forall|i: int|
                0 <= i < 32 && i != A0 && i != A1 && i != SP ==> #[trigger] cx.x@[i] == 0
        }),
{
    broadcast use vstd::array::group_array_axioms;

    law_arguments_readable(memory_set.token, args, ustack_top as int);
    lemma_count_fits(args, ustack_top as int);
}

/// Waiting finds every child that has exited: `pid` means a child if it is -1 or the child's
/// number, as a signed word; and if any child that it means is marked as exited, whatever its exit
/// code and wherever it stands in the list, one can be taken out. If none is, none can.
pub proof fn law_wait_finds(kernel: KernelState, parent: usize, pid: isize)
    ensures
        ({
            let children = kernel.processes[parent].children;
            &&& forall|k: int| #[trigger]
                kernel.child_selected(parent, pid, k) <==> 0 <= k < children.len() && (pid == -1
                    || pid == children[k] || pid + usize::MAX + 1 == children[k])
            &&& (exists|k: int| #[trigger] kernel.first_reapable(parent, pid, k)) <==> exists|k: int|
                {
                    &&& 0 <= k < children.len()
                    &&& pid == -1 || pid == #[trigger] children[k] || pid + usize::MAX + 1
                        == children[k]
                    &&& kernel.processes[children[k]].is_zombie
                }
            &&& (exists|k: int| #[trigger] kernel.child_reapable(parent, pid, k)) <==> exists|k: int| #[trigger]
                kernel.first_reapable(parent, pid, k)
        }),
{
    let children = kernel.processes[parent].children;
    assert forall|k: int| #[trigger] kernel.child_selected(parent, pid, k) <==> 0 <= k
        < children.len() && (pid == -1 || pid == children[k] || pid + usize::MAX + 1
        == children[k]) by {}
    if exists|k: int|
        {
            &&& 0 <= k < children.len()
            &&& pid == -1 || pid == #[trigger] children[k] || pid + usize::MAX + 1 == children[k]
            &&& kernel.processes[children[k]].is_zombie
        } {
        let k = choose|k: int|
            {
                &&& 0 <= k < children.len()
                &&& pid == -1 || pid == #[trigger] children[k] || pid + usize::MAX + 1
                    == children[k]
                &&& kernel.processes[children[k]].is_zombie
            };
        assert(kernel.child_selected(parent, pid, k));
        assert(kernel.child_reapable(parent, pid, k));
        law_first_reapable(kernel, parent, pid, k);
    }
    if exists|k: int| #[trigger] kernel.child_reapable(parent, pid, k) {
        let k = choose|k: int| #[trigger] kernel.child_reapable(parent, pid, k);
        law_first_reapable(kernel, parent, pid, k);
    }
    if exists|k: int| #[trigger] kernel.first_reapable(parent, pid, k) {
        let k = choose|k: int| #[trigger] kernel.first_reapable(parent, pid, k);
        assert(kernel.child_reapable(parent, pid, k));
        assert(kernel.child_selected(parent, pid, k));
        assert(children[k] == children[k]);
    }
}

/// The child that is taken out is one that `pid` means and that has exited, and the first such in
/// the list. It leaves the processes and its parent's list, in which the others keep their order;
/// its number is given back. No other process and nothing else changes.
pub proof fn law_wait_takes(kernel: KernelState, parent: usize, pid: isize, k: int)
    requires
        kernel.wf(),
        kernel.processes.contains_key(parent),
    ensures
        kernel.first_reapable(parent, pid, k) ==> {
            let children = kernel.processes[parent].children;
            &&& 0 <= k < children.len()
            &&& pid == -1 || pid == children[k] || pid + usize::MAX + 1 == children[k]
            &&& kernel.processes[children[k]].is_zombie
            &&& forall|i: int|
                0 <= i < k && (pid == -1 || pid == #[trigger] children[i] || pid + usize::MAX + 1
                    == children[i]) ==> !kernel.processes[children[i]].is_zombie
        },
        0 <= k < kernel.processes[parent].children.len() ==> {
            let children = kernel.processes[parent].children;
            let after = kernel.after_reap(parent, k);
            let rest = after.processes[parent].children;
            &&& after.pids.next == kernel.pids.next
            &&& after.pids.recycled == kernel.pids.recycled.push(children[k])
            &&& after.ready_queue == kernel.ready_queue
            &&& forall|p: usize| #[trigger]
                after.processes.contains_key(p) <==> kernel.processes.contains_key(p) && p
                    != children[k]
            &&& forall|p: usize|
                p != parent && p != children[k] ==> #[trigger] after.processes[p]
                    == kernel.processes[p]
            &&& after.processes[parent] == (ProcessState {
                children: rest,
                ..kernel.processes[parent]
            })
            &&& rest.len() == children.len() - 1
            &&& forall|i: int| 0 <= i < k ==> #[trigger] rest[i] == children[i]
            &&& forall|i: int| k <= i < rest.len() ==> #[trigger] rest[i] == children[i + 1]
        },
{
    let children = kernel.processes[parent].children;
    if kernel.first_reapable(parent, pid, k) {
        assert(kernel.child_reapable(parent, pid, k));
        assert forall|i: int|
            0 <= i < k && (pid == -1 || pid == #[trigger] children[i] || pid + usize::MAX + 1
                == children[i]) implies !kernel.processes[children[i]].is_zombie by {
            assert(!kernel.child_reapable(parent, pid, i));
            assert(kernel.child_selected(parent, pid, i));
        }
    }
    if 0 <= k < children.len() {
        assert(kernel.children_known(parent));
        assert(children[k] != parent);
    }
}

/// A fork hands out the next number, enters the child under it, at the end of its parent's list,
/// and puts the child's main thread behind all that are ready to run, whatever children the parent
/// has. No other process changes.
pub proof fn law_fork_enters(
    kernel: KernelState,
    parent: usize,
    token: usize,
    kstack_top: usize,
    trap_cx_ppn: usize,
)
    requires
        kernel.wf(),
        kernel.pids.has_next(),
        kernel.processes.contains_key(parent),
    ensures
        ({
            let child = kernel.pids.next_id();
            let forked = kernel.after_fork(parent, token, kstack_top, trap_cx_ppn);
            let told = kernel.after_fork_call(parent, token, kstack_top, trap_cx_ppn);
            &&& child != parent
            &&& !kernel.processes.contains_key(child)
            &&& forked.pids == kernel.pids.after_alloc()
            &&& forked.ready_queue == kernel.ready_queue.push(TaskRef { pid: child, tid: 0 })
            &&& forked.processes.dom() == kernel.processes.dom().insert(child)
            &&& forked.processes[parent] == (ProcessState {
                children: kernel.processes[parent].children.push(child),
                ..kernel.processes[parent]
            })
            &&& forall|pid: usize|
                pid != parent && pid != child ==> #[trigger] forked.processes[pid]
                    == kernel.processes[pid]
            &&& told.pids == forked.pids
            &&& told.ready_queue == kernel.ready_queue.push(TaskRef { pid: child, tid: 0 })
            &&& told.processes.dom() == forked.processes.dom()
            &&& forall|pid: usize|
                pid != child ==> #[trigger] told.processes[pid] == forked.processes[pid]
        }),
{
    law_alloc_gives_unused(kernel.pids);
    let child = kernel.pids.next_id();
    assert(kernel.pids.live(parent));
    assert(!kernel.processes.contains_key(child));
    let forked = kernel.after_fork(parent, token, kstack_top, trap_cx_ppn);
    let told = kernel.after_fork_call(parent, token, kstack_top, trap_cx_ppn);
    assert(forked.processes.dom() =~= kernel.processes.dom().insert(child));
    assert(told.processes.dom() =~= forked.processes.dom());
}

/// The child of a fork is a process of its parent with a copy of its memory's areas at the root
/// `token`, with its open files at the same descriptors, and with nothing else of it: no names, no
/// links, no children, no locks. Its one thread, number 0, has the parent's user stack, a kernel
/// stack and a trap context of its own, and the parent's registers; only where it enters the kernel
/// stack differs. The program is told 0 in register 10, and no other register differs.
pub proof fn law_forked_child(
    kernel: KernelState,
    parent: usize,
    token: usize,
    kstack_top: usize,
    trap_cx_ppn: usize,
)
    requires
        kernel.processes[parent].tasks.len() == 1,
        kernel.processes[parent].tasks[0] matches Some(main) && main.res is Some,
    ensures
        ({
            let pid = kernel.pids.next_id();
            let old_process = kernel.processes[parent];
            let main = old_process.tasks[0]->0;
            let child = kernel.after_fork(parent, token, kstack_top, trap_cx_ppn).processes[pid];
            let told = kernel.after_fork_call(
                parent,
                token,
                kstack_top,
                trap_cx_ppn,
            ).processes[pid];
            &&& child.parent == Some(parent)
            &&& child.memory_set.token == token
            &&& child.memory_set.areas == old_process.memory_set.areas
            &&& child.fd_table == old_process.fd_table
            &&& !child.is_zombie
            &&& child.exit_code == 0
            &&& child.children.len() == 0
            &&& child.names.dom().is_empty()
            &&& child.links.dom().is_empty()
            &&& child.signals.bits == 0
            &&& child.tids.next == 1
            &&& child.tids.recycled.len() == 0
            &&& child.mutex_list.len() == 0
            &&& child.semaphore_list.len() == 0
            &&& child.condvar_list.len() == 0
            &&& !child.deadlock_detect_enabled
            &&& child.mutex_owner.len() == 0
            &&& child.semaphore_alloc.len() == 0
            &&& child.semaphore_count.len() == 0
            &&& child.tasks.len() == 1
            &&& child.tasks[0] == Some(
                TaskControlBlock {
                    res: Some(
                        TaskUserRes {
                            tid: 0,
                            ustack_base: main.res->0.ustack_base,
                            ustack_top: main.res->0.ustack_top,
                        },
                    ),
                    kstack_top,
                    trap_cx_ppn,
                    trap_cx: TrapContext {
                        x: main.trap_cx.x,
                        sepc: main.trap_cx.sepc,
                        kernel_satp: main.trap_cx.kernel_satp,
                        kernel_sp: kstack_top,
                        trap_handler: main.trap_cx.trap_handler,
                    },
                },
            )
            &&& told == (ProcessState { tasks: told.tasks, ..child })
            &&& told.tasks.len() == 1
            &&& told.tasks[0] is Some
            &&& told.tasks[0]->0 == (TaskControlBlock {
                trap_cx: TrapContext {
                    x: told.tasks[0]->0.trap_cx.x,
                    ..child.tasks[0]->0.trap_cx
                },
                ..child.tasks[0]->0
            })
            &&& forall|i: int|
                0 <= i < 32 ==> #[trigger] told.tasks[0]->0.trap_cx.x@[i] == if i == 10 {
                    0
                } else {
                    main.trap_cx.x@[i]
                }
        }),
{
    let pid = kernel.pids.next_id();
    let child = kernel.after_fork(parent, token, kstack_top, trap_cx_ppn).processes[pid];
    let told = kernel.after_fork_call(parent, token, kstack_top, trap_cx_ppn).processes[pid];
    let cx = child.tasks[0]->0.trap_cx;
    assert forall|i: int| 0 <= i < 32 implies #[trigger] told.tasks[0]->0.trap_cx.x@[i] == if i
        == 10 {
        0
    } else {
        cx.x@[i]
    } by {
        law_registers(cx, A0 as int, 0, i);
    }
}

/// A new process gets the next number, is entered under it, and its main thread goes behind all
/// that are ready to run. No other process changes.
pub proof fn law_new_process_enters(kernel: KernelState, process: ProcessState)
    ensures
        ({
            let pid = kernel.pids.next_id();
            let after = kernel.after_new(process);
            &&& after.pids == kernel.pids.after_alloc()
            &&& after.ready_queue == kernel.ready_queue.push(TaskRef { pid, tid: 0 })
            &&& after.processes == kernel.processes.insert(pid, process)
        }),
{
}

} // verus!
