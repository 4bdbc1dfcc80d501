//! The tables of a process.

use super::files::law_free_fd_exists;
use crate::fs::file::FileRef;
use crate::mm::memory_set::Memory;
use crate::task::manager::{Kernel, KernelState};
use crate::task::process::{ProcessControlBlockInner, ProcessState};
use crate::task::thread::TaskControlBlock;
use vstd::prelude::*;

verus! {

/// What is said of a process is said of its fields.
pub proof fn law_process_is_its_fields(inner: ProcessControlBlockInner)
    ensures
        inner@.is_zombie == inner.is_zombie,
        inner@.memory_set == inner.memory_set@,
        inner@.parent == inner.parent,
        inner@.children == inner.children@,
        inner@.exit_code == inner.exit_code,
        inner@.fd_table == inner.fd_table@,
        inner@.names == inner.names@,
        inner@.links == inner.links@,
        inner@.signals == inner.signals,
        inner@.tasks == inner.tasks@,
        inner@.tids == inner.task_res_allocator@,
        inner@.mutex_list == inner.mutex_list@,
        inner@.semaphore_list == inner.semaphore_list@,
        inner@.condvar_list == inner.condvar_list@,
        inner@.deadlock_detect_enabled == inner.deadlock_detect_enabled,
        inner@.mutex_owner == inner.mutex_owner@,
        inner@.semaphore_alloc.len() == inner.semaphore_alloc@.len(),
        forall|j: int|
            0 <= j < inner.semaphore_alloc@.len() ==> #[trigger] inner@.semaphore_alloc[j]
                == inner.semaphore_alloc@[j]@,
        inner@.semaphore_count == inner.semaphore_count@,
{
}

/// What is said of the kernel is said of its fields.
pub proof fn law_kernel_is_its_fields(kernel: Kernel)
    ensures
        kernel@.pids == kernel.pids@,
        kernel@.processes == kernel.processes@,
        kernel@.ready_queue == kernel.ready_queue@,
        kernel.wf() <==> kernel.processes.wf() && kernel@.wf(),
{
}

/// A process is in order if each of its names leads to an open file of its own, its names are
/// finitely many, each thread stands at its number, and the numbers of its threads are in order.
/// Nothing else has a say: neither whether it has exited, nor with what.
pub proof fn law_process_in_order(process: ProcessState)
    ensures
        process.wf() <==> {
            &&& forall|name: Seq<char>| #[trigger]
                process.names.contains_key(name) ==> process.names[name] < process.fd_table.len()
                    && process.fd_table[process.names[name] as int] is Some
            &&& forall|a: Seq<char>, b: Seq<char>|
                process.names.contains_key(a) && process.names.contains_key(b) && a != b
                    ==> #[trigger] process.names[a] != #[trigger] process.names[b]
            &&& process.links.dom().finite()
            &&& forall|i: int|
                0 <= i < process.tasks.len() ==> match #[trigger] process.tasks[i] {
                    Some(TaskControlBlock { res: Some(res), .. }) => res.tid == i,
                    _ => true,
                }
            &&& process.tids.wf()
        },
{
    let stated = {
        &&& forall|name: Seq<char>| #[trigger]
            process.names.contains_key(name) ==> process.names[name] < process.fd_table.len()
                && process.fd_table[process.names[name] as int] is Some
        &&& forall|i: int|
            0 <= i < process.tasks.len() ==> match #[trigger] process.tasks[i] {
                Some(TaskControlBlock { res: Some(res), .. }) => res.tid == i,
                _ => true,
            }
    };
    if stated {
        assert forall|name: Seq<char>| #[trigger] process.names.contains_key(
            name,
        ) implies process.is_open(process.names[name] as int) by {}
    }
    if process.wf() {
        assert forall|name: Seq<char>| #[trigger] process.names.contains_key(
            name,
        ) implies process.names[name] < process.fd_table.len()
            && process.fd_table[process.names[name] as int] is Some by {
            assert(process.is_open(process.names[name] as int));
        }
    }
}

/// The kernel is in order if the numbers in use are those of the processes, each process is in
/// order, and each child that a process lists, once, is another process whose parent it is.
pub proof fn law_kernel_in_order(kernel: KernelState)
    ensures
        kernel.wf() <==> {
            &&& kernel.pids.wf()
            &&& forall|pid: usize| #[trigger]
                kernel.processes.contains_key(pid) <==> kernel.pids.live(pid)
            &&& forall|pid: usize| #[trigger]
                kernel.processes.contains_key(pid) ==> kernel.processes[pid].wf()
            &&& forall|pid: usize, k: int|
                kernel.processes.contains_key(pid) && 0 <= k < kernel.processes[pid].children.len()
                    ==> {
                    let child = #[trigger] kernel.processes[pid].children[k];
                    &&& child != pid
                    &&& kernel.processes.contains_key(child)
                    &&& kernel.processes[child].parent == Some(pid)
                }
            &&& forall|pid: usize, j: int, k: int|
                kernel.processes.contains_key(pid) && 0 <= j < k
                    < kernel.processes[pid].children.len()
                    ==> #[trigger] kernel.processes[pid].children[j]
                    != #[trigger] kernel.processes[pid].children[k]
        },
{
    if kernel.wf() {
        assert forall|pid: usize, k: int|
            kernel.processes.contains_key(pid) && 0 <= k
                < kernel.processes[pid].children.len() implies {
            let child = #[trigger] kernel.processes[pid].children[k];
            &&& child != pid
            &&& kernel.processes.contains_key(child)
            &&& kernel.processes[child].parent == Some(pid)
        } by {
            assert(kernel.children_known(pid));
        }
        assert forall|pid: usize, j: int, k: int|
            kernel.processes.contains_key(pid) && 0 <= j < k
                < kernel.processes[pid].children.len() implies #[trigger] kernel.processes[pid].children[j]
            != #[trigger] kernel.processes[pid].children[k] by {
            assert(kernel.children_known(pid));
        }
    }
}

/// A process has a single thread if its list of threads has one place, which is taken by a thread
/// that has not exited.
pub proof fn law_single_thread(process: ProcessState)
    ensures
        process.single_threaded() <==> process.tasks.len() == 1 && match process.tasks[0] {
            Some(task) => task.res is Some,
            None => false,
        },
{
}

/// A process starts out with its memory, its parent and its files, and with nothing else.
pub proof fn law_blank_process(
    memory_set: Memory,
    parent: Option<usize>,
    fd_table: Seq<Option<FileRef>>,
)
    ensures
        ({
            let process = ProcessState::blank(memory_set, parent, fd_table);
            &&& process.memory_set == memory_set
            &&& process.parent == parent
            &&& process.fd_table == fd_table
            &&& !process.is_zombie
            &&& process.exit_code == 0
            &&& process.children.len() == 0
            &&& process.names.dom().is_empty()
            &&& process.links.dom().is_empty()
            &&& process.signals.bits == 0
            &&& process.tasks.len() == 0
            &&& process.tids.next == 0
            &&& process.tids.recycled.len() == 0
            &&& process.mutex_list.len() == 0
            &&& process.semaphore_list.len() == 0
            &&& process.condvar_list.len() == 0
            &&& !process.deadlock_detect_enabled
            &&& process.mutex_owner.len() == 0
            &&& process.semaphore_alloc.len() == 0
            &&& process.semaphore_count.len() == 0
        }),
{
}

/// The descriptor that is handed out has no open file, and every lower one has. The table only
/// grows to reach it, by one free place at most, and nothing else of the process changes.
pub proof fn law_lowest_descriptor(process: ProcessState)
    ensures
        ({
            let fd = process.free_fd();
            let after = process.with_fd(fd);
            &&& 0 <= fd <= process.fd_table.len()
            &&& fd < process.fd_table.len() ==> process.fd_table[fd] is None
            &&& forall|k: int| 0 <= k < fd ==> #[trigger] process.fd_table[k] is Some
            &&& fd < process.fd_table.len() ==> after == process
            &&& fd == process.fd_table.len() ==> after == (ProcessState {
                fd_table: process.fd_table.push(None),
                ..process
            })
        }),
{
    law_free_fd_exists(process);
    let fd = process.free_fd();
    assert forall|k: int| 0 <= k < fd implies #[trigger] process.fd_table[k] is Some by {
        assert(process.is_open(k));
    }
    if fd == process.fd_table.len() {
        assert(process.with_fd(fd).fd_table =~= process.fd_table.push(None));
    }
}

/// A new thread number gives every semaphore an entry for it: shorter lists are filled with zeros
/// up to it, and what stood in a list stays. Nothing else of the process changes but the numbers.
pub proof fn law_new_thread_number(process: ProcessState)
    ensures
        ({
            let tid = process.tids.next_id();
            let after = process.after_alloc_tid();
            &&& after == (ProcessState {
                tids: process.tids.after_alloc(),
                semaphore_alloc: after.semaphore_alloc,
                ..process
            })
            &&& after.semaphore_alloc.len() == process.semaphore_alloc.len()
            &&& forall|c: int|
                0 <= c < process.semaphore_alloc.len() ==> {
                    let old_column = process.semaphore_alloc[c];
                    let new_column = #[trigger] after.semaphore_alloc[c];
                    &&& tid < old_column.len() ==> new_column == old_column
                    &&& tid >= old_column.len() ==> new_column.len() == tid + 1
                    &&& forall|i: int|
                        0 <= i < old_column.len() ==> #[trigger] new_column[i] == old_column[i]
                    &&& forall|i: int|
                        old_column.len() <= i < new_column.len() ==> #[trigger] new_column[i] == 0
                }
        }),
{
}

/// A thread number that is given back holds nothing of any semaphore any more. No other entry
/// changes, no list changes its length, and nothing else of the process changes but the numbers.
pub proof fn law_thread_number_given_back(process: ProcessState, tid: usize)
    ensures
        ({
            let after = process.after_dealloc_tid(tid);
            &&& after == (ProcessState {
                tids: process.tids.after_dealloc(tid),
                semaphore_alloc: after.semaphore_alloc,
                ..process
            })
            &&& after.semaphore_alloc.len() == process.semaphore_alloc.len()
            &&& forall|c: int|
                0 <= c < process.semaphore_alloc.len() ==> (#[trigger] after.semaphore_alloc[c]).len()
                    == process.semaphore_alloc[c].len()
            &&& forall|c: int, i: int|
                0 <= c < process.semaphore_alloc.len() && 0 <= i < process.semaphore_alloc[c].len()
                    ==> #[trigger] after.semaphore_alloc[c][i] == if i == tid {
                    0
                } else {
                    process.semaphore_alloc[c][i]
                }
        }),
{
}

/// Owners are kept for as many mutexes as there are, or for more if there were more; those that
/// are new have none. Nothing else of the process changes.
pub proof fn law_mutex_owners(process: ProcessState)
    ensures
        ({
            let after = process.with_mutex_owners();
            let had = process.mutex_owner.len();
            let mutexes = process.mutex_list.len();
            &&& after == (ProcessState { mutex_owner: after.mutex_owner, ..process })
            &&& after.mutex_owner.len() == if had < mutexes {
                mutexes
            } else {
                had
            }
            &&& forall|j: int| 0 <= j < had ==> #[trigger] after.mutex_owner[j]
                == process.mutex_owner[j]
            &&& forall|j: int|
                had <= j < after.mutex_owner.len() ==> #[trigger] after.mutex_owner[j] is None
        }),
{
}

/// Lists of what threads hold, and totals, are kept for as many semaphores as there are, or for
/// more if there were more, and each list is as long as there are threads, or longer if it was.
/// What is new is zero. Nothing else of the process changes.
pub proof fn law_semaphore_tables(process: ProcessState)
    ensures
        ({
            let after = process.with_semaphore_tables();
            let semaphores = process.semaphore_list.len();
            let columns = process.semaphore_alloc.len();
            let counts = process.semaphore_count.len();
            let threads = process.tasks.len();
            &&& after == (ProcessState {
                semaphore_alloc: after.semaphore_alloc,
                semaphore_count: after.semaphore_count,
                ..process
            })
            &&& after.semaphore_alloc.len() == if columns < semaphores {
                semaphores
            } else {
                columns
            }
            &&& after.semaphore_count.len() == if counts < semaphores {
                semaphores
            } else {
                counts
            }
            &&& forall|c: int|
                0 <= c < columns ==> {
                    let had = process.semaphore_alloc[c].len();
                    &&& (#[trigger] after.semaphore_alloc[c]).len() == if had < threads {
                        threads
                    } else {
                        had
                    }
                    &&& forall|i: int|
                        0 <= i < after.semaphore_alloc[c].len()
                            ==> #[trigger] after.semaphore_alloc[c][i] == if i < had {
                            process.semaphore_alloc[c][i]
                        } else {
                            0
                        }
                }
            &&& forall|c: int|
                columns <= c < after.semaphore_alloc.len() ==> {
                    &&& (#[trigger] after.semaphore_alloc[c]).len() == threads
                    &&& forall|i: int|
                        0 <= i < threads ==> #[trigger] after.semaphore_alloc[c][i] == 0
                }
            &&& forall|j: int|
                0 <= j < after.semaphore_count.len() ==> #[trigger] after.semaphore_count[j] == if j
                    < counts {
                    process.semaphore_count[j]
                } else {
                    0
                }
        }),
{
}

} // verus!
