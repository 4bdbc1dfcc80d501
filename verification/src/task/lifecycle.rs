//! How processes come into being and change their program.

use super::argv::{argv_stores, bytes_of, frame_size, push_args, stack_pointer, table_at};
use super::id::{law_alloc_gives_unused, PidHandle};
use super::manager::{Kernel, KernelState};
use super::process::{ProcessControlBlock, ProcessControlBlockInner, ProcessState};
use super::thread::{KernelEntry, TaskControlBlock, TaskRef, TaskUserRes, ThreadPlace};
use crate::fs::file::FileRef;
use crate::mm::memory_set::{Memory, MemorySet};
use crate::mm::store::UserStore;
use crate::trap::{TrapContext, A0, A1};
use vstd::prelude::*;

verus! {

/// A program as it was loaded into memory.
pub struct ElfImage {
    /// its address space, with the user stack and the trap context of its main thread in it
    pub memory_set: MemorySet,
    /// where the user stacks begin
    pub ustack_base: usize,
    /// where it starts
    pub entry_point: usize,
}

impl ProcessState {
    /// What a fork of this process is: the same memory contents, files and user state, a single
    /// thread on a kernel stack of its own, and nothing else.
    pub open spec fn forked(
        self,
        pid: usize,
        token: usize,
        kstack_top: usize,
        trap_cx_ppn: usize,
    ) -> ProcessState {
        let main = self.tasks[0]->0;
        ProcessState::blank(
            Memory { token, areas: self.memory_set.areas },
            Some(pid),
            self.fd_table,
        ).with_main_thread(
            TaskControlBlock {
                res: Some(TaskUserRes { tid: 0, ..main.res->0 }),
                kstack_top,
                trap_cx_ppn,
                trap_cx: TrapContext { kernel_sp: kstack_top, ..main.trap_cx },
            },
        )
    }

    /// What a process is that starts a program: a single thread at the entry point, on an empty
    /// stack, with the console as standard input, output and error.
    pub open spec fn started(
        memory_set: Memory,
        ustack_base: usize,
        entry_point: usize,
        place: ThreadPlace,
        entry: KernelEntry,
    ) -> ProcessState {
        ProcessState::blank(
            memory_set,
            None,
            seq![
                Some(FileRef::spec_stdin()),
                Some(FileRef::spec_stdout()),
                Some(FileRef::spec_stdout()),
            ],
        ).with_main_thread(
            TaskControlBlock {
                res: Some(TaskUserRes { tid: 0, ustack_base, ustack_top: place.ustack_top }),
                kstack_top: place.kstack_top,
                trap_cx_ppn: place.trap_cx_ppn,
                trap_cx: TrapContext::initial(
                    entry_point,
                    place.ustack_top,
                    entry.satp,
                    place.kstack_top,
                    entry.trap_handler,
                ),
            },
        )
    }

    /// What the process is once it runs another program with the arguments `args`: the new
    /// memory, and its thread at the entry point with the arguments on its stack and their count
    /// and place in the argument registers. All else is as before.
    pub open spec fn after_exec(
        self,
        memory_set: Memory,
        ustack_base: usize,
        entry_point: usize,
        ustack_top: usize,
        trap_cx_ppn: usize,
        entry: KernelEntry,
        args: Seq<Seq<u8>>,
    ) -> ProcessState {
        let main = self.tasks[0]->0;
        ProcessState {
            memory_set,
            tasks: self.tasks.update(
                0,
                Some(
                    TaskControlBlock {
                        res: Some(TaskUserRes { ustack_base, ustack_top, ..main.res->0 }),
                        kstack_top: main.kstack_top,
                        trap_cx_ppn,
                        trap_cx: TrapContext::initial(
                            entry_point,
                            stack_pointer(args, ustack_top as int) as usize,
                            entry.satp,
                            main.kstack_top,
                            entry.trap_handler,
                        ).with_reg(A0 as int, args.len() as usize).with_reg(
                            A1 as int,
                            table_at(args, ustack_top as int) as usize,
                        ),
                    },
                ),
            ),
            ..self
        }
    }
}

impl KernelState {
    /// The kernel once a new process was added.
    pub open spec fn after_new(self, process: ProcessState) -> KernelState {
        let pid = self.pids.next_id();
        KernelState {
            pids: self.pids.after_alloc(),
            processes: self.processes.insert(pid, process),
            ready_queue: self.ready_queue.push(TaskRef { pid, tid: 0 }),
        }
    }

    /// The kernel once the process `parent` has forked.
    pub open spec fn after_fork(
        self,
        parent: usize,
        token: usize,
        kstack_top: usize,
        trap_cx_ppn: usize,
    ) -> KernelState {
        let child = self.pids.next_id();
        let process = self.processes[parent];
        KernelState {
            pids: self.pids.after_alloc(),
            processes: self.processes.insert(
                parent,
                ProcessState { children: process.children.push(child), ..process },
            ).insert(child, process.forked(parent, token, kstack_top, trap_cx_ppn)),
            ready_queue: self.ready_queue.push(TaskRef { pid: child, tid: 0 }),
        }
    }
}

/// Forking keeps the kernel in order.
proof fn lemma_fork_wf(
    kernel: KernelState,
    parent: usize,
    token: usize,
    kstack_top: usize,
    trap_cx_ppn: usize,
)
    requires
        kernel.wf(),
        kernel.pids.has_next(),
        kernel.processes.contains_key(parent),
        kernel.processes[parent].single_threaded(),
    ensures
        !kernel.processes.contains_key(kernel.pids.next_id()),
        kernel.after_fork(parent, token, kstack_top, trap_cx_ppn).wf(),
{
    let child = kernel.pids.next_id();
    let after = kernel.after_fork(parent, token, kstack_top, trap_cx_ppn);
    law_alloc_gives_unused(kernel.pids);
    assert(!kernel.processes.contains_key(child));
    assert forall|pid: usize| #[trigger] after.processes.contains_key(pid) implies {
        &&& after.processes[pid].wf()
        &&& after.children_known(pid)
    } by {
        if pid != child {
            assert(kernel.processes.contains_key(pid));
            let children = after.processes[pid].children;
            assert forall|k: int| 0 <= k < children.len() implies {
                &&& after.processes.contains_key(#[trigger] children[k])
                &&& children[k] != pid
                &&& after.processes[children[k]].parent == Some(pid)
            } by {
                if k < kernel.processes[pid].children.len() {
                    assert(children[k] == kernel.processes[pid].children[k]);
                }
            }
        }
    }
}

/// A new process without children keeps the kernel in order.
proof fn lemma_new_wf(kernel: KernelState, process: ProcessState)
    requires
        kernel.wf(),
        kernel.pids.has_next(),
        process.wf(),
        process.children.len() == 0,
    ensures
        !kernel.processes.contains_key(kernel.pids.next_id()),
        kernel.after_new(process).wf(),
{
    let fresh = kernel.pids.next_id();
    let after = kernel.after_new(process);
    law_alloc_gives_unused(kernel.pids);
    assert forall|pid: usize| #[trigger] after.processes.contains_key(pid) implies {
        &&& after.processes[pid].wf()
        &&& after.children_known(pid)
    } by {
        if pid != fresh {
            assert(kernel.processes.contains_key(pid));
        }
    }
}

/// Whatever is done to one process, the kernel stays in order as long as that process does and its
/// family stays the same.
pub proof fn law_change_keeps_kernel(kernel: KernelState, pid: usize, process: ProcessState)
    requires
        kernel.wf(),
        kernel.processes.contains_key(pid),
        process.wf(),
        process.children == kernel.processes[pid].children,
        process.parent == kernel.processes[pid].parent,
    ensures
        (KernelState { processes: kernel.processes.insert(pid, process), ..kernel }).wf(),
{
    let after = KernelState { processes: kernel.processes.insert(pid, process), ..kernel };
    assert forall|p: usize| #[trigger] after.processes.contains_key(p) implies {
        &&& after.processes[p].wf()
        &&& after.children_known(p)
    } by {
        assert(kernel.processes.contains_key(p));
    }
}

impl ProcessControlBlock {
    /// A new process that runs a program. `place` is the memory set aside for its thread.
    pub fn new(
        kernel: &mut Kernel,
        image: ElfImage,
        place: ThreadPlace,
        entry: KernelEntry,
    ) -> (pid: usize)
        requires
            old(kernel).wf(),
            old(kernel)@.pids.has_next(),
        ensures
            pid == old(kernel)@.pids.next_id(),
            final(kernel)@ == old(kernel)@.after_new(
                ProcessState::started(
                    image.memory_set@,
                    image.ustack_base,
                    image.entry_point,
                    place,
                    entry,
                ),
            ),
            final(kernel).wf(),
    {
        let ghost start = kernel@;
        let ghost started = ProcessState::started(
            image.memory_set@,
            image.ustack_base,
            image.entry_point,
            place,
            entry,
        );
        // allocate a pid
        let pid: usize = kernel.pids.allocate();
        let mut fd_table: Vec<Option<FileRef>> = Vec::new();
        // 0 -> stdin
        fd_table.push(Some(FileRef::stdin()));
        // 1 -> stdout
        fd_table.push(Some(FileRef::stdout()));
        // 2 -> stderr
        fd_table.push(Some(FileRef::stdout()));
        let mut inner = ProcessControlBlockInner::blank(image.memory_set, None, fd_table);
        // create a main thread
        let tid: usize = inner.alloc_tid();
        let trap_cx = TrapContext::app_init_context(
            image.entry_point,
            place.ustack_top,
            entry.satp,
            place.kstack_top,
            entry.trap_handler,
        );
        let task = TaskControlBlock {
            res: Some(
                TaskUserRes {
                    tid,
                    ustack_base: image.ustack_base,
                    ustack_top: place.ustack_top,
                },
            ),
            kstack_top: place.kstack_top,
            trap_cx_ppn: place.trap_cx_ppn,
            trap_cx,
        };
        // add main thread to the process
        inner.tasks.push(Some(task));
        assert(inner@ =~= started);
        proof {
            lemma_new_wf(start, started);
        }
        kernel.processes.insert_into_pid2process(
            ProcessControlBlock { pid: PidHandle(pid), inner },
        );
        // add main thread to scheduler
        kernel.add_task(TaskRef { pid, tid });
        assert(kernel@ =~= start.after_new(started));
        pid
    }

    /// The process `pid` runs another program. Only supports processes with a single thread.
    ///
    /// `ustack_top` and `trap_cx_ppn` are where its thread's user stack and trap context stand in
    /// the new address space; what is returned is to be written there.
    pub fn exec(
        kernel: &mut Kernel,
        pid: usize,
        image: ElfImage,
        ustack_top: usize,
        trap_cx_ppn: usize,
        entry: KernelEntry,
        args: Vec<String>,
    ) -> (stores: Vec<UserStore>)
        requires
            old(kernel).wf(),
            old(kernel)@.processes.contains_key(pid),
            old(kernel)@.processes[pid].single_threaded(),
            frame_size(bytes_of(args@)) <= ustack_top,
        ensures
            stores@ == argv_stores(
                image.memory_set@.token,
                bytes_of(args@),
                ustack_top as int,
                args.len() as int,
            ),
            final(kernel)@ == (KernelState {
                processes: old(kernel)@.processes.insert(
                    pid,
                    old(kernel)@.processes[pid].after_exec(
                        image.memory_set@,
                        image.ustack_base,
                        image.entry_point,
                        ustack_top,
                        trap_cx_ppn,
                        entry,
                        bytes_of(args@),
                    ),
                ),
                ..old(kernel)@
            }),
            final(kernel).wf(),
    {
        let ghost start = kernel@;
        let ghost after = start.processes[pid].after_exec(
            image.memory_set@,
            image.ustack_base,
            image.entry_point,
            ustack_top,
            trap_cx_ppn,
            entry,
            bytes_of(args@),
        );
        let new_token: usize = image.memory_set.token();
        let mut task = kernel.processes.get(pid).get_task(0);
        let res = task.res.unwrap();
        // push arguments on user stack
        let frame = push_args(new_token, ustack_top, &args);
        // initialize trap_cx
        let mut trap_cx = TrapContext::app_init_context(
            image.entry_point,
            frame.user_sp,
            entry.satp,
            task.kstack_top,
            entry.trap_handler,
        );
        trap_cx.set_reg(A0, args.len());
        trap_cx.set_reg(A1, frame.argv_base);
        task.res = Some(
            TaskUserRes { tid: res.tid, ustack_base: image.ustack_base, ustack_top },
        );
        task.trap_cx_ppn = trap_cx_ppn;
        task.trap_cx = trap_cx;
        let inner = kernel.processes.get_mut(pid);
        // substitute memory_set
        inner.memory_set = image.memory_set;
        inner.tasks[0] = Some(task);
        assert(inner@ =~= after);
        proof {
            law_change_keeps_kernel(start, pid, after);
        }
        frame.stores
    }

    /// A copy of the process `parent`. Only supports processes with a single thread.
    ///
    /// `token` is the root of the copied address space; `kstack_top` and `trap_cx_ppn` are where
    /// the kernel stack and the trap context of the new thread stand.
    pub fn fork(
        kernel: &mut Kernel,
        parent: usize,
        token: usize,
        kstack_top: usize,
        trap_cx_ppn: usize,
    ) -> (child: usize)
        requires
            old(kernel).wf(),
            old(kernel)@.pids.has_next(),
            old(kernel)@.processes.contains_key(parent),
            old(kernel)@.processes[parent].single_threaded(),
        ensures
            child == old(kernel)@.pids.next_id(),
            final(kernel)@ == old(kernel)@.after_fork(parent, token, kstack_top, trap_cx_ppn),
            final(kernel).wf(),
    {
        let ghost start = kernel@;
        let ghost process = kernel@.processes[parent];
        proof {
            lemma_fork_wf(start, parent, token, kstack_top, trap_cx_ppn);
        }
        // clone parent's memory_set completely
        let parent_inner = kernel.processes.get(parent);
        let memory_set = MemorySet::from_existed_user(&parent_inner.memory_set, token);
        // copy fd table
        let fd_table = copy_fd_table(&parent_inner.fd_table);
        let main = parent_inner.get_task(0);
        // alloc a pid
        let pid: usize = kernel.pids.allocate();
        let mut inner = ProcessControlBlockInner::blank(memory_set, Some(parent), fd_table);
        // add child
        kernel.processes.get_mut(parent).children.push(pid);
        // create main thread of child process
        let res = main.res.unwrap();
        let tid: usize = inner.alloc_tid();
        // modify kstack_top in trap_cx of this thread
        let mut trap_cx = main.trap_cx;
        trap_cx.kernel_sp = kstack_top;
        let task = TaskControlBlock {
            res: Some(
                TaskUserRes { tid, ustack_base: res.ustack_base, ustack_top: res.ustack_top },
            ),
            kstack_top,
            trap_cx_ppn,
            trap_cx,
        };
        // attach task to child process
        inner.tasks.push(Some(task));
        assert(inner@ =~= process.forked(parent, token, kstack_top, trap_cx_ppn));
        kernel.processes.insert_into_pid2process(
            ProcessControlBlock { pid: PidHandle(pid), inner },
        );
        // add this thread to scheduler
        kernel.add_task(TaskRef { pid, tid });
        assert(kernel@ =~= start.after_fork(parent, token, kstack_top, trap_cx_ppn));
        pid
    }
}

/// A table of the same open files.
fn copy_fd_table(fd_table: &Vec<Option<FileRef>>) -> (copy: Vec<Option<FileRef>>)
    ensures
        copy@ == fd_table@,
{
    let mut copy: Vec<Option<FileRef>> = Vec::new();
    let mut i: usize = 0;
    while i < fd_table.len()
        invariant
            i <= fd_table.len(),
            copy@ == fd_table@.take(i as int),
        decreases fd_table.len() - i,
    {
        copy.push(fd_table[i]);
        i = i + 1;
        assert(copy@ =~= fd_table@.take(i as int));
    }
    assert(copy@ =~= fd_table@);
    copy
}

} // verus!
