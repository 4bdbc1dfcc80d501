//! All processes.

use super::id::{Ids, RecycleAllocator};
use super::process::{ProcessControlBlock, ProcessControlBlockInner, ProcessState};
use super::thread::TaskRef;
use crate::assoc::{as_map, lemma_empty, lemma_entry, lemma_push, lemma_remove, lemma_update};
use vstd::prelude::*;

verus! {

/// The numbers of the processes.
spec fn pids(list: Seq<ProcessControlBlock>) -> Seq<usize> {
    list.map_values(|process: ProcessControlBlock| process.pid.0)
}

/// What the processes consist of.
spec fn states(list: Seq<ProcessControlBlock>) -> Seq<ProcessState> {
    list.map_values(|process: ProcessControlBlock| process.inner@)
}

/// The processes that have not been waited for.
pub struct ProcessTable {
    list: Vec<ProcessControlBlock>,
}

impl View for ProcessTable {
    type V = Map<usize, ProcessState>;

    closed spec fn view(&self) -> Map<usize, ProcessState> {
        as_map(pids(self.list@), states(self.list@))
    }
}

impl ProcessTable {
    /// Each number is that of one process.
    pub closed spec fn wf(&self) -> bool {
        pids(self.list@).no_duplicates()
    }

    /// A table without processes.
    pub fn new() -> (result: ProcessTable)
        ensures
            result.wf(),
            result@ == Map::<usize, ProcessState>::empty(),
    {
        let result = ProcessTable { list: Vec::new() };
        proof {
            lemma_empty(pids(result.list@), states(result.list@));
        }
        result
    }

    /// Where the process `pid` stands.
    fn find(&self, pid: usize) -> (result: Option<usize>)
        ensures
            match result {
                Some(i) => i < self.list.len() && pids(self.list@)[i as int] == pid,
                None => !self@.contains_key(pid),
            },
    {
        let mut i: usize = 0;
        while i < self.list.len()
            invariant
                i <= self.list.len(),
                forall|k: int| 0 <= k < i ==> #[trigger] pids(self.list@)[k] != pid,
            decreases self.list.len() - i,
        {
            if self.list[i].getpid() == pid {
                return Some(i);
            }
            i = i + 1;
        }
        None
    }

    /// Whether there is a process `pid`.
    pub fn contains(&self, pid: usize) -> (result: bool)
        requires
            self.wf(),
        ensures
            result == self@.contains_key(pid),
    {
        match self.find(pid) {
            Some(i) => {
                proof {
                    lemma_entry(pids(self.list@), states(self.list@), i as int);
                }
                true
            },
            None => false,
        }
    }

    /// The control block of the process `pid`.
    pub fn block(&self, pid: usize) -> (process: &ProcessControlBlock)
        requires
            self.wf(),
            self@.contains_key(pid),
        ensures
            process.pid.0 == pid,
            process.inner@ == self@[pid],
    {
        let i: usize = self.find(pid).unwrap();
        proof {
            lemma_entry(pids(self.list@), states(self.list@), i as int);
        }
        &self.list[i]
    }

    /// The process `pid`, to be looked at.
    pub fn get(&self, pid: usize) -> (inner: &ProcessControlBlockInner)
        requires
            self.wf(),
            self@.contains_key(pid),
        ensures
            inner@ == self@[pid],
    {
        &self.block(pid).inner
    }

    /// The process `pid`, to be changed.
    pub fn get_mut(&mut self, pid: usize) -> (inner: &mut ProcessControlBlockInner)
        requires
            old(self).wf(),
            old(self)@.contains_key(pid),
        ensures
            inner@ == old(self)@[pid],
            final(self).wf(),
            final(self)@ == old(self)@.insert(pid, final(inner)@),
    {
        let i: usize = self.find(pid).unwrap();
        proof {
            lemma_entry(pids(self.list@), states(self.list@), i as int);
            let list = self.list@;
            assert forall|changed: ProcessControlBlock| changed.pid == list[i as int].pid implies {
                &&& pids(#[trigger] list.update(i as int, changed)) == pids(list)
                &&& as_map(pids(list), states(list.update(i as int, changed))) == as_map(
                    pids(list),
                    states(list),
                ).insert(pid, changed.inner@)
            } by {
                let after = list.update(i as int, changed);
                lemma_update(pids(list), states(list), i as int, changed.inner@);
                assert(pids(after) =~= pids(list));
                assert(states(after) =~= states(list).update(i as int, changed.inner@));
            }
        }
        self.list[i].inner_exclusive_access()
    }

    /// Adds a process with a new number.
    pub fn insert_into_pid2process(&mut self, process: ProcessControlBlock)
        requires
            old(self).wf(),
            !old(self)@.contains_key(process.pid.0),
        ensures
            final(self).wf(),
            final(self)@ == old(self)@.insert(process.pid.0, process.inner@),
    {
        let ghost before = self.list@;
        proof {
            lemma_push(pids(before), states(before), process.pid.0, process.inner@);
        }
        self.list.push(process);
        assert(pids(self.list@) =~= pids(before).push(process.pid.0));
        assert(states(self.list@) =~= states(before).push(process.inner@));
    }

    /// Takes the process `pid` out.
    pub fn remove(&mut self, pid: usize) -> (process: ProcessControlBlock)
        requires
            old(self).wf(),
            old(self)@.contains_key(pid),
        ensures
            process.pid.0 == pid,
            process.inner@ == old(self)@[pid],
            final(self).wf(),
            final(self)@ == old(self)@.remove(pid),
    {
        let at: usize = self.find(pid).unwrap();
        let ghost before = self.list@;
        proof {
            lemma_entry(pids(before), states(before), at as int);
            lemma_remove(pids(before), states(before), at as int);
        }
        let process = self.list.remove(at);
        assert(pids(self.list@) =~= pids(before).remove(at as int));
        assert(states(self.list@) =~= states(before).remove(at as int));
        process
    }
}

/// The state of the kernel.
#[verifier::ext_equal]
pub struct KernelState {
    pub pids: Ids,
    pub processes: Map<usize, ProcessState>,
    pub ready_queue: Seq<TaskRef>,
}

impl KernelState {
    /// The children of a process are processes of their own whose parent it is, each listed once.
    pub open spec fn children_known(self, pid: usize) -> bool {
        let children = self.processes[pid].children;
        &&& children.no_duplicates()
        &&& forall|k: int|
            0 <= k < children.len() ==> {
                &&& self.processes.contains_key(#[trigger] children[k])
                &&& children[k] != pid
                &&& self.processes[children[k]].parent == Some(pid)
            }
    }

    /// The numbers in use are those of the processes, and the processes form families.
    pub open spec fn wf(self) -> bool {
        &&& self.pids.wf()
        &&& forall|pid: usize|
            #![trigger self.processes.contains_key(pid)]
            #![trigger self.pids.live(pid)]
            self.processes.contains_key(pid) <==> self.pids.live(pid)
        &&& forall|pid: usize| #[trigger]
            self.processes.contains_key(pid) ==> {
                &&& self.processes[pid].wf()
                &&& self.children_known(pid)
            }
    }
}

/// All processes, and the threads that are ready to run.
pub struct Kernel {
    /// numbers of processes
    pub pids: RecycleAllocator,
    /// processes by number
    pub processes: ProcessTable,
    /// threads in the order in which they are to run
    pub ready_queue: Vec<TaskRef>,
}

impl View for Kernel {
    type V = KernelState;

    open spec fn view(&self) -> KernelState {
        KernelState {
            pids: self.pids@,
            processes: self.processes@,
            ready_queue: self.ready_queue@,
        }
    }
}

impl Kernel {
    /// The table of processes is in order, and so is what it holds.
    pub open spec fn wf(&self) -> bool {
        &&& self.processes.wf()
        &&& self@.wf()
    }

    /// A kernel without processes.
    pub fn new() -> (result: Kernel)
        ensures
            result.wf(),
            result@ == (KernelState {
                pids: Ids::fresh(),
                processes: Map::empty(),
                ready_queue: Seq::empty(),
            }),
    {
        let result = Kernel {
            pids: RecycleAllocator::new(),
            processes: ProcessTable::new(),
            ready_queue: Vec::new(),
        };
        assert(result@.ready_queue =~= Seq::<TaskRef>::empty());
        result
    }

    /// Puts a thread at the end of the ready queue.
    pub fn add_task(&mut self, task: TaskRef)
        ensures
            final(self)@ == (KernelState {
                ready_queue: old(self)@.ready_queue.push(task),
                ..old(self)@
            }),
            final(self).processes == old(self).processes,
    {
        self.ready_queue.push(task);
    }
}

} // verus!
