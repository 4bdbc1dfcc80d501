//! Processes.

use super::banker::{is_safe, rows, single_need};
use super::deadlock::{
    entry, lemma_mutex_matrices, lemma_semaphore_matrices, lemma_used, mutex_allocation,
    mutex_available, mutex_deadlock, semaphore_allocation, semaphore_available, semaphore_deadlock,
    used,
};
use super::id::{law_recycles_last, Ids, PidHandle, RecycleAllocator};
use super::thread::TaskControlBlock;
use crate::fs::file::FileRef;
use crate::fs::name_table::NameTable;
use crate::mm::memory_set::{Memory, MemorySet};
use vstd::prelude::*;

verus! {

/// Signals that wait for a process.
#[derive(Clone, Copy, Debug, PartialEq, Eq, Structural)]
pub struct SignalFlags {
    pub bits: u32,
}

impl SignalFlags {
    /// No signal waits.
    pub fn empty() -> (result: SignalFlags)
        ensures
            result.bits == 0,
    {
        SignalFlags { bits: 0 }
    }
}

/// What a process consists of.
#[verifier::ext_equal]
pub struct ProcessState {
    pub is_zombie: bool,
    pub memory_set: Memory,
    pub parent: Option<usize>,
    pub children: Seq<usize>,
    pub exit_code: i32,
    pub fd_table: Seq<Option<FileRef>>,
    pub names: Map<Seq<char>, usize>,
    pub links: Map<Seq<char>, Seq<char>>,
    pub signals: SignalFlags,
    pub tasks: Seq<Option<TaskControlBlock>>,
    pub tids: Ids,
    pub mutex_list: Seq<Option<usize>>,
    pub semaphore_list: Seq<Option<usize>>,
    pub condvar_list: Seq<Option<usize>>,
    pub deadlock_detect_enabled: bool,
    pub mutex_owner: Seq<Option<usize>>,
    pub semaphore_alloc: Seq<Seq<usize>>,
    pub semaphore_count: Seq<usize>,
}

impl ProcessState {
    /// Each name is that of an open file descriptor, and no two names share one.
    pub open spec fn names_open_files(self) -> bool {
        &&& forall|name: Seq<char>| #[trigger]
            self.names.contains_key(name) ==> self.is_open(self.names[name] as int)
        &&& forall|a: Seq<char>, b: Seq<char>|
            #![trigger self.names[a], self.names[b]]
            self.names.contains_key(a) && self.names.contains_key(b) && self.names[a]
                == self.names[b] ==> a == b
    }

    /// Whether a file is open at the descriptor `fd`.
    pub open spec fn is_open(self, fd: int) -> bool {
        0 <= fd < self.fd_table.len() && self.fd_table[fd] is Some
    }

    /// A thread stands in the list of threads at its number.
    pub open spec fn threads_numbered(self) -> bool {
        forall|i: int|
            0 <= i < self.tasks.len() ==> (#[trigger] self.tasks[i] matches Some(task)
                ==> task.res matches Some(res) ==> res.tid == i)
    }

    /// What every system call keeps.
    pub open spec fn wf(self) -> bool {
        &&& self.names_open_files()
        &&& self.links.dom().finite()
        &&& self.threads_numbered()
        &&& self.tids.wf()
    }

    /// Whether the process has a single thread, which has not exited.
    pub open spec fn single_threaded(self) -> bool {
        &&& self.tasks.len() == 1
        &&& self.tasks[0] matches Some(task) && task.res is Some
    }

    /// A process without threads, with nothing but its memory, its parent and its open files.
    pub open spec fn blank(
        memory_set: Memory,
        parent: Option<usize>,
        fd_table: Seq<Option<FileRef>>,
    ) -> ProcessState {
        ProcessState {
            is_zombie: false,
            memory_set,
            parent,
            children: Seq::empty(),
            exit_code: 0,
            fd_table,
            names: Map::empty(),
            links: Map::empty(),
            signals: SignalFlags { bits: 0 },
            tasks: Seq::empty(),
            tids: Ids::fresh(),
            mutex_list: Seq::empty(),
            semaphore_list: Seq::empty(),
            condvar_list: Seq::empty(),
            deadlock_detect_enabled: false,
            mutex_owner: Seq::empty(),
            semaphore_alloc: Seq::empty(),
            semaphore_count: Seq::empty(),
        }
    }

    /// The process with a main thread.
    pub open spec fn with_main_thread(self, task: TaskControlBlock) -> ProcessState {
        ProcessState { tasks: self.tasks.push(Some(task)), ..self.after_alloc_tid() }
    }

    /// The process with the descriptor `fd` in its table.
    pub open spec fn with_fd(self, fd: int) -> ProcessState {
        ProcessState { fd_table: padded(self.fd_table, fd + 1, None), ..self }
    }

    /// The process with one more thread number in use, and room for its semaphores.
    pub open spec fn after_alloc_tid(self) -> ProcessState {
        ProcessState {
            tids: self.tids.after_alloc(),
            semaphore_alloc: padded_columns(self.semaphore_alloc, self.tids.next_id() + 1),
            ..self
        }
    }

    /// The process with the thread number `tid` given back, and all that it held.
    pub open spec fn after_dealloc_tid(self, tid: usize) -> ProcessState {
        ProcessState {
            tids: self.tids.after_dealloc(tid),
            semaphore_alloc: cleared_columns(self.semaphore_alloc, tid as int),
            ..self
        }
    }

    /// The process with an owner entry for every mutex.
    pub open spec fn with_mutex_owners(self) -> ProcessState {
        ProcessState {
            mutex_owner: padded(self.mutex_owner, self.mutex_list.len() as int, None),
            ..self
        }
    }

    /// The process with a count for every semaphore, and an allocation entry for every semaphore
    /// and thread.
    pub open spec fn with_semaphore_tables(self) -> ProcessState {
        ProcessState {
            semaphore_alloc: padded_columns(
                padded(self.semaphore_alloc, self.semaphore_list.len() as int, Seq::empty()),
                self.tasks.len() as int,
            ),
            semaphore_count: padded(
                self.semaphore_count,
                self.semaphore_list.len() as int,
                0,
            ),
            ..self
        }
    }

    /// Whether `fd` is the lowest descriptor that is free; behind the last one all are.
    pub open spec fn lowest_free(self, fd: int) -> bool {
        &&& 0 <= fd <= self.fd_table.len()
        &&& !self.is_open(fd)
        &&& forall|k: int| 0 <= k < fd ==> self.is_open(k)
    }

    /// The lowest descriptor that is free.
    pub open spec fn free_fd(self) -> int {
        choose|fd: int| self.lowest_free(fd)
    }

    /// There is no other lowest free descriptor.
    pub proof fn lemma_free_fd(self, fd: int)
        requires
            self.lowest_free(fd),
        ensures
            self.free_fd() == fd,
    {
        let other = self.free_fd();
        assert(self.lowest_free(other));
        if other < fd {
            assert(self.is_open(other));
        } else if fd < other {
            assert(self.is_open(fd));
        }
    }
}

/// A row made at least `n` long with `fill`.
pub open spec fn padded<T>(row: Seq<T>, n: int, fill: T) -> Seq<T> {
    if n <= row.len() {
        row
    } else {
        row + Seq::new((n - row.len()) as nat, |i: int| fill)
    }
}

/// Every column made at least `n` long with zeros.
pub open spec fn padded_columns(columns: Seq<Seq<usize>>, n: int) -> Seq<Seq<usize>> {
    Seq::new(columns.len(), |c: int| padded(columns[c], n, 0))
}

/// The entry of thread `tid` made zero in every column that has one.
pub open spec fn cleared_columns(columns: Seq<Seq<usize>>, tid: int) -> Seq<Seq<usize>> {
    Seq::new(
        columns.len(),
        |c: int|
            if tid < columns[c].len() {
                columns[c].update(tid, 0)
            } else {
                columns[c]
            },
    )
}

/// A thread number that was given back and is handed out again holds nothing of any semaphore,
/// and every semaphore has an entry for it.
pub proof fn law_reused_tid_holds_nothing(process: ProcessState, tid: usize)
    ensures
        ({
            let freed = process.after_dealloc_tid(tid);
            let again = freed.after_alloc_tid();
            &&& freed.tids.next_id() == tid
            &&& again.tids == process.tids
            &&& again.semaphore_alloc.len() == process.semaphore_alloc.len()
            &&& forall|c: int|
                0 <= c < again.semaphore_alloc.len() ==> {
                    &&& tid < (#[trigger] again.semaphore_alloc[c]).len()
                    &&& again.semaphore_alloc[c][tid as int] == 0
                }
        }),
{
    law_recycles_last(process.tids, tid);
}

/// Giving a thread number back touches no entry of another thread.
pub proof fn law_dealloc_tid_keeps_others(process: ProcessState, tid: usize, c: int, other: int)
    requires
        0 <= c < process.semaphore_alloc.len(),
        0 <= other < process.semaphore_alloc[c].len(),
        other != tid,
    ensures
        process.after_dealloc_tid(tid).semaphore_alloc[c].len()
            == process.semaphore_alloc[c].len(),
        process.after_dealloc_tid(tid).semaphore_alloc[c][other]
            == process.semaphore_alloc[c][other],
{
}

/// Once the tables are made, they cover all mutexes, semaphores and threads; what stood in them
/// is unchanged, what is new is unowned and zero, and making them again changes nothing.
pub proof fn law_tables_cover(process: ProcessState)
    ensures
        ({
            let m = process.with_mutex_owners();
            &&& m.mutex_owner.len() >= m.mutex_list.len()
            &&& forall|j: int|
                0 <= j < m.mutex_owner.len() ==> #[trigger] m.mutex_owner[j] == if j
                    < process.mutex_owner.len() {
                    process.mutex_owner[j]
                } else {
                    None
                }
            &&& m.with_mutex_owners() == m
        }),
        ({
            let s = process.with_semaphore_tables();
            &&& s.semaphore_alloc.len() >= s.semaphore_list.len()
            &&& s.semaphore_count.len() >= s.semaphore_list.len()
            &&& forall|j: int|
                0 <= j < s.semaphore_alloc.len() ==> (#[trigger] s.semaphore_alloc[j]).len()
                    >= s.tasks.len()
            &&& forall|j: int, i: int|
                0 <= j < s.semaphore_alloc.len() && 0 <= i < s.semaphore_alloc[j].len()
                    ==> #[trigger] s.semaphore_alloc[j][i] == if j < process.semaphore_alloc.len() {
                    entry(process.semaphore_alloc[j], i)
                } else {
                    0
                }
            &&& forall|j: int|
                0 <= j < s.semaphore_count.len() ==> #[trigger] s.semaphore_count[j] == entry(
                    process.semaphore_count,
                    j,
                )
            &&& s.with_semaphore_tables() == s
        }),
{
    let s = process.with_semaphore_tables();
    assert(s.with_semaphore_tables().semaphore_alloc =~= s.semaphore_alloc);
}

/// The mutable part of a process.
pub struct ProcessControlBlockInner {
    /// is zombie?
    pub is_zombie: bool,
    /// memory set (address space)
    pub memory_set: MemorySet,
    /// pid of the parent process
    pub parent: Option<usize>,
    /// pids of the child processes
    pub children: Vec<usize>,
    /// exit code
    pub exit_code: i32,
    /// file descriptor table
    pub fd_table: Vec<Option<FileRef>>,
    /// file descriptors of the files opened by name
    pub names: NameTable<usize>,
    /// what file a name stands for
    pub links: NameTable<String>,
    /// signal flags
    pub signals: SignalFlags,
    /// tasks (also known as threads)
    pub tasks: Vec<Option<TaskControlBlock>>,
    /// task resource allocator
    pub task_res_allocator: RecycleAllocator,
    /// mutex list
    pub mutex_list: Vec<Option<usize>>,
    /// semaphore list
    pub semaphore_list: Vec<Option<usize>>,
    /// condvar list
    pub condvar_list: Vec<Option<usize>>,
    /// enable deadlock check
    pub deadlock_detect_enabled: bool,
    /// mutex owner
    pub mutex_owner: Vec<Option<usize>>,
    /// semaphore allocation: per semaphore, what each thread holds of it
    pub semaphore_alloc: Vec<Vec<usize>>,
    /// total semaphore count
    pub semaphore_count: Vec<usize>,
}

impl View for ProcessControlBlockInner {
    type V = ProcessState;

    open spec fn view(&self) -> ProcessState {
        ProcessState {
            is_zombie: self.is_zombie,
            memory_set: self.memory_set@,
            parent: self.parent,
            children: self.children@,
            exit_code: self.exit_code,
            fd_table: self.fd_table@,
            names: self.names@,
            links: self.links@,
            signals: self.signals,
            tasks: self.tasks@,
            tids: self.task_res_allocator@,
            mutex_list: self.mutex_list@,
            semaphore_list: self.semaphore_list@,
            condvar_list: self.condvar_list@,
            deadlock_detect_enabled: self.deadlock_detect_enabled,
            mutex_owner: self.mutex_owner@,
            semaphore_alloc: rows(self.semaphore_alloc@),
            semaphore_count: self.semaphore_count@,
        }
    }
}

impl ProcessControlBlockInner {
    /// A process without threads, with nothing but its memory, its parent and its open files.
    pub fn blank(
        memory_set: MemorySet,
        parent: Option<usize>,
        fd_table: Vec<Option<FileRef>>,
    ) -> (result: ProcessControlBlockInner)
        ensures
            result@ == ProcessState::blank(memory_set@, parent, fd_table@),
    {
        let result = ProcessControlBlockInner {
            is_zombie: false,
            memory_set,
            parent,
            children: Vec::new(),
            exit_code: 0,
            fd_table,
            names: NameTable::new(),
            links: NameTable::new(),
            signals: SignalFlags::empty(),
            tasks: Vec::new(),
            task_res_allocator: RecycleAllocator::new(),
            mutex_list: Vec::new(),
            semaphore_list: Vec::new(),
            condvar_list: Vec::new(),
            deadlock_detect_enabled: false,
            mutex_owner: Vec::new(),
            semaphore_alloc: Vec::new(),
            semaphore_count: Vec::new(),
        };
        assert(result@ =~= ProcessState::blank(memory_set@, parent, fd_table@));
        result
    }

    /// get the address of app's page table
    pub fn get_user_token(&self) -> (result: usize)
        ensures
            result == self@.memory_set.token,
    {
        self.memory_set.token()
    }

    /// allocate a new file descriptor: the lowest one that is free
    pub fn alloc_fd(&mut self) -> (fd: usize)
        ensures
            fd == old(self)@.free_fd(),
            old(self)@.lowest_free(fd as int),
            final(self)@ == old(self)@.with_fd(fd as int),
            old(self)@.wf() ==> final(self)@.wf(),
    {
        let mut fd: usize = 0;
        while fd < self.fd_table.len()
            invariant
                fd <= self.fd_table.len(),
                self@ == old(self)@,
                forall|k: int| 0 <= k < fd ==> self@.is_open(k),
            decreases self.fd_table.len() - fd,
        {
            if self.fd_table[fd].is_none() {
                proof {
                    old(self)@.lemma_free_fd(fd as int);
                }
                return fd;
            }
            fd = fd + 1;
        }
        proof {
            old(self)@.lemma_free_fd(fd as int);
        }
        self.fd_table.push(None);
        assert(self.fd_table@ =~= padded(old(self)@.fd_table, fd + 1, None));
        assert(self@ =~= old(self)@.with_fd(fd as int));
        assert(old(self)@.wf() ==> self@.wf()) by {
            assert(forall|k: int| old(self)@.is_open(k) ==> self@.is_open(k));
        }
        self.fd_table.len() - 1
    }

    /// allocate a new task id
    pub fn alloc_tid(&mut self) -> (tid: usize)
        requires
            old(self)@.tids.wf(),
            old(self)@.tids.has_next(),
        ensures
            tid == old(self)@.tids.next_id(),
            final(self)@ == old(self)@.after_alloc_tid(),
            old(self)@.wf() ==> final(self)@.wf(),
    {
        let tid: usize = self.task_res_allocator.allocate();
        assert(tid < usize::MAX) by {
            let ids = old(self)@.tids;
            if ids.recycled.len() > 0 {
                assert(ids.recycled[ids.recycled.len() - 1] < ids.next);
            }
        }
        pad_columns(&mut self.semaphore_alloc, tid + 1);
        tid
    }

    /// deallocate a task id
    pub fn dealloc_tid(&mut self, tid: usize)
        requires
            old(self)@.tids.wf(),
            old(self)@.tids.live(tid),
        ensures
            final(self)@ == old(self)@.after_dealloc_tid(tid),
            old(self)@.wf() ==> final(self)@.wf(),
    {
        self.task_res_allocator.deallocate(tid);
        let ghost before = self.semaphore_alloc@;
        let mut c: usize = 0;
        while c < self.semaphore_alloc.len()
            invariant
                c <= self.semaphore_alloc.len(),
                self.semaphore_alloc.len() == before.len(),
                rows(before) == old(self)@.semaphore_alloc,
                self@ == (ProcessState {
                    tids: old(self)@.tids.after_dealloc(tid),
                    semaphore_alloc: rows(self.semaphore_alloc@),
                    ..old(self)@
                }),
                forall|k: int|
                    0 <= k < c ==> (#[trigger] self.semaphore_alloc@[k])@ == cleared_columns(
                        rows(before),
                        tid as int,
                    )[k],
                forall|k: int|
                    c <= k < before.len() ==> #[trigger] self.semaphore_alloc@[k] == before[k],
            decreases self.semaphore_alloc.len() - c,
        {
            if tid < self.semaphore_alloc[c].len() {
                let column = &mut self.semaphore_alloc[c];
                column[tid] = 0;
            }
            c = c + 1;
        }
        assert(rows(self.semaphore_alloc@) =~= cleared_columns(
            old(self)@.semaphore_alloc,
            tid as int,
        ));
    }

    /// The mutex owners cover all mutexes.
    pub fn ensure_mutex_owner_len(&mut self)
        ensures
            final(self)@ == old(self)@.with_mutex_owners(),
            old(self)@.wf() ==> final(self)@.wf(),
    {
        while self.mutex_owner.len() < self.mutex_list.len()
            invariant
                self@ == (ProcessState {
                    mutex_owner: padded(
                        old(self)@.mutex_owner,
                        self.mutex_owner.len() as int,
                        None,
                    ),
                    ..old(self)@
                }),
                old(self)@.mutex_owner.len() <= self.mutex_owner.len(),
                self.mutex_owner.len() > old(self)@.mutex_owner.len() ==> self.mutex_owner.len()
                    <= self.mutex_list.len(),
            decreases self.mutex_list.len() - self.mutex_owner.len(),
        {
            self.mutex_owner.push(None);
            assert(self.mutex_owner@ =~= padded(
                old(self)@.mutex_owner,
                self.mutex_owner.len() as int,
                None,
            ));
        }
    }

    /// The semaphore allocation covers all semaphores and all threads, and the counts cover all
    /// semaphores.
    pub fn ensure_semaphore_alloc_len(&mut self)
        ensures
            final(self)@ == old(self)@.with_semaphore_tables(),
            old(self)@.wf() ==> final(self)@.wf(),
    {
        let n: usize = self.thread_count();
        let m: usize = self.semaphore_list.len();
        let ghost columns = self@.semaphore_alloc;
        pad_columns(&mut self.semaphore_alloc, n);
        while self.semaphore_alloc.len() < m
            invariant
                columns == old(self)@.semaphore_alloc,
                m == old(self)@.semaphore_list.len(),
                columns.len() <= self.semaphore_alloc.len(),
                self.semaphore_alloc.len() > columns.len() ==> self.semaphore_alloc.len() <= m,
                self@ == (ProcessState {
                    semaphore_alloc: padded_columns(
                        padded(columns, self.semaphore_alloc.len() as int, Seq::empty()),
                        n as int,
                    ),
                    ..old(self)@
                }),
            decreases m - self.semaphore_alloc.len(),
        {
            let ghost before = rows(self.semaphore_alloc@);
            let column: Vec<usize> = zeros(n);
            assert(column@ =~= padded(Seq::<usize>::empty(), n as int, 0));
            self.semaphore_alloc.push(column);
            assert(rows(self.semaphore_alloc@) =~= before.push(column@));
            assert(rows(self.semaphore_alloc@) =~= padded_columns(
                padded(columns, self.semaphore_alloc.len() as int, Seq::empty()),
                n as int,
            ));
        }
        assert(rows(self.semaphore_alloc@) == padded_columns(
            padded(columns, m as int, Seq::empty()),
            n as int,
        ));
        while self.semaphore_count.len() < m
            invariant
                columns == old(self)@.semaphore_alloc,
                m == old(self)@.semaphore_list.len(),
                old(self)@.semaphore_count.len() <= self.semaphore_count.len(),
                self.semaphore_count.len() > old(self)@.semaphore_count.len()
                    ==> self.semaphore_count.len() <= m,
                self@ == (ProcessState {
                    semaphore_alloc: padded_columns(
                        padded(columns, m as int, Seq::empty()),
                        n as int,
                    ),
                    semaphore_count: padded(
                        old(self)@.semaphore_count,
                        self.semaphore_count.len() as int,
                        0,
                    ),
                    ..old(self)@
                }),
            decreases m - self.semaphore_count.len(),
        {
            self.semaphore_count.push(0);
            assert(self.semaphore_count@ =~= padded(
                old(self)@.semaphore_count,
                self.semaphore_count.len() as int,
                0,
            ));
        }
    }

    /// Whether a thread that asks for a mutex would wait forever.
    pub fn will_deadlock_mutex(&self, req_tid: usize, req_mutex: usize) -> (result: bool)
        ensures
            result == mutex_deadlock(
                self@.mutex_owner,
                self@.tasks.len(),
                req_tid,
                req_mutex,
            ),
    {
        let m: usize = self.mutex_owner.len();
        let n: usize = self.thread_count();
        let ghost owners = self.mutex_owner@;
        if req_mutex >= m || req_tid >= n {
            return false;
        }
        let mut available: Vec<usize> = Vec::new();
        let mut j: usize = 0;
        while j < m
            invariant
                m == self.mutex_owner.len(),
                owners == self.mutex_owner@,
                j <= m,
                available@ == mutex_available(owners).take(j as int),
            decreases m - j,
        {
            available.push(
                if self.mutex_owner[j].is_none() {
                    1
                } else {
                    0
                },
            );
            j = j + 1;
            assert(available@ =~= mutex_available(owners).take(j as int));
        }
        assert(available@ =~= mutex_available(owners));
        // a thread that owns the mutex already does not wait for it
        if let Some(owner) = self.mutex_owner[req_mutex] {
            if owner == req_tid {
                return false;
            }
        }
        let mut allocation: Vec<Vec<usize>> = Vec::new();
        let mut i: usize = 0;
        while i < n
            invariant
                n == self.tasks.len(),
                m == self.mutex_owner.len(),
                owners == self.mutex_owner@,
                i <= n,
                rows(allocation@) == mutex_allocation(owners, n as nat).take(i as int),
            decreases n - i,
        {
            let ghost before = rows(allocation@);
            let row: Vec<usize> = self.mutexes_owned_by(i);
            assert(row@ =~= mutex_allocation(owners, n as nat)[i as int]);
            allocation.push(row);
            i = i + 1;
            assert(rows(allocation@) =~= before.push(row@));
            assert(rows(allocation@) =~= mutex_allocation(owners, n as nat).take(i as int));
        }
        assert(rows(allocation@) =~= mutex_allocation(owners, n as nat));
        let need: Vec<Vec<usize>> = need_of_one(n, m, req_tid, req_mutex, 1);
        proof {
            lemma_mutex_matrices(owners, n as nat, req_tid as int, req_mutex as int);
        }
        !is_safe(&available, &allocation, &need)
    }

    /// One for each mutex that the thread owns, zero for the others.
    fn mutexes_owned_by(&self, tid: usize) -> (row: Vec<usize>)
        ensures
            row@ == Seq::new(
                self@.mutex_owner.len(),
                |j: int|
                    if self@.mutex_owner[j] == Some(tid) {
                        1usize
                    } else {
                        0
                    },
            ),
    {
        let mut row: Vec<usize> = Vec::new();
        let mut j: usize = 0;
        while j < self.mutex_owner.len()
            invariant
                j <= self.mutex_owner.len(),
                row.len() == j,
                forall|k: int|
                    0 <= k < j ==> #[trigger] row@[k] == if self.mutex_owner@[k] == Some(tid) {
                        1usize
                    } else {
                        0
                    },
            decreases self.mutex_owner.len() - j,
        {
            let unit: usize = match self.mutex_owner[j] {
                Some(owner) => if owner == tid {
                    1
                } else {
                    0
                },
                None => 0,
            };
            row.push(unit);
            j = j + 1;
        }
        row
    }

    /// Whether a thread that asks for units of a semaphore would wait forever.
    pub fn will_deadlock_semaphore(
        &self,
        req_tid: usize,
        sem_id: usize,
        req_cnt: usize,
    ) -> (result: bool)
        requires
            sem_id < self@.semaphore_alloc.len() && req_tid < self@.tasks.len() ==> forall|j: int|
                0 <= j < self@.semaphore_alloc.len() ==> used(
                    #[trigger] self@.semaphore_alloc[j],
                    self@.tasks.len() as int,
                ) <= usize::MAX,
        ensures
            result == semaphore_deadlock(
                self@.semaphore_alloc,
                self@.semaphore_count,
                self@.tasks.len(),
                req_tid,
                sem_id,
                req_cnt,
            ),
    {
        let m: usize = self.semaphore_alloc.len();
        let n: usize = self.thread_count();
        let ghost columns = self@.semaphore_alloc;
        let ghost totals = self@.semaphore_count;
        if sem_id >= m || req_tid >= n {
            return false;
        }
        let mut available: Vec<usize> = Vec::new();
        let mut j: usize = 0;
        while j < m
            invariant
                m == self.semaphore_alloc.len(),
                n == self.tasks.len(),
                columns == self@.semaphore_alloc,
                totals == self@.semaphore_count,
                forall|k: int|
                    0 <= k < columns.len() ==> used(#[trigger] columns[k], n as int)
                        <= usize::MAX,
                j <= m,
                available@ == semaphore_available(columns, totals, n as nat).take(j as int),
            decreases m - j,
        {
            let total: usize = if j < self.semaphore_count.len() {
                self.semaphore_count[j]
            } else {
                0
            };
            assert(columns[j as int] == self.semaphore_alloc@[j as int]@);
            let in_use: usize = sum_used(&self.semaphore_alloc[j], n);
            available.push(
                if total < in_use {
                    0
                } else {
                    total - in_use
                },
            );
            j = j + 1;
            assert(available@ =~= semaphore_available(columns, totals, n as nat).take(j as int));
        }
        assert(available@ =~= semaphore_available(columns, totals, n as nat));
        let mut allocation: Vec<Vec<usize>> = Vec::new();
        let mut i: usize = 0;
        while i < n
            invariant
                n == self.tasks.len(),
                columns == self@.semaphore_alloc,
                i <= n,
                rows(allocation@) == semaphore_allocation(columns, n as nat).take(i as int),
            decreases n - i,
        {
            let ghost before = rows(allocation@);
            let row: Vec<usize> = self.semaphores_held_by(i);
            assert(row@ =~= semaphore_allocation(columns, n as nat)[i as int]);
            allocation.push(row);
            i = i + 1;
            assert(rows(allocation@) =~= before.push(row@));
            assert(rows(allocation@) =~= semaphore_allocation(columns, n as nat).take(i as int));
        }
        assert(rows(allocation@) =~= semaphore_allocation(columns, n as nat));
        let need: Vec<Vec<usize>> = need_of_one(n, m, req_tid, sem_id, req_cnt);
        proof {
            lemma_semaphore_matrices(
                columns,
                totals,
                n as nat,
                req_tid as int,
                sem_id as int,
                req_cnt,
            );
        }
        !is_safe(&available, &allocation, &need)
    }

    /// What the thread holds of each semaphore.
    fn semaphores_held_by(&self, tid: usize) -> (row: Vec<usize>)
        ensures
            row@ == Seq::new(
                self@.semaphore_alloc.len(),
                |j: int| entry(self@.semaphore_alloc[j], tid as int),
            ),
    {
        let mut row: Vec<usize> = Vec::new();
        let mut j: usize = 0;
        while j < self.semaphore_alloc.len()
            invariant
                j <= self.semaphore_alloc.len(),
                row.len() == j,
                forall|k: int|
                    0 <= k < j ==> #[trigger] row@[k] == entry(
                        self@.semaphore_alloc[k],
                        tid as int,
                    ),
            decreases self.semaphore_alloc.len() - j,
        {
            let column = &self.semaphore_alloc[j];
            row.push(
                if tid < column.len() {
                    column[tid]
                } else {
                    0
                },
            );
            j = j + 1;
        }
        row
    }

    /// the count of tasks (threads) in this process
    pub fn thread_count(&self) -> (result: usize)
        ensures
            result == self@.tasks.len(),
    {
        self.tasks.len()
    }

    /// get a task with tid in this process
    pub fn get_task(&self, tid: usize) -> (result: TaskControlBlock)
        requires
            tid < self@.tasks.len(),
            self@.tasks[tid as int] is Some,
        ensures
            self@.tasks[tid as int] == Some(result),
    {
        self.tasks[tid].unwrap()
    }
}

/// Process Control Block
pub struct ProcessControlBlock {
    /// immutable
    pub pid: PidHandle,
    /// mutable
    pub inner: ProcessControlBlockInner,
}

impl ProcessControlBlock {
    /// The mutable part, to be changed.
    pub fn inner_exclusive_access(&mut self) -> (inner: &mut ProcessControlBlockInner)
        ensures
            *inner == old(self).inner,
            final(self).inner == *final(inner),
            final(self).pid == old(self).pid,
    {
        &mut self.inner
    }

    /// get pid
    pub fn getpid(&self) -> (result: usize)
        ensures
            result == self.pid.0,
    {
        self.pid.0
    }
}

/// A row of zeros.
fn zeros(n: usize) -> (row: Vec<usize>)
    ensures
        row@ == Seq::new(n as nat, |i: int| 0usize),
{
    let mut row: Vec<usize> = Vec::new();
    row.resize(n, 0);
    assert(row@ =~= Seq::new(n as nat, |i: int| 0usize));
    row
}

/// The need matrix of a state in which only thread `tid` waits, for `count` units of resource
/// `id`.
fn need_of_one(n: usize, m: usize, tid: usize, id: usize, count: usize) -> (need: Vec<Vec<usize>>)
    requires
        id < m,
    ensures
        rows(need@) == single_need(n as nat, m as nat, tid as int, id as int, count),
{
    let ghost wanted = single_need(n as nat, m as nat, tid as int, id as int, count);
    let mut need: Vec<Vec<usize>> = Vec::new();
    let mut i: usize = 0;
    while i < n
        invariant
            id < m,
            i <= n,
            wanted == single_need(n as nat, m as nat, tid as int, id as int, count),
            rows(need@) == wanted.take(i as int),
        decreases n - i,
    {
        let ghost before = rows(need@);
        let mut row: Vec<usize> = zeros(m);
        if i == tid {
            row[id] = count;
        }
        assert(row@ =~= wanted[i as int]);
        need.push(row);
        i = i + 1;
        assert(rows(need@) =~= before.push(row@));
        assert(rows(need@) =~= wanted.take(i as int));
    }
    assert(rows(need@) =~= wanted);
    need
}

/// What the first `n` threads hold of a semaphore.
fn sum_used(column: &Vec<usize>, n: usize) -> (result: usize)
    requires
        used(column@, n as int) <= usize::MAX,
    ensures
        result == used(column@, n as int),
{
    let mut sum: usize = 0;
    let mut i: usize = 0;
    while i < n
        invariant
            used(column@, n as int) <= usize::MAX,
            i <= n,
            sum == used(column@, i as int),
        decreases n - i,
    {
        proof {
            lemma_used(column@, i + 1, n as int);
        }
        if i < column.len() {
            sum = sum + column[i];
        }
        i = i + 1;
    }
    sum
}

/// Makes every column at least `n` long with zeros.
fn pad_columns(columns: &mut Vec<Vec<usize>>, n: usize)
    ensures
        final(columns).len() == old(columns).len(),
        rows(final(columns)@) == padded_columns(rows(old(columns)@), n as int),
{
    let ghost before = columns@;
    let mut c: usize = 0;
    while c < columns.len()
        invariant
            c <= columns.len(),
            columns.len() == before.len(),
            forall|k: int|
                0 <= k < c ==> (#[trigger] columns@[k])@ == padded(before[k]@, n as int, 0),
            forall|k: int| c <= k < before.len() ==> #[trigger] columns@[k] == before[k],
        decreases columns.len() - c,
    {
        if columns[c].len() < n {
            let ghost row = columns@[c as int]@;
            let column = &mut columns[c];
            column.resize(n, 0);
            assert(columns@[c as int]@ =~= padded(row, n as int, 0)) by {
                assert(columns@[c as int]@.subrange(0, row.len() as int) == row);
                assert forall|i: int| 0 <= i < row.len() implies columns@[c as int]@[i] == row[i] by {
                    assert(columns@[c as int]@.subrange(0, row.len() as int)[i] == row[i]);
                }
            }
        }
        c = c + 1;
    }
    assert(rows(columns@) =~= padded_columns(rows(before), n as int));
}

} // verus!
