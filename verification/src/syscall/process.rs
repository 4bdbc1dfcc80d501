//! Process management syscalls

use super::number::{as_signed, as_unsigned, to_isize, to_usize};
use crate::config::PAGE_SIZE;
use crate::mm::bytes::{
    law_bytes_of_value, le_bytes, le_value, lemma_le_bytes_len, lemma_word_fits, word_bytes,
};
use crate::mm::memory_set::{
    area_between, first_spanning, page_floor, MapArea, MapPermission, Memory,
};
use crate::mm::page_table::{mapped, phys, virtual_to_phys, PageTable};
use crate::mm::store::{PhysByte, StoreValue, UserStore};
use crate::task::argv::{argv_stores, bytes_of, frame_size};
use crate::task::id::law_dealloc_frees;
use crate::task::lifecycle::{law_change_keeps_kernel, ElfImage};
use crate::task::manager::{Kernel, KernelState};
use crate::task::process::{ProcessControlBlock, ProcessControlBlockInner, ProcessState};
use crate::task::thread::{KernelEntry, TaskControlBlock};
use crate::trap::A0;
use vstd::layout::size_of;
use vstd::prelude::*;

verus! {

/// `len` rounded up to whole pages.
pub open spec fn whole_pages(len: int) -> int {
    (len + PAGE_SIZE - 1) / PAGE_SIZE as int * PAGE_SIZE
}

/// Where a mapping of `len` bytes from `start` on ends.
pub open spec fn mapping_end(start: int, len: int) -> int {
    start + whole_pages(len)
}

/// Whether the page `vpn` is in an area, or right behind it.
pub open spec fn touches(area: MapArea, vpn: int) -> bool {
    area.start_vpn <= vpn <= area.end_vpn
}

/// Whether the page of `start` or the page of `end` is in an area, or right behind it. `end` is
/// where a mapping ends, so for one of whole pages its page is the one behind the last.
pub open spec fn in_the_way(area: MapArea, start: int, end: int) -> bool {
    touches(area, page_floor(start)) || touches(area, page_floor(end))
}

/// What the protection bits `port` allow a user program: reading, writing and executing.
pub open spec fn permission_of(port: usize) -> MapPermission {
    MapPermission {
        read: port & 1 != 0,
        write: port & 2 != 0,
        execute: port & 4 != 0,
        user: true,
    }
}

impl Memory {
    /// Whether `len` bytes from `start` on can be mapped.
    pub open spec fn can_map(self, start: usize, len: usize) -> bool {
        forall|i: int|
            0 <= i < self.areas.len() ==> !in_the_way(
                #[trigger] self.areas[i],
                start as int,
                mapping_end(start as int, len as int),
            )
    }

    /// The memory once they are mapped.
    pub open spec fn after_mmap(self, start: usize, len: usize, port: usize) -> Memory {
        Memory {
            areas: self.areas.push(
                area_between(
                    start,
                    mapping_end(start as int, len as int) as usize,
                    permission_of(port),
                ),
            ),
            ..self
        }
    }

    /// Whether area `i` is the one that `len` bytes from `start` on were mapped as.
    pub open spec fn mapping_at(self, start: usize, len: usize, i: int) -> bool {
        first_spanning(
            self.areas,
            page_floor(start as int),
            page_floor(mapping_end(start as int, len as int)),
            i,
        )
    }

    /// The memory without area `i`.
    pub open spec fn without_area(self, i: int) -> Memory {
        Memory { areas: self.areas.remove(i), ..self }
    }
}

/// What mapping or unmapping memory comes to.
#[derive(Clone, Copy, Debug, PartialEq, Eq, Structural)]
pub struct MapOutcome {
    /// what the call returns
    pub ret: isize,
    /// the area whose pages are to be mapped or unmapped first
    pub area: Option<MapArea>,
}

/// map `len` bytes of memory at `start`
pub fn sys_mmap(
    inner: &mut ProcessControlBlockInner,
    start: usize,
    len: usize,
    port: usize,
) -> (outcome: MapOutcome)
    requires
        len + PAGE_SIZE <= usize::MAX,
        mapping_end(start as int, len as int) <= usize::MAX,
    ensures
        old(inner)@.wf() ==> final(inner)@.wf(),
        if old(inner)@.memory_set.can_map(start, len) {
            &&& outcome.ret == 0
            &&& outcome.area == Some(
                old(inner)@.memory_set.after_mmap(start, len, port).areas.last(),
            )
            &&& final(inner)@ == (ProcessState {
                memory_set: old(inner)@.memory_set.after_mmap(start, len, port),
                ..old(inner)@
            })
        } else {
            &&& outcome == (MapOutcome { ret: (-1) as isize, area: None })
            &&& final(inner)@ == old(inner)@
        },
{
    let pages: usize = (len + PAGE_SIZE - 1) / PAGE_SIZE;
    assert(pages * PAGE_SIZE == whole_pages(len as int));
    let end: usize = start + pages * PAGE_SIZE;
    let ghost memory = inner@.memory_set;
    let mut i: usize = 0;
    while i < inner.memory_set.area_count()
        invariant
            *inner == *old(inner),
            memory == inner@.memory_set,
            end == mapping_end(start as int, len as int),
            i <= memory.areas.len(),
            forall|k: int|
                0 <= k < i ==> !in_the_way(#[trigger] memory.areas[k], start as int, end as int),
        decreases memory.areas.len() - i,
    {
        let area = inner.memory_set.area(i);
        if area.start_vpn <= start / PAGE_SIZE && start / PAGE_SIZE <= area.end_vpn {
            assert(in_the_way(memory.areas[i as int], start as int, end as int));
            return MapOutcome { ret: -1, area: None };
        }
        if area.start_vpn <= end / PAGE_SIZE && end / PAGE_SIZE <= area.end_vpn {
            assert(in_the_way(memory.areas[i as int], start as int, end as int));
            return MapOutcome { ret: -1, area: None };
        }
        i = i + 1;
    }
    let permission = MapPermission {
        read: port & 1 != 0,
        write: port & 2 != 0,
        execute: port & 4 != 0,
        user: true,
    };
    inner.memory_set.insert_framed_area(start, end, permission);
    let added: usize = inner.memory_set.area_count() - 1;
    MapOutcome { ret: 0, area: Some(inner.memory_set.area(added)) }
}

/// unmap the `len` bytes of memory at `start`
pub fn sys_munmap(
    inner: &mut ProcessControlBlockInner,
    start: usize,
    len: usize,
) -> (outcome: MapOutcome)
    requires
        start % PAGE_SIZE == 0 ==> len + PAGE_SIZE <= usize::MAX,
        start % PAGE_SIZE == 0 ==> mapping_end(start as int, len as int) <= usize::MAX,
    ensures
        old(inner)@.wf() ==> final(inner)@.wf(),
        if start % PAGE_SIZE == 0 && exists|i: int| #[trigger]
            old(inner)@.memory_set.mapping_at(start, len, i) {
            &&& outcome.ret == 0
            &&& exists|i: int|
                {
                    &&& #[trigger] old(inner)@.memory_set.mapping_at(start, len, i)
                    &&& outcome.area == Some(old(inner)@.memory_set.areas[i])
                    &&& final(inner)@ == (ProcessState {
                        memory_set: old(inner)@.memory_set.without_area(i),
                        ..old(inner)@
                    })
                }
        } else {
            &&& outcome == (MapOutcome { ret: (-1) as isize, area: None })
            &&& final(inner)@ == old(inner)@
        },
{
    if start % PAGE_SIZE != 0 {
        return MapOutcome { ret: -1, area: None };
    }
    let pages: usize = (len + PAGE_SIZE - 1) / PAGE_SIZE;
    assert(pages * PAGE_SIZE == whole_pages(len as int));
    let end: usize = start + pages * PAGE_SIZE;
    let ghost memory = inner@.memory_set;
    match inner.memory_set.find_area(start / PAGE_SIZE, end / PAGE_SIZE) {
        Some(at) => {
            assert(memory.mapping_at(start, len, at as int));
            let area = inner.memory_set.area(at);
            inner.memory_set.unmap_area(start, end);
            assert(inner@ =~= ProcessState {
                memory_set: memory.without_area(at as int),
                ..old(inner)@
            });
            MapOutcome { ret: 0, area: Some(area) }
        },
        None => MapOutcome { ret: -1, area: None },
    }
}

/// A time in whole seconds and microseconds.
#[derive(Clone, Copy, Debug, PartialEq, Eq, Structural)]
pub struct TimeVal {
    pub sec: usize,
    pub usec: usize,
}

/// Microseconds of a second.
pub const USEC_PER_SEC: usize = 1_000_000;

impl TimeVal {
    /// The time of `us` microseconds.
    pub open spec fn of_us(us: usize) -> TimeVal {
        TimeVal { sec: us / USEC_PER_SEC, usec: us % USEC_PER_SEC }
    }

    /// The time as it stands in memory.
    pub open spec fn bytes(self) -> Seq<u8> {
        le_bytes(self.sec as int, size_of::<usize>()) + le_bytes(
            self.usec as int,
            size_of::<usize>(),
        )
    }
}

/// How many bytes a time takes.
pub open spec fn time_size() -> int {
    2 * size_of::<usize>() as int
}

/// What asking for the time comes to.
pub struct TimeOutcome {
    /// what the call returns
    pub ret: isize,
    /// the bytes that are to be written first
    pub stores: Vec<PhysByte>,
}

/// get time with second and microsecond: `us` is the time now, `ts` where the program wants it.
/// The time may lie across two pages, so each byte goes where its own address leads.
pub fn sys_get_time(table: &PageTable, ts: usize, _tz: usize, us: usize) -> (outcome: TimeOutcome)
    requires
        table.wf(),
        ts + time_size() - 1 <= usize::MAX,
        forall|k: int| 0 <= k < time_size() ==> mapped(table@, #[trigger] (ts + k)),
    ensures
        outcome.ret == 0,
        outcome.stores@ == Seq::new(
            time_size() as nat,
            |k: int|
                PhysByte {
                    addr: phys(table@, ts + k) as usize,
                    value: TimeVal::of_us(us).bytes()[k],
                },
        ),
{
    let time = TimeVal { sec: us / USEC_PER_SEC, usec: us % USEC_PER_SEC };
    let mut bytes: Vec<u8> = word_bytes(time.sec);
    let mut usec_bytes: Vec<u8> = word_bytes(time.usec);
    bytes.append(&mut usec_bytes);
    proof {
        lemma_le_bytes_len(time.sec as int, size_of::<usize>());
        lemma_le_bytes_len(time.usec as int, size_of::<usize>());
    }
    let mut stores: Vec<PhysByte> = Vec::new();
    let mut k: usize = 0;
    while k < bytes.len()
        invariant
            table.wf(),
            ts + time_size() - 1 <= usize::MAX,
            forall|i: int| 0 <= i < time_size() ==> mapped(table@, #[trigger] (ts + i)),
            bytes@ == TimeVal::of_us(us).bytes(),
            bytes.len() == time_size(),
            k <= bytes.len(),
            stores.len() == k,
            forall|i: int|
                0 <= i < k ==> #[trigger] stores@[i] == (PhysByte {
                    addr: phys(table@, ts + i) as usize,
                    value: TimeVal::of_us(us).bytes()[i],
                }),
        decreases bytes.len() - k,
    {
        assert(mapped(table@, ts + k as int));
        let addr: usize = virtual_to_phys(table, ts + k);
        stores.push(PhysByte { addr, value: bytes[k] });
        k = k + 1;
    }
    TimeOutcome { ret: 0, stores }
}

/// The program reads the time back: the two words at `ts` are the seconds and the microseconds
/// of `us`.
pub proof fn law_time_readable(us: usize)
    ensures
        ({
            let time = TimeVal::of_us(us);
            let w = size_of::<usize>() as int;
            &&& time.bytes().len() == time_size()
            &&& le_value(time.bytes().take(w)) == time.sec
            &&& le_value(time.bytes().skip(w)) == time.usec
            &&& time.sec * USEC_PER_SEC + time.usec == us
            &&& time.usec < USEC_PER_SEC
        }),
{
    let time = TimeVal::of_us(us);
    let n = size_of::<usize>();
    lemma_le_bytes_len(time.sec as int, n);
    lemma_le_bytes_len(time.usec as int, n);
    lemma_word_fits(time.sec);
    lemma_word_fits(time.usec);
    law_bytes_of_value(time.sec as int, n);
    law_bytes_of_value(time.usec as int, n);
    assert(time.bytes().take(n as int) =~= le_bytes(time.sec as int, n));
    assert(time.bytes().skip(n as int) =~= le_bytes(time.usec as int, n));
}

/// Whether `pid`, as given to `waitpid`, means the process `child`; -1 means any.
pub open spec fn selects(pid: isize, child: usize) -> bool {
    pid == -1 || as_unsigned(pid as int) == child
}

impl KernelState {
    /// Whether `pid` means child `k` of the process `parent`.
    pub open spec fn child_selected(self, parent: usize, pid: isize, k: int) -> bool {
        let children = self.processes[parent].children;
        0 <= k < children.len() && selects(pid, children[k])
    }

    /// Whether that child has exited, too.
    pub open spec fn child_reapable(self, parent: usize, pid: isize, k: int) -> bool {
        &&& self.child_selected(parent, pid, k)
        &&& self.processes[self.processes[parent].children[k]].is_zombie
    }

    /// Whether child `k` is the first one that `pid` means and that has exited.
    pub open spec fn first_reapable(self, parent: usize, pid: isize, k: int) -> bool {
        &&& self.child_reapable(parent, pid, k)
        &&& forall|i: int| 0 <= i < k ==> !self.child_reapable(parent, pid, i)
    }

    /// The kernel once child `k` of `parent` is gone.
    pub open spec fn after_reap(self, parent: usize, k: int) -> KernelState {
        let process = self.processes[parent];
        let child = process.children[k];
        KernelState {
            pids: self.pids.after_dealloc(child),
            processes: self.processes.insert(
                parent,
                ProcessState { children: process.children.remove(k), ..process },
            ).remove(child),
            ..self
        }
    }
}

/// What waiting for a child comes to.
#[derive(Clone, Copy, Debug, PartialEq, Eq, Structural)]
pub struct WaitOutcome {
    /// what the call returns
    pub ret: isize,
    /// the exit code, which is to be written first
    pub store: Option<UserStore>,
}

/// If there is not a child process whose pid is same as given, return -1.
/// Else if there is a child process but it is still running, return -2.
/// Else the first one that has exited is taken out: its pid is returned, and its exit code is to
/// be left at `exit_code_ptr`.
pub fn sys_waitpid(
    kernel: &mut Kernel,
    current: usize,
    pid: isize,
    exit_code_ptr: usize,
) -> (outcome: WaitOutcome)
    requires
        old(kernel).wf(),
        old(kernel)@.processes.contains_key(current),
    ensures
        final(kernel).wf(),
        if !exists|k: int| #[trigger] old(kernel)@.child_selected(current, pid, k) {
            &&& outcome == (WaitOutcome { ret: (-1) as isize, store: None })
            &&& final(kernel)@ == old(kernel)@
        } else if !exists|k: int| #[trigger] old(kernel)@.child_reapable(current, pid, k) {
            &&& outcome == (WaitOutcome { ret: (-2) as isize, store: None })
            &&& final(kernel)@ == old(kernel)@
        } else {
            exists|k: int|
                {
                    let parent = old(kernel)@.processes[current];
                    let child = parent.children[k];
                    &&& #[trigger] old(kernel)@.first_reapable(current, pid, k)
                    &&& outcome.ret == as_signed(child as int)
                    &&& outcome.store == Some(
                        UserStore {
                            token: parent.memory_set.token,
                            addr: exit_code_ptr,
                            value: StoreValue::Int(old(kernel)@.processes[child].exit_code),
                        },
                    )
                    &&& final(kernel)@ == old(kernel)@.after_reap(current, k)
                }
        },
        outcome.store is None <==> forall|k: int|
            0 <= k < old(kernel)@.processes[current].children.len() && (pid == -1 || pid
                == #[trigger] old(kernel)@.processes[current].children[k] || pid + usize::MAX + 1
                == old(kernel)@.processes[current].children[k])
                ==> !old(kernel)@.processes[old(kernel)@.processes[current].children[k]].is_zombie,
        outcome.store is None ==> (outcome.ret == -1 || outcome.ret == -2) && final(kernel)@ == old(
            kernel,
        )@,
        outcome.store matches Some(store) ==> exists|k: int|
            #![trigger old(kernel)@.processes[current].children[k]]
            {
                let parent = old(kernel)@.processes[current];
                let child = parent.children[k];
                &&& 0 <= k < parent.children.len()
                &&& pid == -1 || pid == child || pid + usize::MAX + 1 == child
                &&& old(kernel)@.processes[child].is_zombie
                &&& outcome.ret == child || outcome.ret + usize::MAX + 1 == child
                &&& store.token == parent.memory_set.token
                &&& store.addr == exit_code_ptr
                &&& store.value == StoreValue::Int(old(kernel)@.processes[child].exit_code)
                &&& !final(kernel)@.processes.contains_key(child)
            },
{
    let ghost start = kernel@;
    let wanted: usize = to_usize(pid);
    let count: usize = kernel.processes.get(current).children.len();
    let token: usize = kernel.processes.get(current).get_user_token();
    // find a child process
    let mut known: bool = false;
    let mut i: usize = 0;
    while i < count
        invariant
            start == old(kernel)@,
            kernel@ == start,
            kernel.wf(),
            start.processes.contains_key(current),
            count == start.processes[current].children.len(),
            token == start.processes[current].memory_set.token,
            wanted == as_unsigned(pid as int),
            i <= count,
            known <==> exists|k: int| k < i && #[trigger] start.child_selected(current, pid, k),
            forall|k: int| 0 <= k < i ==> !#[trigger] start.child_reapable(current, pid, k),
        decreases count - i,
    {
        let ghost seen = known;
        let child: usize = kernel.processes.get(current).children[i];
        assert(start.children_known(current));
        assert(start.processes.contains_key(start.processes[current].children[i as int]));
        if pid == -1 || wanted == child {
            assert(start.child_selected(current, pid, i as int));
            known = true;
            if kernel.processes.get(child).is_zombie {
                assert(start.first_reapable(current, pid, i as int));
                proof {
                    lemma_reap_wf(start, current, i as int);
                }
                let exit_code: i32 = kernel.processes.get(child).exit_code;
                let _ = kernel.processes.get_mut(current).children.remove(i);
                let _ = kernel.processes.remove(child);
                kernel.pids.deallocate(child);
                assert(kernel@ =~= start.after_reap(current, i as int));
                return WaitOutcome {
                    ret: to_isize(child),
                    store: Some(
                        UserStore { token, addr: exit_code_ptr, value: StoreValue::Int(exit_code) },
                    ),
                };
            }
        }
        i = i + 1;
    }
    proof {
        assert forall|k: int| !#[trigger] start.child_reapable(current, pid, k) by {}
        let children = start.processes[current].children;
        assert forall|k: int|
            0 <= k < children.len() && (pid == -1 || pid == #[trigger] children[k] || pid
                + usize::MAX + 1 == children[k]) implies !start.processes[children[k]].is_zombie by {
            assert(start.child_selected(current, pid, k));
            assert(!start.child_reapable(current, pid, k));
        }
        if known {
            let k = choose|k: int| k < i && #[trigger] start.child_selected(current, pid, k);
            assert(start.child_selected(current, pid, k));
        }
    }
    if known {
        WaitOutcome { ret: -2, store: None }
    } else {
        WaitOutcome { ret: -1, store: None }
    }
}

/// Taking a child out keeps the kernel in order.
proof fn lemma_reap_wf(kernel: KernelState, parent: usize, k: int)
    requires
        kernel.wf(),
        kernel.processes.contains_key(parent),
        0 <= k < kernel.processes[parent].children.len(),
    ensures
        kernel.after_reap(parent, k).wf(),
{
    let process = kernel.processes[parent];
    let child = process.children[k];
    let after = kernel.after_reap(parent, k);
    assert(kernel.children_known(parent));
    assert(kernel.processes.contains_key(child));
    law_dealloc_frees(kernel.pids, child);
    assert forall|pid: usize| #[trigger] after.processes.contains_key(pid) implies {
        &&& after.processes[pid].wf()
        &&& after.children_known(pid)
    } by {
        assert(kernel.processes.contains_key(pid));
        assert(kernel.children_known(pid));
        let before = kernel.processes[pid].children;
        let children = after.processes[pid].children;
        assert forall|j: int| 0 <= j < children.len() implies {
            &&& after.processes.contains_key(#[trigger] children[j])
            &&& children[j] != pid
            &&& after.processes[children[j]].parent == Some(pid)
        } by {
            let i = if pid == parent && j >= k {
                j + 1
            } else {
                j
            };
            assert(children[j] == before[i]);
            assert(kernel.processes.contains_key(before[i]));
        }
        assert(children.no_duplicates()) by {
            if pid == parent {
                assert forall|a: int, b: int|
                    0 <= a < children.len() && 0 <= b < children.len() && a != b implies children[a]
                    != children[b] by {
                    let p = if a < k {
                        a
                    } else {
                        a + 1
                    };
                    let q = if b < k {
                        b
                    } else {
                        b + 1
                    };
                    assert(children[a] == before[p] && children[b] == before[q]);
                }
            }
        }
    }
}

/// A change of the thread that runs.
#[derive(Clone, Copy, Debug, PartialEq, Eq, Structural)]
pub enum Switch {
    /// the current thread ends with this exit code
    Exit(i32),
    /// the current thread lets others run first
    Suspend,
}

/// task exits and submit an exit code
///
/// The call does not return to the program.
pub fn sys_exit(exit_code: i32) -> (switch: Switch)
    ensures
        switch == Switch::Exit(exit_code),
{
    Switch::Exit(exit_code)
}

/// What giving way comes to.
#[derive(Clone, Copy, Debug, PartialEq, Eq, Structural)]
pub struct YieldOutcome {
    /// what the call returns
    pub ret: isize,
    /// what is to be done first
    pub switch: Switch,
}

/// current task gives up resources for other tasks
pub fn sys_yield() -> (outcome: YieldOutcome)
    ensures
        outcome == (YieldOutcome { ret: 0, switch: Switch::Suspend }),
{
    YieldOutcome { ret: 0, switch: Switch::Suspend }
}

/// the number of the current process
pub fn sys_getpid(current: &ProcessControlBlock) -> (ret: isize)
    ensures
        ret == as_signed(current.pid.0 as int),
{
    to_isize(current.getpid())
}

impl ProcessState {
    /// The process with `value` as what the system call of its main thread returns.
    pub open spec fn returning(self, value: usize) -> ProcessState {
        let main = self.tasks[0]->0;
        ProcessState {
            tasks: self.tasks.update(
                0,
                Some(
                    TaskControlBlock { trap_cx: main.trap_cx.with_reg(A0 as int, value), ..main },
                ),
            ),
            ..self
        }
    }
}

impl KernelState {
    /// The kernel once the program of the process `parent` has forked: the child is told 0.
    pub open spec fn after_fork_call(
        self,
        parent: usize,
        token: usize,
        kstack_top: usize,
        trap_cx_ppn: usize,
    ) -> KernelState {
        let child = self.pids.next_id();
        let forked = self.after_fork(parent, token, kstack_top, trap_cx_ppn);
        KernelState {
            processes: forked.processes.insert(child, forked.processes[child].returning(0)),
            ..forked
        }
    }
}

/// current process forks a child process: the parent gets its pid, the child 0
pub fn sys_fork(
    kernel: &mut Kernel,
    current: usize,
    token: usize,
    kstack_top: usize,
    trap_cx_ppn: usize,
) -> (ret: isize)
    requires
        old(kernel).wf(),
        old(kernel)@.pids.has_next(),
        old(kernel)@.processes.contains_key(current),
        old(kernel)@.processes[current].single_threaded(),
    ensures
        final(kernel).wf(),
        ret == as_signed(old(kernel)@.pids.next_id() as int),
        final(kernel)@ == old(kernel)@.after_fork_call(current, token, kstack_top, trap_cx_ppn),
{
    let new_pid: usize = ProcessControlBlock::fork(
        kernel,
        current,
        token,
        kstack_top,
        trap_cx_ppn,
    );
    let ghost forked = kernel@;
    assert(forked.processes.contains_key(new_pid));
    // for child process, fork returns 0
    let child = kernel.processes.get_mut(new_pid);
    let ghost before = child@;
    let mut task = child.get_task(0);
    task.trap_cx.set_reg(A0, 0);
    child.tasks[0] = Some(task);
    assert(child@ =~= before.returning(0));
    proof {
        law_change_keeps_kernel(forked, new_pid, before.returning(0));
    }
    to_isize(new_pid)
}

/// What running another program comes to.
pub struct ExecOutcome {
    /// what the call returns
    pub ret: isize,
    /// what is to be written to the new program's memory first
    pub stores: Vec<UserStore>,
}

/// current process runs another program, without arguments; `app` is the program of the name
/// given, if there is one
pub fn sys_exec(
    kernel: &mut Kernel,
    current: usize,
    app: Option<ElfImage>,
    ustack_top: usize,
    trap_cx_ppn: usize,
    entry: KernelEntry,
) -> (outcome: ExecOutcome)
    requires
        old(kernel).wf(),
        old(kernel)@.processes.contains_key(current),
        app is Some ==> old(kernel)@.processes[current].single_threaded(),
        app is Some ==> frame_size(Seq::empty()) <= ustack_top,
    ensures
        final(kernel).wf(),
        match app {
            Some(image) => {
                &&& outcome.ret == 0
                &&& outcome.stores@ == argv_stores(
                    image.memory_set@.token,
                    Seq::empty(),
                    ustack_top as int,
                    0,
                )
                &&& final(kernel)@ == (KernelState {
                    processes: old(kernel)@.processes.insert(
                        current,
                        old(kernel)@.processes[current].after_exec(
                            image.memory_set@,
                            image.ustack_base,
                            image.entry_point,
                            ustack_top,
                            trap_cx_ppn,
                            entry,
                            Seq::empty(),
                        ),
                    ),
                    ..old(kernel)@
                })
            },
            None => {
                &&& outcome.ret == -1
                &&& outcome.stores@.len() == 0
                &&& final(kernel)@ == old(kernel)@
            },
        },
{
    match app {
        Some(image) => {
            let args: Vec<String> = Vec::new();
            assert(bytes_of(args@) =~= Seq::<Seq<u8>>::empty());
            let stores = ProcessControlBlock::exec(
                kernel,
                current,
                image,
                ustack_top,
                trap_cx_ppn,
                entry,
                args,
            );
            ExecOutcome { ret: 0, stores }
        },
        None => ExecOutcome { ret: -1, stores: Vec::new() },
    }
}

/// A change of the size of the data segment.
#[derive(Clone, Copy, Debug, PartialEq, Eq, Structural)]
pub struct BrkRequest {
    /// by how many bytes the segment is to grow
    pub size: i32,
}

/// change data segment size; [`sbrk_result`] says what the call then returns
pub fn sys_sbrk(size: i32) -> (request: BrkRequest)
    ensures
        request.size == size,
{
    BrkRequest { size }
}

/// What changing the data segment returns: where it ended before, or -1 if it could not be
/// changed.
pub fn sbrk_result(old_brk: Option<usize>) -> (ret: isize)
    ensures
        ret == match old_brk {
            Some(brk) => as_signed(brk as int),
            None => -1,
        },
{
    match old_brk {
        Some(brk) => to_isize(brk),
        None => -1,
    }
}

/// starting a program in a process of its own is not offered
pub fn sys_spawn(_path: usize) -> (ret: isize)
    ensures
        ret == -1,
{
    -1
}

/// setting the priority of a process is not offered
pub fn sys_set_priority(_prio: isize) -> (ret: isize)
    ensures
        ret == -1,
{
    -1
}

} // verus!
