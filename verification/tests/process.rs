use os_kernel::mm::memory_set::MemorySet;
use os_kernel::task::id::{PidHandle, RecycleAllocator};
use os_kernel::task::process::{ProcessControlBlock, ProcessControlBlockInner};
use os_kernel::task::thread::{TaskControlBlock, TaskUserRes};
use os_kernel::trap::TrapContext;

fn blank() -> ProcessControlBlockInner {
    ProcessControlBlockInner::blank(MemorySet::new(77, vec![]), None, vec![])
}

fn thread(tid: usize) -> Option<TaskControlBlock> {
    Some(TaskControlBlock {
        res: Some(TaskUserRes { tid, ustack_base: 0x1000, ustack_top: 0x2000 }),
        kstack_top: 0x9000 + tid,
        trap_cx_ppn: 3,
        trap_cx: TrapContext::app_init_context(1, 2, 3, 4, 5),
    })
}

fn with_threads(n: usize) -> ProcessControlBlockInner {
    let mut inner = blank();
    for tid in 0..n {
        assert_eq!(inner.alloc_tid(), tid);
        inner.tasks.push(thread(tid));
    }
    inner
}

#[test]
fn numbers_given_back_come_first() {
    let mut ids = RecycleAllocator::new();
    assert_eq!(ids.allocate(), 0);
    assert_eq!(ids.allocate(), 1);
    assert_eq!(ids.allocate(), 2);
    ids.deallocate(0);
    ids.deallocate(1);
    assert!(ids.can_allocate());
    assert_eq!(ids.allocate(), 1);
    assert_eq!(ids.allocate(), 0);
    assert_eq!(ids.allocate(), 3);
}

#[test]
fn user_token_is_the_root_of_the_memory() {
    assert_eq!(blank().get_user_token(), 77);
}

#[test]
fn lowest_free_descriptor_is_allocated() {
    let mut inner = blank();
    let file = os_kernel::fs::file::FileRef { id: 9, readable: true, writable: true };
    inner.fd_table = vec![Some(file), None, Some(file), None];
    assert_eq!(inner.alloc_fd(), 1);
    assert_eq!(inner.fd_table.len(), 4);
    inner.fd_table[1] = Some(file);
    assert_eq!(inner.alloc_fd(), 3);
    inner.fd_table[3] = Some(file);
    assert_eq!(inner.alloc_fd(), 4);
    assert_eq!(inner.fd_table.len(), 5);
    assert_eq!(inner.fd_table[4], None);
    assert_eq!(inner.fd_table[0], Some(file));
}

#[test]
fn new_thread_numbers_get_semaphore_entries() {
    let mut inner = blank();
    inner.semaphore_alloc = vec![vec![], vec![4, 5, 6]];
    assert_eq!(inner.alloc_tid(), 0);
    assert_eq!(inner.semaphore_alloc, vec![vec![0], vec![4, 5, 6]]);
    assert_eq!(inner.alloc_tid(), 1);
    assert_eq!(inner.semaphore_alloc, vec![vec![0, 0], vec![4, 5, 6]]);
}

#[test]
fn freed_thread_numbers_hold_nothing() {
    let mut inner = with_threads(3);
    inner.semaphore_alloc = vec![vec![7, 8, 9], vec![1]];
    inner.dealloc_tid(1);
    assert_eq!(inner.semaphore_alloc, vec![vec![7, 0, 9], vec![1]]);
    assert_eq!(inner.alloc_tid(), 1);
    assert_eq!(inner.semaphore_alloc, vec![vec![7, 0, 9], vec![1, 0]]);
}

#[test]
fn mutex_owners_cover_all_mutexes() {
    let mut inner = blank();
    inner.mutex_list = vec![Some(1), None, Some(2)];
    inner.mutex_owner = vec![Some(4)];
    inner.ensure_mutex_owner_len();
    assert_eq!(inner.mutex_owner, vec![Some(4), None, None]);
    inner.ensure_mutex_owner_len();
    assert_eq!(inner.mutex_owner.len(), 3);
    inner.mutex_list = vec![];
    inner.ensure_mutex_owner_len();
    assert_eq!(inner.mutex_owner, vec![Some(4), None, None]);
}

#[test]
fn semaphore_tables_cover_all_semaphores_and_threads() {
    let mut inner = with_threads(2);
    inner.semaphore_list = vec![Some(1), Some(2), Some(3)];
    inner.semaphore_alloc = vec![vec![5], vec![1, 2, 3]];
    inner.semaphore_count = vec![8];
    inner.ensure_semaphore_alloc_len();
    assert_eq!(inner.semaphore_alloc, vec![vec![5, 0], vec![1, 2, 3], vec![0, 0]]);
    assert_eq!(inner.semaphore_count, vec![8, 0, 0]);
    inner.ensure_semaphore_alloc_len();
    assert_eq!(inner.semaphore_alloc, vec![vec![5, 0], vec![1, 2, 3], vec![0, 0]]);
}

#[test]
fn threads_are_found_by_number() {
    let inner = with_threads(2);
    assert_eq!(inner.thread_count(), 2);
    assert_eq!(inner.get_task(1).res.unwrap().tid, 1);
    assert_eq!(inner.get_task(1).kstack_top, 0x9001);
    assert_eq!(blank().thread_count(), 0);
}

#[test]
fn mutex_requests_out_of_range_are_granted() {
    let mut inner = with_threads(2);
    inner.mutex_owner = vec![Some(5)];
    assert!(!inner.will_deadlock_mutex(0, 1));
    assert!(!inner.will_deadlock_mutex(2, 0));
}

#[test]
fn free_and_own_mutexes_are_granted() {
    let mut inner = with_threads(2);
    inner.mutex_owner = vec![None, Some(0), Some(1)];
    assert!(!inner.will_deadlock_mutex(0, 0));
    assert!(!inner.will_deadlock_mutex(0, 1));
    assert!(!inner.will_deadlock_mutex(0, 2));
    assert!(!inner.will_deadlock_mutex(1, 1));
}

#[test]
fn mutexes_of_unknown_owners_are_refused() {
    let mut inner = with_threads(2);
    inner.mutex_owner = vec![None, Some(2)];
    assert!(inner.will_deadlock_mutex(0, 1));
    assert!(inner.will_deadlock_mutex(1, 1));
    assert!(!inner.will_deadlock_mutex(1, 0));
}

#[test]
fn semaphore_requests_out_of_range_are_granted() {
    let mut inner = with_threads(1);
    inner.semaphore_alloc = vec![vec![0]];
    inner.semaphore_count = vec![0];
    assert!(!inner.will_deadlock_semaphore(1, 0, 9));
    assert!(!inner.will_deadlock_semaphore(0, 1, 9));
    assert!(inner.will_deadlock_semaphore(0, 0, 9));
}

#[test]
fn semaphore_requests_are_limited_by_what_others_give_back() {
    let mut inner = with_threads(3);
    // five in all: one held by each of the first two threads, three left
    inner.semaphore_alloc = vec![vec![1, 1]];
    inner.semaphore_count = vec![5];
    assert!(!inner.will_deadlock_semaphore(0, 0, 4));
    assert!(inner.will_deadlock_semaphore(0, 0, 5));
    assert!(!inner.will_deadlock_semaphore(2, 0, 5));
    assert!(inner.will_deadlock_semaphore(2, 0, 6));
    assert!(!inner.will_deadlock_semaphore(2, 0, 0));
}

#[test]
fn overused_and_uncounted_semaphores_have_nothing_left() {
    let mut inner = with_threads(2);
    inner.semaphore_alloc = vec![vec![3, 4], vec![2, 0]];
    inner.semaphore_count = vec![1];
    assert!(!inner.will_deadlock_semaphore(0, 0, 4));
    assert!(inner.will_deadlock_semaphore(0, 0, 5));
    assert!(!inner.will_deadlock_semaphore(1, 1, 2));
    assert!(inner.will_deadlock_semaphore(1, 1, 3));
}

#[test]
fn the_inner_part_is_reached_through_the_block() {
    let mut pcb = ProcessControlBlock { pid: PidHandle(12), inner: blank() };
    assert_eq!(pcb.getpid(), 12);
    pcb.inner_exclusive_access().exit_code = 5;
    assert_eq!(pcb.inner.exit_code, 5);
    assert_eq!(pcb.getpid(), 12);
}
