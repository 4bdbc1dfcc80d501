use os_kernel::fs::file::{FileRef, OpenFlags};
use os_kernel::fs::name_table::NameTable;
use os_kernel::mm::memory_set::MemorySet;
use os_kernel::mm::page_table::PageTable;
use os_kernel::syscall::fs::{
    open_target, sys_close, sys_fstat, sys_linkat, sys_open, sys_read, sys_unlinkat, sys_write,
    transfer_result, LinkOutcome, OpenOutcome, StatCopy, StatOutcome, Transfer, TransferStep,
    UnlinkOutcome,
};
use os_kernel::task::process::ProcessControlBlockInner;

const CREATE_RW: u32 = 0x202;

fn file(id: usize) -> FileRef {
    FileRef { id, readable: true, writable: true }
}

fn process() -> ProcessControlBlockInner {
    ProcessControlBlockInner::blank(
        MemorySet::new(55, vec![]),
        None,
        vec![Some(FileRef::stdin()), Some(FileRef::stdout()), Some(FileRef::stdout())],
    )
}

fn name(s: &str) -> String {
    s.to_string()
}

#[test]
fn writes_go_to_writable_files() {
    let inner = process();
    assert_eq!(
        sys_write(&inner, 1, 0x100, 8),
        TransferStep::Perform(Transfer { file: FileRef::stdout(), token: 55, buf: 0x100, len: 8 })
    );
    assert_eq!(sys_write(&inner, 0, 0x100, 8), TransferStep::Done(-1));
    assert_eq!(sys_write(&inner, 3, 0x100, 8), TransferStep::Done(-1));
}

#[test]
fn reads_come_from_readable_files() {
    let mut inner = process();
    assert_eq!(
        sys_read(&inner, 0, 0x200, 4),
        TransferStep::Perform(Transfer { file: FileRef::stdin(), token: 55, buf: 0x200, len: 4 })
    );
    assert_eq!(sys_read(&inner, 1, 0x200, 4), TransferStep::Done(-1));
    assert_eq!(sys_read(&inner, usize::MAX, 0x200, 4), TransferStep::Done(-1));
    inner.fd_table[0] = None;
    assert_eq!(sys_read(&inner, 0, 0x200, 4), TransferStep::Done(-1));
}

#[test]
fn transfers_return_the_count() {
    assert_eq!(transfer_result(0), 0);
    assert_eq!(transfer_result(4096), 4096);
    assert_eq!(transfer_result(usize::MAX), -1);
    assert_eq!(transfer_result(1 << 63), isize::MIN);
}

#[test]
fn open_close_open() {
    let mut inner = process();
    let outcome = sys_open(&mut inner, &name("a"), 0, Some(file(10)));
    assert_eq!(outcome, OpenOutcome { ret: 3, more_links: 0 });
    assert_eq!(inner.fd_table[3], Some(file(10)));
    assert_eq!(inner.names.get(&name("a")), Some(&3));
    assert_eq!(inner.links.get(&name("a")), None);
    assert_eq!(sys_open(&mut inner, &name("b"), 0, Some(file(11))).ret, 4);
    assert_eq!(sys_close(&mut inner, 3), 0);
    assert_eq!(inner.fd_table[3], None);
    assert_eq!(inner.fd_table[4], Some(file(11)));
    assert_eq!(inner.names.get(&name("a")), None);
    assert_eq!(inner.names.get(&name("b")), Some(&4));
    assert_eq!(sys_close(&mut inner, 3), -1);
    assert_eq!(sys_close(&mut inner, 5), -1);
    assert_eq!(sys_open(&mut inner, &name("c"), 0, Some(file(12))).ret, 3);
}

#[test]
fn what_cannot_be_opened_changes_nothing() {
    let mut inner = process();
    let outcome = sys_open(&mut inner, &name("a"), CREATE_RW, None);
    assert_eq!(outcome, OpenOutcome { ret: -1, more_links: 0 });
    assert_eq!(inner.fd_table.len(), 3);
    assert_eq!(inner.links.get(&name("a")), None);
}

#[test]
fn reopening_moves_the_name() {
    let mut inner = process();
    assert_eq!(sys_open(&mut inner, &name("a"), 0, Some(file(10))).ret, 3);
    assert_eq!(sys_open(&mut inner, &name("a"), 0, Some(file(10))).ret, 4);
    assert_eq!(inner.names.get(&name("a")), Some(&4));
    assert_eq!(sys_close(&mut inner, 3), 0);
    assert_eq!(inner.names.get(&name("a")), Some(&4));
}

#[test]
fn flags_without_a_meaning_are_unknown() {
    assert!(OpenFlags::from_bits(0x603).is_some());
    assert!(OpenFlags::from_bits(0x4).is_none());
    assert!(OpenFlags::from_bits(0x200).unwrap().creates());
    assert!(!OpenFlags::from_bits(0x1).unwrap().creates());
}

#[test]
fn links_lead_to_other_names() {
    let mut inner = process();
    assert_eq!(open_target(&inner, &name("x")), "x");
    let outcome = sys_linkat(&mut inner, &name("x"), &name("y"));
    assert_eq!(outcome, LinkOutcome { ret: 0, linked: None });
    assert_eq!(open_target(&inner, &name("x")), "y");
    assert_eq!(open_target(&inner, &name("y")), "y");
    // the file is known by the name that it was opened under
    assert_eq!(sys_open(&mut inner, &name("x"), 0, Some(file(20))).ret, 3);
    assert_eq!(inner.names.get(&name("y")), Some(&3));
    assert_eq!(inner.names.get(&name("x")), None);
}

#[test]
fn linking_a_name_to_itself_fails() {
    let mut inner = process();
    let outcome = sys_linkat(&mut inner, &name("x"), &name("x"));
    assert_eq!(outcome, LinkOutcome { ret: -1, linked: None });
    assert_eq!(inner.links.get(&name("x")), None);
}

#[test]
fn linking_an_open_file_counts() {
    let mut inner = process();
    sys_open(&mut inner, &name("x"), 0, Some(file(30)));
    let outcome = sys_linkat(&mut inner, &name("x"), &name("y"));
    assert_eq!(outcome, LinkOutcome { ret: 0, linked: Some(file(30)) });
}

#[test]
fn linking_a_name_without_an_open_file_fails_with_the_link_made() {
    let mut inner = process();
    inner.fd_table.push(None);
    inner.names.insert(name("x"), 3);
    let outcome = sys_linkat(&mut inner, &name("x"), &name("y"));
    assert_eq!(outcome, LinkOutcome { ret: -1, linked: None });
    assert_eq!(inner.links.get(&name("x")), Some(&name("y")));
    assert_eq!(inner.names.get(&name("x")), Some(&3));
    assert_eq!(inner.fd_table.len(), 4);

    // a descriptor above the table
    inner.names.insert(name("z"), 9);
    let outcome = sys_linkat(&mut inner, &name("z"), &name("y"));
    assert_eq!(outcome, LinkOutcome { ret: -1, linked: None });
    assert_eq!(inner.links.get(&name("z")), Some(&name("y")));
}

#[test]
fn unlinking_a_name_without_an_open_file_touches_no_file() {
    let mut inner = process();
    inner.fd_table.push(None);
    inner.names.insert(name("f"), 3);
    inner.links.insert(name("f"), name("f"));
    assert_eq!(
        sys_unlinkat(&mut inner, &name("f")),
        UnlinkOutcome { ret: 0, unlinked: None, clear: true }
    );
}

#[test]
fn closing_takes_one_name_out() {
    let mut inner = process();
    inner.names.insert(name("a"), 1);
    inner.names.insert(name("b"), 1);
    assert_eq!(sys_close(&mut inner, 1), 0);
    assert_eq!(inner.fd_table[1], None);
    assert_ne!(inner.names.get(&name("a")).is_some(), inner.names.get(&name("b")).is_some());
    assert_eq!(sys_close(&mut inner, 1), -1);
}

#[test]
fn opening_counts_the_other_links() {
    let mut inner = process();
    sys_linkat(&mut inner, &name("p"), &name("f"));
    sys_linkat(&mut inner, &name("q"), &name("f"));
    // p, q and f itself
    let outcome = sys_open(&mut inner, &name("f"), CREATE_RW, Some(file(40)));
    assert_eq!(outcome, OpenOutcome { ret: 3, more_links: 2 });
    assert_eq!(inner.links.get(&name("f")), Some(&name("f")));
}

#[test]
fn created_files_are_unlinked_once() {
    let mut inner = process();
    sys_open(&mut inner, &name("f"), CREATE_RW, Some(file(50)));
    assert_eq!(
        sys_unlinkat(&mut inner, &name("f")),
        UnlinkOutcome { ret: 0, unlinked: Some(file(50)), clear: true }
    );
    assert_eq!(
        sys_unlinkat(&mut inner, &name("f")),
        UnlinkOutcome { ret: -1, unlinked: None, clear: false }
    );
}

#[test]
fn linked_files_are_not_emptied() {
    let mut inner = process();
    sys_open(&mut inner, &name("f"), CREATE_RW, Some(file(60)));
    sys_close(&mut inner, 3);
    sys_linkat(&mut inner, &name("g"), &name("f"));
    assert_eq!(
        sys_unlinkat(&mut inner, &name("f")),
        UnlinkOutcome { ret: 0, unlinked: None, clear: false }
    );
    // the file has no name of its own any more
    assert_eq!(
        sys_unlinkat(&mut inner, &name("g")),
        UnlinkOutcome { ret: -1, unlinked: None, clear: false }
    );
    assert_eq!(inner.links.get(&name("g")), Some(&name("f")));
}

#[test]
fn status_goes_to_the_physical_address() {
    let inner = process();
    let mut table = PageTable::new();
    table.map_page(2, 7);
    assert_eq!(
        sys_fstat(&inner, &table, 1, 2 * 4096 + 5),
        StatOutcome {
            ret: 0,
            copy: Some(StatCopy { file: FileRef::stdout(), at: 7 * 4096 + 5 })
        }
    );
    assert_eq!(sys_fstat(&inner, &table, 4, 0), StatOutcome { ret: -1, copy: None });
    let mut closed = process();
    closed.fd_table[1] = None;
    assert_eq!(sys_fstat(&closed, &table, 1, 0), StatOutcome { ret: -1, copy: None });
}

#[test]
fn name_tables_are_maps() {
    let mut table: NameTable<usize> = NameTable::new();
    assert_eq!(table.get(&name("a")), None);
    table.insert(name("a"), 1);
    table.insert(name("b"), 2);
    table.insert(name("a"), 3);
    assert_eq!(table.get(&name("a")), Some(&3));
    assert_eq!(table.name_of(2), Some(name("b")));
    assert_eq!(table.name_of(1), None);
    assert_eq!(table.remove(&name("a")), Some(3));
    assert_eq!(table.remove(&name("a")), None);
    assert_eq!(table.get(&name("b")), Some(&2));
}
