use os_kernel::mm::bytes::word_bytes;
use os_kernel::mm::memory_set::{MapArea, MapPermission, MemorySet};
use os_kernel::mm::page_table::{virtual_to_phys, PageTable};
use os_kernel::mm::store::PhysByte;
use os_kernel::syscall::process::{sys_get_time, sys_mmap, sys_munmap, MapOutcome};
use os_kernel::task::process::ProcessControlBlockInner;

const PAGE: usize = 4096;

fn process() -> ProcessControlBlockInner {
    ProcessControlBlockInner::blank(MemorySet::new(1, vec![]), None, vec![])
}

fn permission(read: bool, write: bool, execute: bool) -> MapPermission {
    MapPermission { read, write, execute, user: true }
}

#[test]
fn mappings_are_rounded_to_pages() {
    let mut inner = process();
    assert_eq!(sys_mmap(&mut inner, 16 * PAGE, PAGE + 1, 3).ret, 0);
    assert_eq!(inner.memory_set.area_count(), 1);
    assert_eq!(
        inner.memory_set.area(0),
        MapArea { start_vpn: 16, end_vpn: 18, permission: permission(true, true, false) }
    );
}

#[test]
fn unaligned_mappings_cover_their_pages() {
    let mut inner = process();
    assert_eq!(sys_mmap(&mut inner, 16 * PAGE + 100, PAGE, 4).ret, 0);
    assert_eq!(
        inner.memory_set.area(0),
        MapArea { start_vpn: 16, end_vpn: 18, permission: permission(false, false, true) }
    );
}

#[test]
fn mappings_in_the_way_are_refused() {
    let mut inner = process();
    assert_eq!(sys_mmap(&mut inner, 16 * PAGE, 2 * PAGE, 1).ret, 0);
    // the first page, the last page, and the page right behind
    assert_eq!(sys_mmap(&mut inner, 17 * PAGE, PAGE, 1).ret, -1);
    assert_eq!(sys_mmap(&mut inner, 10 * PAGE, 6 * PAGE, 1).ret, -1);
    assert_eq!(sys_mmap(&mut inner, 18 * PAGE, PAGE, 1).ret, -1);
    assert_eq!(sys_mmap(&mut inner, 16 * PAGE, 2 * PAGE, 1).ret, -1);
    assert_eq!(inner.memory_set.area_count(), 1);
    assert_eq!(sys_mmap(&mut inner, 19 * PAGE, PAGE, 1).ret, 0);
    // an area strictly inside is not noticed
    assert_eq!(sys_mmap(&mut inner, 10 * PAGE, 30 * PAGE, 1).ret, 0);
}

#[test]
fn unmapping_undoes_mapping() {
    let mut inner = process();
    assert_eq!(sys_mmap(&mut inner, 16 * PAGE, PAGE, 1).ret, 0);
    assert_eq!(sys_mmap(&mut inner, 32 * PAGE, 3 * PAGE, 7).ret, 0);
    assert_eq!(sys_munmap(&mut inner, 32 * PAGE, 2 * PAGE).ret, -1);
    assert_eq!(sys_munmap(&mut inner, 32 * PAGE + 1, 3 * PAGE).ret, -1);
    assert_eq!(sys_munmap(&mut inner, 32 * PAGE, 2 * PAGE + 1).ret, 0);
    assert_eq!(inner.memory_set.area_count(), 1);
    assert_eq!(inner.memory_set.area(0).start_vpn, 16);
    assert_eq!(sys_munmap(&mut inner, 32 * PAGE, 3 * PAGE).ret, -1);
    assert_eq!(sys_munmap(&mut inner, 16 * PAGE, PAGE).ret, 0);
    assert_eq!(inner.memory_set.area_count(), 0);
}

#[test]
fn the_area_to_be_mapped_is_told() {
    let mut inner = process();
    let area = MapArea { start_vpn: 5, end_vpn: 6, permission: permission(true, false, false) };
    assert_eq!(sys_mmap(&mut inner, 5 * PAGE, 1, 1), MapOutcome { ret: 0, area: Some(area) });
    assert_eq!(sys_mmap(&mut inner, 5 * PAGE, 1, 1), MapOutcome { ret: -1, area: None });
    assert_eq!(sys_munmap(&mut inner, 5 * PAGE, 1), MapOutcome { ret: 0, area: Some(area) });
    assert_eq!(sys_munmap(&mut inner, 5 * PAGE, 1), MapOutcome { ret: -1, area: None });
}

#[test]
fn copies_have_the_same_areas() {
    let area = MapArea { start_vpn: 1, end_vpn: 2, permission: permission(true, false, false) };
    let set = MemorySet::new(5, vec![area]);
    let copy = MemorySet::from_existed_user(&set, 6);
    assert_eq!(copy.token(), 6);
    assert_eq!(copy.area_count(), 1);
    assert_eq!(copy.area(0), area);
    assert_eq!(set.token(), 5);
}

#[test]
fn addresses_are_translated_page_by_page() {
    let mut table = PageTable::new();
    table.map_page(3, 100);
    table.map_page(4, 50);
    assert_eq!(table.translate(3), Some(100));
    assert_eq!(table.translate(5), None);
    assert_eq!(virtual_to_phys(&table, 3 * PAGE), 100 * PAGE);
    assert_eq!(virtual_to_phys(&table, 4 * PAGE - 1), 101 * PAGE - 1);
    assert_eq!(virtual_to_phys(&table, 4 * PAGE), 50 * PAGE);
}

#[test]
fn words_are_taken_apart_lowest_byte_first() {
    assert_eq!(word_bytes(0x0102030405060708), vec![8, 7, 6, 5, 4, 3, 2, 1]);
    assert_eq!(word_bytes(usize::MAX), vec![255; 8]);
}

#[test]
fn time_in_one_page() {
    let mut table = PageTable::new();
    table.map_page(3, 100);
    let outcome = sys_get_time(&table, 3 * PAGE + 64, 0, 3_000_005);
    assert_eq!(outcome.ret, 0);
    assert_eq!(outcome.stores.len(), 16);
    for k in 0..16 {
        assert_eq!(outcome.stores[k].addr, 100 * PAGE + 64 + k);
    }
    assert_eq!(outcome.stores[0].value, 3);
    assert_eq!(outcome.stores[8].value, 5);
    for k in [1, 2, 3, 4, 5, 6, 7, 9, 10, 11, 12, 13, 14, 15] {
        assert_eq!(outcome.stores[k].value, 0);
    }
}

#[test]
fn time_across_two_pages() {
    let mut table = PageTable::new();
    table.map_page(3, 100);
    table.map_page(4, 20);
    let outcome = sys_get_time(&table, 4 * PAGE - 8, 0, 1_000_000 * 0x0102 + 0x0304);
    assert_eq!(outcome.stores[0], PhysByte { addr: 101 * PAGE - 8, value: 0x02 });
    assert_eq!(outcome.stores[1], PhysByte { addr: 101 * PAGE - 7, value: 0x01 });
    assert_eq!(outcome.stores[8], PhysByte { addr: 20 * PAGE, value: 0x04 });
    assert_eq!(outcome.stores[9], PhysByte { addr: 20 * PAGE + 1, value: 0x03 });
}
