//! Mapped memory.

use super::numbers::law_byte_weights;
use crate::config::PAGE_SIZE;
use crate::mm::bytes::lemma_le_bytes_len;
use crate::mm::memory_set::{
    area_between, first_spanning, page_floor, spans, MapArea, MapPermission, Memory,
};
use crate::mm::page_table::{addressable, mapped, phys, PageTable};
use crate::syscall::process::{
    in_the_way, mapping_end, permission_of, time_size, touches, whole_pages, TimeVal,
};
use vstd::arithmetic::power::pow;
use vstd::layout::size_of;
use vstd::prelude::*;

verus! {

/// Bytes side by side in two pages that are mapped to different ones stay apart, so what is
/// written for one of them is not overwritten by another.
pub proof fn law_bytes_stay_apart(table: Map<usize, usize>, virt: int, a: int, b: int)
    requires
        0 <= virt,
        0 <= a < b < PAGE_SIZE,
        virt + b <= usize::MAX,
        page_floor(virt + a) == page_floor(virt + b) || table[page_floor(virt + a) as usize]
            != table[page_floor(virt + b) as usize],
    ensures
        phys(table, virt + a) != phys(table, virt + b),
{
}

/// What was mapped can be unmapped, which leaves the memory as it was before.
pub proof fn law_munmap_undoes_mmap(memory: Memory, start: usize, len: usize, port: usize)
    requires
        start % PAGE_SIZE == 0,
        mapping_end(start as int, len as int) <= usize::MAX,
        memory.can_map(start, len),
    ensures
        memory.after_mmap(start, len, port).mapping_at(start, len, memory.areas.len() as int),
        memory.after_mmap(start, len, port).without_area(memory.areas.len() as int) == memory,
{
    let after = memory.after_mmap(start, len, port);
    let end = mapping_end(start as int, len as int);
    let last = memory.areas.len() as int;
    lemma_end_aligned(start as int, len as int);
    assert(spans(after.areas[last], page_floor(start as int), page_floor(end)));
    assert forall|k: int| 0 <= k < last implies !spans(
        #[trigger] after.areas[k],
        page_floor(start as int),
        page_floor(end),
    ) by {
        assert(after.areas[k] == memory.areas[k]);
        assert(!in_the_way(memory.areas[k], start as int, end));
        assert(page_floor(start as int) <= page_floor(end));
    }
    assert(after.areas.remove(last) =~= memory.areas);
}

/// A mapping that starts on a page boundary ends on one.
proof fn lemma_end_aligned(start: int, len: int)
    requires
        0 <= start,
        0 <= len,
        start % PAGE_SIZE as int == 0,
    ensures
        start <= mapping_end(start, len),
        mapping_end(start, len) % PAGE_SIZE as int == 0,
        (mapping_end(start, len) + PAGE_SIZE - 1) / PAGE_SIZE as int == mapping_end(start, len)
            / PAGE_SIZE as int,
{
    let pages = (len + PAGE_SIZE - 1) / PAGE_SIZE as int;
    assert(start == start / 4096 * 4096);
    assert(mapping_end(start, len) == (start / 4096 + pages) * 4096);
}

/// The same memory cannot be mapped twice.
pub proof fn law_mmap_twice_refused(memory: Memory, start: usize, len: usize, port: usize)
    requires
        mapping_end(start as int, len as int) <= usize::MAX,
    ensures
        !memory.after_mmap(start, len, port).can_map(start, len),
{
    let after = memory.after_mmap(start, len, port);
    let end = mapping_end(start as int, len as int);
    let last = memory.areas.len() as int;
    let area = after.areas[last];
    assert(area == area_between(start, end as usize, permission_of(port)));
    assert(whole_pages(len as int) >= 0);
    assert(page_floor(start as int) <= (end + PAGE_SIZE - 1) / PAGE_SIZE as int);
    assert(touches(area, page_floor(start as int)));
    assert(in_the_way(area, start as int, end));
}

/// Two areas without a page in common.
pub open spec fn disjoint(a: MapArea, b: MapArea) -> bool {
    a.end_vpn <= b.start_vpn || b.end_vpn <= a.start_vpn
}

/// What is mapped has no page in common with an area that was there, unless that area lies
/// strictly between the page where the mapping starts and the page where it ends.
pub proof fn law_mmap_disjoint(memory: Memory, start: usize, len: usize, port: usize, i: int)
    requires
        mapping_end(start as int, len as int) <= usize::MAX,
        memory.can_map(start, len),
        0 <= i < memory.areas.len(),
        memory.areas[i].start_vpn <= memory.areas[i].end_vpn,
        !(page_floor(start as int) < memory.areas[i].start_vpn && memory.areas[i].end_vpn
            < page_floor(mapping_end(start as int, len as int))),
    ensures
        disjoint(
            memory.areas[i],
            memory.after_mmap(start, len, port).areas[memory.areas.len() as int],
        ),
{
    let end = mapping_end(start as int, len as int);
    let area = memory.areas[i];
    let added = memory.after_mmap(start, len, port).areas[memory.areas.len() as int];
    assert(!in_the_way(area, start as int, end));
    assert(added == area_between(start, end as usize, permission_of(port)));
    assert(added.end_vpn <= page_floor(end) + 1);
}

/// A mapping is for user programs and covers every byte that was asked for.
pub proof fn law_mapping_covers(
    memory: Memory,
    start: usize,
    len: usize,
    port: usize,
    addr: int,
)
    requires
        mapping_end(start as int, len as int) <= usize::MAX,
        start <= addr < start + len,
    ensures
        ({
            let area = memory.after_mmap(start, len, port).areas[memory.areas.len() as int];
            &&& area.start_vpn <= page_floor(addr) < area.end_vpn
            &&& area.permission.user
        }),
{
    let end = mapping_end(start as int, len as int);
    assert(addr < end);
    assert(page_floor(addr) < (end + PAGE_SIZE - 1) / PAGE_SIZE as int);
}

/// A byte of a virtual page lies at the same offset of the physical page that the table leads to,
/// and it is mapped if the table has the page. A physical page can be addressed if its last byte
/// can; a table is in order if it leads only to such pages.
pub proof fn law_translation(table: PageTable, virt: usize, ppn: usize)
    ensures
        mapped(table@, virt as int) <==> table@.contains_key(virt / 4096),
        phys(table@, virt as int) == table@[virt / 4096] * 4096 + virt % 4096,
        addressable(ppn) <==> ppn * 4096 + 4095 <= usize::MAX,
        table.wf() <==> forall|vpn: usize| #[trigger]
            table@.contains_key(vpn) ==> table@[vpn] * 4096 + 4095 <= usize::MAX,
{
    if forall|vpn: usize| #[trigger]
        table@.contains_key(vpn) ==> table@[vpn] * 4096 + 4095 <= usize::MAX {
        assert forall|vpn: usize| #[trigger] table@.contains_key(vpn) implies addressable(
            table@[vpn],
        ) by {}
    }
    if table.wf() {
        assert forall|vpn: usize| #[trigger] table@.contains_key(vpn) implies table@[vpn] * 4096
            + 4095 <= usize::MAX by {
            assert(addressable(table@[vpn]));
        }
    }
}

/// What `mmap` adds, behind the areas that were there, begins with the page of `start` and ends
/// with the last page that has a byte of the request, whose length is rounded up to whole pages.
/// It can be read if bit 0 of `port` is set, written if bit 1 is, and executed if bit 2 is, each
/// whatever the others are; and a user program may use it.
pub proof fn law_mmap_adds(memory: Memory, start: usize, len: usize, port: usize)
    requires
        start + (len + 4095) / 4096 * 4096 <= usize::MAX,
    ensures
        ({
            let after = memory.after_mmap(start, len, port);
            let area = after.areas[memory.areas.len() as int];
            let end = start + (len + 4095) / 4096 * 4096;
            &&& after.token == memory.token
            &&& after.areas.len() == memory.areas.len() + 1
            &&& forall|i: int|
                0 <= i < memory.areas.len() ==> #[trigger] after.areas[i] == memory.areas[i]
            &&& area.start_vpn * 4096 <= start < (area.start_vpn + 1) * 4096
            &&& (area.end_vpn - 1) * 4096 < end <= area.end_vpn * 4096
            &&& area.permission.read <==> port % 2 == 1
            &&& area.permission.write <==> port / 2 % 2 == 1
            &&& area.permission.execute <==> port / 4 % 2 == 1
            &&& area.permission.user
        }),
{
    assert(port & 1 != 0 <==> port % 2 == 1) by (bit_vector);
    assert(port & 2 != 0 <==> port / 2 % 2 == 1) by (bit_vector);
    assert(port & 4 != 0 <==> port / 4 % 2 == 1) by (bit_vector);
    let end = start + (len + 4095) / 4096 * 4096;
    assert(mapping_end(start as int, len as int) == end);
    assert((end + 4095) / 4096 <= usize::MAX);
}

/// Each permission depends on its own bit: two requests that agree on one bit agree on what it
/// stands for.
pub proof fn law_mmap_permissions_independent(
    memory: Memory,
    start: usize,
    len: usize,
    port: usize,
    other: usize,
)
    ensures
        ({
            let a = memory.after_mmap(start, len, port).areas[memory.areas.len() as int].permission;
            let b = memory.after_mmap(start, len, other).areas[memory.areas.len() as int].permission;
            &&& port % 2 == other % 2 ==> a.read == b.read
            &&& port / 2 % 2 == other / 2 % 2 ==> a.write == b.write
            &&& port / 4 % 2 == other / 4 % 2 ==> a.execute == b.execute
        }),
{
    assert(port & 1 == port % 2) by (bit_vector);
    assert(other & 1 == other % 2) by (bit_vector);
    assert(port & 2 == port / 2 % 2 * 2) by (bit_vector);
    assert(other & 2 == other / 2 % 2 * 2) by (bit_vector);
    assert(port & 4 == port / 4 % 2 * 4) by (bit_vector);
    assert(other & 4 == other / 4 % 2 * 4) by (bit_vector);
}

/// A request is refused exactly if, of some area, the page where it starts or the page where it
/// ends is one of its pages or the one behind them.
pub proof fn law_mmap_refused(memory: Memory, start: usize, len: usize)
    requires
        start + (len + 4095) / 4096 * 4096 <= usize::MAX,
    ensures
        !memory.can_map(start, len) <==> exists|i: int|
            {
                let first = start as int / 4096;
                let last = (start + (len + 4095) / 4096 * 4096) / 4096;
                &&& 0 <= i < memory.areas.len()
                &&& {
                    ||| (#[trigger] memory.areas[i]).start_vpn <= first <= memory.areas[i].end_vpn
                    ||| memory.areas[i].start_vpn <= last <= memory.areas[i].end_vpn
                }
            },
{
    let end = start + (len + 4095) / 4096 * 4096;
    assert(mapping_end(start as int, len as int) == end);
    assert forall|i: int| 0 <= i < memory.areas.len() implies (in_the_way(
        #[trigger] memory.areas[i],
        start as int,
        end,
    ) <==> {
        ||| memory.areas[i].start_vpn <= start as int / 4096 <= memory.areas[i].end_vpn
        ||| memory.areas[i].start_vpn <= end / 4096 <= memory.areas[i].end_vpn
    }) by {}
}

/// What `munmap` takes out is the first area that begins at `start`, which is on a page boundary,
/// and ends where the request does, its length rounded up to whole pages. The other areas stay, in
/// their order.
pub proof fn law_munmap_takes_out(memory: Memory, start: usize, len: usize, i: int)
    requires
        start % 4096 == 0,
        start + (len + 4095) / 4096 * 4096 <= usize::MAX,
    ensures
        memory.mapping_at(start, len, i) <==> {
            let end = start + (len + 4095) / 4096 * 4096;
            &&& 0 <= i < memory.areas.len()
            &&& memory.areas[i].start_vpn * 4096 == start
            &&& memory.areas[i].end_vpn * 4096 == end
            &&& forall|k: int|
                0 <= k < i ==> !((#[trigger] memory.areas[k]).start_vpn * 4096 == start
                    && memory.areas[k].end_vpn * 4096 == end)
        },
        0 <= i < memory.areas.len() ==> {
            let after = memory.without_area(i);
            &&& after.token == memory.token
            &&& after.areas.len() == memory.areas.len() - 1
            &&& forall|k: int| 0 <= k < i ==> #[trigger] after.areas[k] == memory.areas[k]
            &&& forall|k: int|
                i <= k < after.areas.len() ==> #[trigger] after.areas[k] == memory.areas[k + 1]
        },
{
    let end = start + (len + 4095) / 4096 * 4096;
    lemma_end_aligned(start as int, len as int);
    assert(mapping_end(start as int, len as int) == end);
    assert(start as int / 4096 * 4096 == start);
    assert(end / 4096 * 4096 == end);
    assert forall|k: int| 0 <= k < memory.areas.len() implies (spans(
        #[trigger] memory.areas[k],
        page_floor(start as int),
        page_floor(end),
    ) <==> memory.areas[k].start_vpn * 4096 == start && memory.areas[k].end_vpn * 4096 == end) by {}
}

/// An area is found by the pages that it begins and ends with, both; of several such the first one.
pub proof fn law_area_found(areas: Seq<MapArea>, start_vpn: int, end_vpn: int, i: int)
    ensures
        first_spanning(areas, start_vpn, end_vpn, i) <==> {
            &&& 0 <= i < areas.len()
            &&& areas[i].start_vpn == start_vpn && areas[i].end_vpn == end_vpn
            &&& forall|k: int|
                0 <= k < i ==> (#[trigger] areas[k]).start_vpn != start_vpn || areas[k].end_vpn
                    != end_vpn
        },
{
}

/// An area of the pages from `start` to `end` begins with the page of `start` and ends with the
/// last page that has a byte below `end`.
pub proof fn law_area_between(start: usize, end: usize, permission: MapPermission)
    ensures
        ({
            let area = area_between(start, end, permission);
            &&& area.start_vpn * 4096 <= start < (area.start_vpn + 1) * 4096
            &&& (area.end_vpn - 1) * 4096 < end <= area.end_vpn * 4096
            &&& area.permission == permission
        }),
{
    assert((end + 4095) / 4096 <= usize::MAX);
}

/// The bytes of the time, of which there are two words: first the whole seconds of `us`
/// microseconds, then the microseconds that are left, each with its lowest byte first.
pub proof fn law_time_bytes(us: usize, k: int)
    requires
        0 <= k < 2 * size_of::<usize>(),
    ensures
        time_size() == 2 * size_of::<usize>(),
        TimeVal::of_us(us).bytes().len() == time_size(),
        k < size_of::<usize>() ==> TimeVal::of_us(us).bytes()[k] == us as int / 1_000_000 / pow(
            256,
            k as nat,
        ) % 256,
        k >= size_of::<usize>() ==> TimeVal::of_us(us).bytes()[k] == us as int % 1_000_000 / pow(
            256,
            (k - size_of::<usize>()) as nat,
        ) % 256,
{
    let n = size_of::<usize>();
    let time = TimeVal::of_us(us);
    lemma_le_bytes_len(time.sec as int, n);
    lemma_le_bytes_len(time.usec as int, n);
    if k < n {
        law_byte_weights(time.sec as int, n, k);
    } else {
        law_byte_weights(time.usec as int, n, k - n);
    }
}

} // verus!
