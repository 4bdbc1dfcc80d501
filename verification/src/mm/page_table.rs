//! Translation of virtual addresses.

use crate::config::PAGE_SIZE;
use std::collections::BTreeMap;
use vstd::prelude::*;

verus! {

/// The mapping of an address space, from virtual to physical page numbers.
pub struct PageTable {
    entries: BTreeMap<usize, usize>,
}

impl View for PageTable {
    type V = Map<usize, usize>;

    closed spec fn view(&self) -> Map<usize, usize> {
        self.entries@
    }
}

/// Whether every byte of a physical page has an address.
pub open spec fn addressable(ppn: usize) -> bool {
    ppn * PAGE_SIZE + PAGE_SIZE - 1 <= usize::MAX
}

/// The physical address of a virtual one.
pub open spec fn phys(table: Map<usize, usize>, virt: int) -> int {
    table[(virt / PAGE_SIZE as int) as usize] * PAGE_SIZE + virt % PAGE_SIZE as int
}

/// Whether the page of a virtual address is mapped.
pub open spec fn mapped(table: Map<usize, usize>, virt: int) -> bool {
    table.contains_key((virt / PAGE_SIZE as int) as usize)
}

impl PageTable {
    /// Every page is mapped to one that the machine can address.
    pub open spec fn wf(&self) -> bool {
        forall|vpn: usize| #[trigger] self@.contains_key(vpn) ==> addressable(self@[vpn])
    }

    /// A table that maps nothing.
    pub fn new() -> (result: PageTable)
        ensures
            result.wf(),
            result@ == Map::<usize, usize>::empty(),
    {
        PageTable { entries: BTreeMap::new() }
    }

    /// Maps a virtual page to a physical one.
    pub fn map_page(&mut self, vpn: usize, ppn: usize)
        requires
            old(self).wf(),
            addressable(ppn),
        ensures
            final(self).wf(),
            final(self)@ == old(self)@.insert(vpn, ppn),
    {
        let ghost before = self@;
        self.entries.insert(vpn, ppn);
        assert(self@ == before.insert(vpn, ppn));
        assert forall|v: usize| #[trigger] self@.contains_key(v) implies addressable(self@[v]) by {
            if v != vpn {
                assert(before.contains_key(v));
            }
        }
    }

    /// The physical page that a virtual one is mapped to.
    pub fn translate(&self, vpn: usize) -> (result: Option<usize>)
        ensures
            match result {
                Some(ppn) => self@.contains_key(vpn) && self@[vpn] == ppn,
                None => !self@.contains_key(vpn),
            },
    {
        match self.entries.get(&vpn) {
            Some(ppn) => Some(*ppn),
            None => None,
        }
    }
}

/// The physical address of a mapped virtual one: its offset in the physical page.
pub fn virtual_to_phys(table: &PageTable, virt: usize) -> (result: usize)
    requires
        table.wf(),
        mapped(table@, virt as int),
    ensures
        result == phys(table@, virt as int),
{
    let vpn: usize = virt / PAGE_SIZE;
    let offset: usize = virt % PAGE_SIZE;
    let ppn: usize = table.translate(vpn).unwrap();
    ppn * PAGE_SIZE + offset
}

/// Addresses of one page stay side by side: each byte of an object that does not cross a page
/// boundary lies where the object's first byte is plus its offset.
pub proof fn law_contiguous_in_page(table: Map<usize, usize>, virt: int, k: int)
    requires
        0 <= virt,
        0 <= k,
        virt % PAGE_SIZE as int + k < PAGE_SIZE,
    ensures
        phys(table, virt + k) == phys(table, virt) + k,
        mapped(table, virt + k) == mapped(table, virt),
{
    assert((virt + k) / 4096 == virt / 4096);
}

} // verus!
