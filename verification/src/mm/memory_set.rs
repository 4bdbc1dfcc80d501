//! The areas of an address space.

use crate::config::PAGE_SIZE;
use vstd::prelude::*;

verus! {

/// What the pages of an area may be used for.
#[derive(Clone, Copy, Debug, PartialEq, Eq, Structural)]
pub struct MapPermission {
    pub read: bool,
    pub write: bool,
    pub execute: bool,
    pub user: bool,
}

/// A run of virtual pages from `start_vpn` up to, not including, `end_vpn`.
#[derive(Clone, Copy, Debug, PartialEq, Eq, Structural)]
pub struct MapArea {
    pub start_vpn: usize,
    pub end_vpn: usize,
    pub permission: MapPermission,
}

/// The root of an address space and its areas.
#[verifier::ext_equal]
pub struct Memory {
    pub token: usize,
    pub areas: Seq<MapArea>,
}

/// The number of the page that `addr` lies in.
pub open spec fn page_floor(addr: int) -> int {
    addr / PAGE_SIZE as int
}

/// The number of the first page that begins at `addr` or above.
pub open spec fn page_ceil(addr: int) -> int {
    (addr + PAGE_SIZE - 1) / PAGE_SIZE as int
}

/// The area of all pages that hold a byte from `start` up to `end`.
pub open spec fn area_between(start: usize, end: usize, permission: MapPermission) -> MapArea {
    MapArea {
        start_vpn: page_floor(start as int) as usize,
        end_vpn: page_ceil(end as int) as usize,
        permission,
    }
}

/// Whether an area is exactly the pages from `start_vpn` to `end_vpn`.
pub open spec fn spans(area: MapArea, start_vpn: int, end_vpn: int) -> bool {
    area.start_vpn == start_vpn && area.end_vpn == end_vpn
}

/// Whether `i` is the first area that spans exactly these pages.
pub open spec fn first_spanning(
    areas: Seq<MapArea>,
    start_vpn: int,
    end_vpn: int,
    i: int,
) -> bool {
    &&& 0 <= i < areas.len()
    &&& spans(areas[i], start_vpn, end_vpn)
    &&& forall|k: int| 0 <= k < i ==> !spans(#[trigger] areas[k], start_vpn, end_vpn)
}

/// An address space.
pub struct MemorySet {
    token: usize,
    areas: Vec<MapArea>,
}

impl View for MemorySet {
    type V = Memory;

    closed spec fn view(&self) -> Memory {
        Memory { token: self.token, areas: self.areas@ }
    }
}

impl MemorySet {
    /// The address space at root `token` with the given areas.
    pub fn new(token: usize, areas: Vec<MapArea>) -> (result: MemorySet)
        ensures
            result@ == (Memory { token, areas: areas@ }),
    {
        MemorySet { token, areas }
    }

    /// A complete copy of a user address space at the root `token`.
    pub fn from_existed_user(user_space: &MemorySet, token: usize) -> (result: MemorySet)
        ensures
            result@ == (Memory { token, areas: user_space@.areas }),
    {
        let mut areas: Vec<MapArea> = Vec::new();
        let mut i: usize = 0;
        while i < user_space.areas.len()
            invariant
                i <= user_space.areas.len(),
                areas@ == user_space.areas@.take(i as int),
            decreases user_space.areas.len() - i,
        {
            areas.push(user_space.areas[i]);
            i = i + 1;
            assert(user_space.areas@.take(i as int).drop_last() =~= user_space.areas@.take(i - 1));
        }
        assert(user_space.areas@.take(i as int) =~= user_space.areas@);
        MemorySet { token, areas }
    }

    /// The root of the address space.
    pub fn token(&self) -> (result: usize)
        ensures
            result == self@.token,
    {
        self.token
    }

    /// How many areas there are.
    pub fn area_count(&self) -> (result: usize)
        ensures
            result == self@.areas.len(),
    {
        self.areas.len()
    }

    /// The area at index `i`.
    pub fn area(&self, i: usize) -> (result: MapArea)
        requires
            i < self@.areas.len(),
        ensures
            result == self@.areas[i as int],
    {
        self.areas[i]
    }

    /// Adds an area of the pages from `start` to `end`.
    pub fn insert_framed_area(&mut self, start: usize, end: usize, permission: MapPermission)
        ensures
            final(self)@ == (Memory {
                areas: old(self)@.areas.push(area_between(start, end, permission)),
                ..old(self)@
            }),
    {
        let start_vpn: usize = start / PAGE_SIZE;
        let end_vpn: usize = if end % PAGE_SIZE == 0 {
            end / PAGE_SIZE
        } else {
            end / PAGE_SIZE + 1
        };
        self.areas.push(MapArea { start_vpn, end_vpn, permission });
    }

    /// Where the first area that spans exactly the given pages stands.
    pub fn find_area(&self, start_vpn: usize, end_vpn: usize) -> (result: Option<usize>)
        ensures
            match result {
                Some(i) => first_spanning(
                    self@.areas,
                    start_vpn as int,
                    end_vpn as int,
                    i as int,
                ),
                None => forall|k: int|
                    0 <= k < self@.areas.len() ==> !spans(
                        #[trigger] self@.areas[k],
                        start_vpn as int,
                        end_vpn as int,
                    ),
            },
    {
        let mut i: usize = 0;
        while i < self.areas.len()
            invariant
                i <= self.areas.len(),
                forall|k: int|
                    0 <= k < i ==> !spans(
                        #[trigger] self.areas@[k],
                        start_vpn as int,
                        end_vpn as int,
                    ),
            decreases self.areas.len() - i,
        {
            let area = self.areas[i];
            if area.start_vpn == start_vpn && area.end_vpn == end_vpn {
                return Some(i);
            }
            i = i + 1;
        }
        None
    }

    /// Takes out the first area that spans exactly the pages of `start` and `end`, if there is
    /// one.
    pub fn unmap_area(&mut self, start: usize, end: usize)
        ensures
            final(self)@.token == old(self)@.token,
            forall|i: int|
                first_spanning(
                    old(self)@.areas,
                    page_floor(start as int),
                    page_floor(end as int),
                    i,
                ) ==> final(self)@.areas == old(self)@.areas.remove(i),
            (forall|k: int|
                0 <= k < old(self)@.areas.len() ==> !spans(
                    #[trigger] old(self)@.areas[k],
                    page_floor(start as int),
                    page_floor(end as int),
                )) ==> final(self)@ == old(self)@,
    {
        let ghost before = self@.areas;
        match self.find_area(start / PAGE_SIZE, end / PAGE_SIZE) {
            Some(at) => {
                self.areas.remove(at);
                assert forall|i: int|
                    first_spanning(
                        before,
                        page_floor(start as int),
                        page_floor(end as int),
                        i,
                    ) implies i == at by {
                    if i < at {
                        assert(!spans(
                            before[i],
                            page_floor(start as int),
                            page_floor(end as int),
                        ));
                    } else if at < i {
                        assert(!spans(
                            before[at as int],
                            page_floor(start as int),
                            page_floor(end as int),
                        ));
                    }
                }
            },
            None => {},
        }
    }
}

} // verus!
