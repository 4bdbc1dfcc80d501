//! Values that the kernel leaves in memory for a user program.

use vstd::layout::size_of;
use vstd::prelude::*;

verus! {

/// A value and its width.
#[derive(Clone, Copy, Debug, PartialEq, Eq, Structural)]
pub enum StoreValue {
    Byte(u8),
    Int(i32),
    Word(usize),
}

impl StoreValue {
    /// How many bytes the value takes.
    pub open spec fn size(self) -> int {
        match self {
            StoreValue::Byte(_) => 1,
            StoreValue::Int(_) => 4,
            StoreValue::Word(_) => size_of::<usize>() as int,
        }
    }
}

/// A value to be written at the virtual address `addr` of the address space `token`.
#[derive(Clone, Copy, Debug, PartialEq, Eq, Structural)]
pub struct UserStore {
    pub token: usize,
    pub addr: usize,
    pub value: StoreValue,
}

impl UserStore {
    /// Whether the two write to a common byte.
    pub open spec fn overlaps(self, other: UserStore) -> bool {
        &&& self.token == other.token
        &&& self.addr < other.addr + other.value.size()
        &&& other.addr < self.addr + self.value.size()
    }
}

/// Whether, once all stores are done in order, the value of `store` is what memory holds there:
/// it is one of them, and none after it writes to a byte of it.
pub open spec fn visible(stores: Seq<UserStore>, store: UserStore) -> bool {
    exists|k: int|
        {
            &&& 0 <= k < stores.len()
            &&& #[trigger] stores[k] == store
            &&& forall|l: int| k < l < stores.len() ==> !store.overlaps(#[trigger] stores[l])
        }
}

/// What was visible stays so under stores elsewhere.
pub proof fn lemma_visible_append(
    stores: Seq<UserStore>,
    more: Seq<UserStore>,
    store: UserStore,
)
    requires
        visible(stores, store),
        forall|l: int| 0 <= l < more.len() ==> !store.overlaps(#[trigger] more[l]),
    ensures
        visible(stores + more, store),
{
    let k = choose|k: int|
        {
            &&& 0 <= k < stores.len()
            &&& #[trigger] stores[k] == store
            &&& forall|l: int| k < l < stores.len() ==> !store.overlaps(#[trigger] stores[l])
        };
    let all = stores + more;
    assert(all[k] == store);
    assert forall|l: int| k < l < all.len() implies !store.overlaps(#[trigger] all[l]) by {
        if l < stores.len() {
            assert(all[l] == stores[l]);
        } else {
            assert(all[l] == more[l - stores.len()]);
        }
    }
}

/// A byte to be written at a physical address.
#[derive(Clone, Copy, Debug, PartialEq, Eq, Structural)]
pub struct PhysByte {
    pub addr: usize,
    pub value: u8,
}

} // verus!
