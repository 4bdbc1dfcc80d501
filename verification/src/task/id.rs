//! Identifiers of processes and threads.

use vstd::prelude::*;

verus! {

/// What an allocator has handed out: the numbers below `next` that are not in `recycled`.
#[verifier::ext_equal]
pub struct Ids {
    pub next: nat,
    pub recycled: Seq<usize>,
}

impl Ids {
    /// Nothing was handed out yet.
    pub open spec fn fresh() -> Ids {
        Ids { next: 0, recycled: Seq::empty() }
    }

    /// Each number given back was handed out, and is given back once.
    pub open spec fn wf(self) -> bool {
        &&& self.next <= usize::MAX
        &&& self.recycled.no_duplicates()
        &&& forall|i: int| 0 <= i < self.recycled.len() ==> #[trigger] self.recycled[i] < self.next
    }

    /// Whether `id` is handed out and not given back.
    pub open spec fn live(self, id: usize) -> bool {
        id < self.next && !self.recycled.contains(id)
    }

    /// Whether another number can be handed out.
    pub open spec fn has_next(self) -> bool {
        self.recycled.len() > 0 || self.next < usize::MAX
    }

    /// The number that comes next: the one given back last, else the smallest unused one.
    pub open spec fn next_id(self) -> usize {
        if self.recycled.len() > 0 {
            self.recycled.last()
        } else {
            self.next as usize
        }
    }

    /// The state once the next number is handed out.
    pub open spec fn after_alloc(self) -> Ids {
        if self.recycled.len() > 0 {
            Ids { recycled: self.recycled.drop_last(), ..self }
        } else {
            Ids { next: self.next + 1, ..self }
        }
    }

    /// The state once `id` is given back.
    pub open spec fn after_dealloc(self, id: usize) -> Ids {
        Ids { recycled: self.recycled.push(id), ..self }
    }
}

/// A number that is handed out was not in use; afterwards it is, and no other has changed.
pub proof fn law_alloc_gives_unused(ids: Ids)
    requires
        ids.wf(),
        ids.has_next(),
    ensures
        ids.after_alloc().wf(),
        !ids.live(ids.next_id()),
        forall|id: usize| #[trigger]
            ids.after_alloc().live(id) <==> ids.live(id) || id == ids.next_id(),
{
    let after = ids.after_alloc();
    if ids.recycled.len() > 0 {
        let last = ids.recycled.last();
        assert(ids.recycled[ids.recycled.len() - 1] == last);
        assert forall|id: usize| #[trigger] after.live(id) <==> ids.live(id) || id == last by {
            if ids.recycled.contains(id) && id != last {
                let k = choose|k: int| 0 <= k < ids.recycled.len() && ids.recycled[k] == id;
                assert(after.recycled[k] == id);
            }
            if after.recycled.contains(id) {
                let k = choose|k: int| 0 <= k < after.recycled.len() && after.recycled[k] == id;
                assert(ids.recycled[k] == id);
            }
        }
    }
}

/// A number given back is no longer in use, and no other has changed.
pub proof fn law_dealloc_frees(ids: Ids, id: usize)
    requires
        ids.wf(),
        ids.live(id),
    ensures
        ids.after_dealloc(id).wf(),
        forall|x: usize| #[trigger]
            ids.after_dealloc(id).live(x) <==> ids.live(x) && x != id,
{
    let after = ids.after_dealloc(id);
    assert forall|x: usize| #[trigger] after.live(x) <==> ids.live(x) && x != id by {
        if ids.recycled.contains(x) {
            let k = choose|k: int| 0 <= k < ids.recycled.len() && ids.recycled[k] == x;
            assert(after.recycled[k] == x);
        }
        assert(after.recycled[ids.recycled.len() as int] == id);
    }
}

/// Giving a number back and asking for one hands out the same number and restores the state.
pub proof fn law_recycles_last(ids: Ids, id: usize)
    ensures
        ids.after_dealloc(id).has_next(),
        ids.after_dealloc(id).next_id() == id,
        ids.after_dealloc(id).after_alloc() == ids,
{
    assert(ids.recycled.push(id).drop_last() =~= ids.recycled);
}

/// Hands out numbers, the ones given back first.
pub struct RecycleAllocator {
    current: usize,
    recycled: Vec<usize>,
}

impl View for RecycleAllocator {
    type V = Ids;

    closed spec fn view(&self) -> Ids {
        Ids { next: self.current as nat, recycled: self.recycled@ }
    }
}

impl RecycleAllocator {
    /// An allocator that has handed out nothing.
    pub fn new() -> (result: RecycleAllocator)
        ensures
            result@ == Ids::fresh(),
            result@.wf(),
    {
        RecycleAllocator { current: 0, recycled: Vec::new() }
    }

    /// Whether another number can be handed out.
    pub fn can_allocate(&self) -> (result: bool)
        ensures
            result == self@.has_next(),
    {
        self.recycled.len() > 0 || self.current < usize::MAX
    }

    /// Hands out the number given back last, else the smallest one never handed out.
    pub fn allocate(&mut self) -> (id: usize)
        requires
            old(self)@.wf(),
            old(self)@.has_next(),
        ensures
            id == old(self)@.next_id(),
            final(self)@ == old(self)@.after_alloc(),
            final(self)@.wf(),
    {
        proof {
            law_alloc_gives_unused(self@);
        }
        match self.recycled.pop() {
            Some(id) => id,
            None => {
                let id: usize = self.current;
                self.current = id + 1;
                id
            },
        }
    }

    /// Takes back a number that is in use.
    pub fn deallocate(&mut self, id: usize)
        requires
            old(self)@.wf(),
            old(self)@.live(id),
        ensures
            final(self)@ == old(self)@.after_dealloc(id),
            final(self)@.wf(),
    {
        proof {
            law_dealloc_frees(self@, id);
        }
        self.recycled.push(id);
    }
}

/// The number by which a process is known.
pub struct PidHandle(pub usize);

} // verus!
