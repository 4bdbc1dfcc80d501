//! When a request for a mutex or a semaphore is refused.

use super::banker::{
    countable, free, held, law_single_need, lemma_held_insert, safe, shaped, single_need,
};
use vstd::prelude::*;

verus! {

/// Each mutex that nobody owns is one free unit.
pub open spec fn mutex_available(owners: Seq<Option<usize>>) -> Seq<usize> {
    Seq::new(
        owners.len(),
        |j: int|
            if owners[j] is None {
                1usize
            } else {
                0
            },
    )
}

/// A thread holds one unit of each mutex that it owns.
pub open spec fn mutex_allocation(owners: Seq<Option<usize>>, n: nat) -> Seq<Seq<usize>> {
    Seq::new(
        n,
        |i: int|
            Seq::new(
                owners.len(),
                |j: int|
                    if owners[j] == Some(i as usize) {
                        1usize
                    } else {
                        0
                    },
            ),
    )
}

/// Whether thread `tid` of `n` waiting for mutex `id` leaves no order in which all can finish.
/// A thread that owns the mutex already, and one that or whose mutex does not exist, waits for
/// nothing.
pub open spec fn mutex_deadlock(
    owners: Seq<Option<usize>>,
    n: nat,
    tid: usize,
    id: usize,
) -> bool {
    &&& id < owners.len()
    &&& tid < n
    &&& owners[id as int] != Some(tid)
    &&& !safe(
        mutex_available(owners),
        mutex_allocation(owners, n),
        single_need(n, owners.len(), tid as int, id as int, 1),
    )
}

/// What thread `i` holds of a semaphore.
pub open spec fn entry(column: Seq<usize>, i: int) -> usize {
    if i < column.len() {
        column[i]
    } else {
        0
    }
}

/// What the first `n` threads hold of a semaphore.
pub open spec fn used(column: Seq<usize>, n: int) -> int
    decreases n,
{
    if n <= 0 {
        0
    } else {
        used(column, n - 1) + entry(column, n - 1)
    }
}

/// What of each semaphore is left; one with more in use than there is has nothing left.
pub open spec fn semaphore_available(
    columns: Seq<Seq<usize>>,
    totals: Seq<usize>,
    n: nat,
) -> Seq<usize> {
    Seq::new(
        columns.len(),
        |j: int|
            if entry(totals, j) < used(columns[j], n as int) {
                0usize
            } else {
                (entry(totals, j) - used(columns[j], n as int)) as usize
            },
    )
}

/// What each thread holds of each semaphore.
pub open spec fn semaphore_allocation(columns: Seq<Seq<usize>>, n: nat) -> Seq<Seq<usize>> {
    Seq::new(n, |i: int| Seq::new(columns.len(), |j: int| entry(columns[j], i)))
}

/// Whether thread `tid` of `n` waiting for `count` units of semaphore `id` leaves no order in
/// which all can finish. A thread that or whose semaphore does not exist waits for nothing.
pub open spec fn semaphore_deadlock(
    columns: Seq<Seq<usize>>,
    totals: Seq<usize>,
    n: nat,
    tid: usize,
    id: usize,
    count: usize,
) -> bool {
    &&& id < columns.len()
    &&& tid < n
    &&& !safe(
        semaphore_available(columns, totals, n),
        semaphore_allocation(columns, n),
        single_need(n, columns.len(), tid as int, id as int, count),
    )
}

/// Of a mutex, the first `k` threads that are in `done` hold a unit exactly if its owner is one
/// of them.
proof fn lemma_mutex_held(
    owners: Seq<Option<usize>>,
    n: nat,
    done: Set<int>,
    k: int,
    j: int,
)
    requires
        k <= n <= usize::MAX + 1,
        0 <= j < owners.len(),
    ensures
        held(mutex_allocation(owners, n), done, k, j) == if owners[j] matches Some(o) && o < k
            && done.contains(o as int) {
            1int
        } else {
            0
        },
    decreases k,
{
    if k > 0 {
        lemma_mutex_held(owners, n, done, k - 1, j);
        assert(mutex_allocation(owners, n)[k - 1][j] == if owners[j] == Some((k - 1) as usize) {
            1usize
        } else {
            0
        });
    }
}

/// The matrices of a request for a mutex fit together.
pub proof fn lemma_mutex_matrices(
    owners: Seq<Option<usize>>,
    n: nat,
    tid: int,
    id: int,
)
    requires
        n <= usize::MAX + 1,
    ensures
        shaped(
            mutex_available(owners),
            mutex_allocation(owners, n),
            single_need(n, owners.len(), tid, id, 1),
        ),
        countable(mutex_available(owners), mutex_allocation(owners, n)),
{
    assert forall|j: int| 0 <= j < owners.len() implies #[trigger] free(
        mutex_available(owners),
        mutex_allocation(owners, n),
        Set::full(),
        j,
    ) <= usize::MAX by {
        lemma_mutex_held(owners, n, Set::full(), n as int, j);
    }
}

/// Of a semaphore, all of the first `k` threads together hold what is in use.
proof fn lemma_semaphore_held(columns: Seq<Seq<usize>>, n: nat, k: int, j: int)
    requires
        k <= n,
        0 <= j < columns.len(),
    ensures
        held(semaphore_allocation(columns, n), Set::full(), k, j) == used(columns[j], k),
    decreases k,
{
    if k > 0 {
        lemma_semaphore_held(columns, n, k - 1, j);
        assert(semaphore_allocation(columns, n)[k - 1][j] == entry(columns[j], k - 1));
    }
}

/// The matrices of a request for a semaphore fit together.
pub proof fn lemma_semaphore_matrices(
    columns: Seq<Seq<usize>>,
    totals: Seq<usize>,
    n: nat,
    tid: int,
    id: int,
    count: usize,
)
    requires
        forall|j: int|
            0 <= j < columns.len() ==> used(#[trigger] columns[j], n as int) <= usize::MAX,
    ensures
        shaped(
            semaphore_available(columns, totals, n),
            semaphore_allocation(columns, n),
            single_need(n, columns.len(), tid, id, count),
        ),
        countable(semaphore_available(columns, totals, n), semaphore_allocation(columns, n)),
{
    assert forall|j: int| 0 <= j < columns.len() implies #[trigger] free(
        semaphore_available(columns, totals, n),
        semaphore_allocation(columns, n),
        Set::full(),
        j,
    ) <= usize::MAX by {
        lemma_semaphore_held(columns, n, n as int, j);
        lemma_used(columns[j], n as int, n as int);
    }
}

/// More threads never use less.
pub proof fn lemma_used(column: Seq<usize>, k: int, n: int)
    requires
        k <= n,
    ensures
        0 <= used(column, k) <= used(column, n),
    decreases n,
{
    if n > 0 {
        lemma_used(column, if k < n {
            k
        } else {
            n - 1
        }, n - 1);
    }
}

/// Only the requesting thread counts as waiting, so every other one can finish; a request for a
/// mutex is refused exactly if its owner is not a thread of the process.
pub proof fn law_mutex_deadlock(owners: Seq<Option<usize>>, n: nat, tid: usize, id: usize)
    requires
        n <= usize::MAX,
    ensures
        mutex_deadlock(owners, n, tid, id) <==> {
            &&& id < owners.len()
            &&& tid < n
            &&& owners[id as int] matches Some(owner) && owner >= n
        },
{
    if id < owners.len() && tid < n {
        let allocation = mutex_allocation(owners, n);
        law_single_need(mutex_available(owners), allocation, tid as int, id as int, 1);
        lemma_mutex_held(
            owners,
            n,
            Set::full().remove(tid as int),
            n as int,
            id as int,
        );
    }
}

/// A free mutex, and one that the thread itself owns, is never refused.
pub proof fn law_available_mutex_granted(
    owners: Seq<Option<usize>>,
    n: nat,
    tid: usize,
    id: usize,
)
    requires
        n <= usize::MAX,
        id < owners.len(),
        owners[id as int] is None || owners[id as int] == Some(tid),
    ensures
        !mutex_deadlock(owners, n, tid, id),
{
    law_mutex_deadlock(owners, n, tid, id);
}

/// A request for a semaphore is refused exactly if it asks for more than is left plus what the
/// other threads hold.
pub proof fn law_semaphore_deadlock(
    columns: Seq<Seq<usize>>,
    totals: Seq<usize>,
    n: nat,
    tid: usize,
    id: usize,
    count: usize,
)
    ensures
        semaphore_deadlock(columns, totals, n, tid, id, count) <==> {
            &&& id < columns.len()
            &&& tid < n
            &&& count > semaphore_available(columns, totals, n)[id as int] + used(
                columns[id as int],
                n as int,
            ) - entry(columns[id as int], tid as int)
        },
{
    if id < columns.len() && tid < n {
        let allocation = semaphore_allocation(columns, n);
        let available = semaphore_available(columns, totals, n);
        let others = Set::<int>::full().remove(tid as int);
        law_single_need(available, allocation, tid as int, id as int, count);
        lemma_semaphore_held(columns, n, n as int, id as int);
        lemma_held_insert(allocation, others, n as int, id as int, tid as int);
        assert(others.insert(tid as int) =~= Set::full());
        assert(allocation[tid as int][id as int] == entry(columns[id as int], tid as int));
    }
}

/// Asking for less is never worse.
pub proof fn law_smaller_request(
    columns: Seq<Seq<usize>>,
    totals: Seq<usize>,
    n: nat,
    tid: usize,
    id: usize,
    less: usize,
    more: usize,
)
    requires
        less <= more,
    ensures
        semaphore_deadlock(columns, totals, n, tid, id, less) ==> semaphore_deadlock(
            columns,
            totals,
            n,
            tid,
            id,
            more,
        ),
{
    law_semaphore_deadlock(columns, totals, n, tid, id, less);
    law_semaphore_deadlock(columns, totals, n, tid, id, more);
}

} // verus!
