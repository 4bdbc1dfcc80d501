//! Requests that would deadlock.

use crate::task::banker::{
    can_run, completes, free, held, lemma_held_empty, lemma_held_insert, safe,
};
use crate::task::deadlock::{law_semaphore_deadlock, lemma_used, semaphore_deadlock, used};
use vstd::prelude::*;

verus! {

/// What the first threads hold of a semaphore is the sum of their entries.
proof fn lemma_used_is_sum(column: Seq<usize>, n: int, plus: spec_fn(int, usize) -> int)
    requires
        0 <= n,
        forall|sum: int, units: usize| #[trigger] plus(sum, units) == sum + units,
    ensures
        used(column, n) == column.take(
            if n <= column.len() {
                n
            } else {
                column.len() as int
            },
        ).fold_left(0int, plus),
    decreases n,
{
    if n > 0 {
        lemma_used_is_sum(column, n - 1, plus);
        if n <= column.len() {
            assert(column.take(n).drop_last() =~= column.take(n - 1));
            assert(column.take(n).last() == column[n - 1]);
        } else {
            assert(n - 1 >= column.len());
        }
    }
}

/// What is in use of a semaphore is the sum of what the threads hold of it; a thread without an
/// entry holds nothing.
pub proof fn law_units_in_use(column: Seq<usize>, n: int)
    requires
        0 <= n,
    ensures
        n <= column.len() ==> used(column, n) == column.take(n).fold_left(
            0int,
            |sum: int, units: usize| sum + units,
        ),
        n >= column.len() ==> used(column, n) == column.fold_left(
            0int,
            |sum: int, units: usize| sum + units,
        ),
{
    lemma_used_is_sum(column, n, |sum: int, units: usize| sum + units);
    assert(column.take(column.len() as int) =~= column);
}

/// A thread that asks for units of a semaphore waits forever exactly if it asks for more than
/// there will be once all other threads have given theirs back: the total of that very semaphore,
/// or what is in use of it if that is more, without what the thread itself holds. A request that
/// names no thread or no semaphore is never refused.
pub proof fn law_semaphore_refusal(
    columns: Seq<Seq<usize>>,
    totals: Seq<usize>,
    n: nat,
    tid: usize,
    id: usize,
    count: usize,
)
    ensures
        !(id < columns.len() && tid < n) ==> !semaphore_deadlock(
            columns,
            totals,
            n,
            tid,
            id,
            count,
        ),
        id < columns.len() && tid < n ==> {
            let column = columns[id as int];
            let total: int = if id < totals.len() {
                totals[id as int] as int
            } else {
                0
            };
            let in_use: int = column.take(
                if n <= column.len() {
                    n as int
                } else {
                    column.len() as int
                },
            ).fold_left(0int, |sum: int, units: usize| sum + units);
            let own: int = if tid < column.len() {
                column[tid as int] as int
            } else {
                0
            };
            let most = if total < in_use {
                in_use
            } else {
                total
            };
            semaphore_deadlock(columns, totals, n, tid, id, count) <==> count > most - own
        },
{
    law_semaphore_deadlock(columns, totals, n, tid, id, count);
    if id < columns.len() && tid < n {
        lemma_used_is_sum(columns[id as int], n as int, |sum: int, units: usize| sum + units);
        lemma_used(columns[id as int], 0, n as int);
    }
}

/// Neither the total of another semaphore nor who holds what of it has a say.
pub proof fn law_other_semaphores_have_no_say(
    columns: Seq<Seq<usize>>,
    totals: Seq<usize>,
    other_columns: Seq<Seq<usize>>,
    other_totals: Seq<usize>,
    n: nat,
    tid: usize,
    id: usize,
    count: usize,
)
    requires
        id < columns.len(),
        id < other_columns.len(),
        columns[id as int] == other_columns[id as int],
        id < totals.len(),
        id < other_totals.len(),
        totals[id as int] == other_totals[id as int],
    ensures
        semaphore_deadlock(columns, totals, n, tid, id, count) <==> semaphore_deadlock(
            other_columns,
            other_totals,
            n,
            tid,
            id,
            count,
        ),
{
    law_semaphore_refusal(columns, totals, n, tid, id, count);
    law_semaphore_refusal(other_columns, other_totals, n, tid, id, count);
}

/// What the threads of an order hold is the sum of what each of them holds.
proof fn lemma_held_is_sum(
    allocation: Seq<Seq<usize>>,
    order: Seq<int>,
    j: int,
    plus: spec_fn(int, int) -> int,
)
    requires
        order.no_duplicates(),
        forall|k: int| 0 <= k < order.len() ==> 0 <= #[trigger] order[k] < allocation.len(),
        forall|sum: int, i: int| #[trigger] plus(sum, i) == sum + allocation[i][j],
    ensures
        held(allocation, order.to_set(), allocation.len() as int, j) == order.fold_left(0int, plus),
    decreases order.len(),
{
    if order.len() == 0 {
        assert(order.to_set() =~= Set::<int>::empty());
        lemma_held_empty(allocation, allocation.len() as int, j);
    } else {
        let before = order.drop_last();
        let last = order.last();
        assert forall|k: int| 0 <= k < before.len() implies 0 <= #[trigger] before[k]
            < allocation.len() by {
            assert(before[k] == order[k]);
        }
        lemma_held_is_sum(allocation, before, j, plus);
        assert(!before.to_set().contains(last)) by {
            if before.contains(last) {
                let k = choose|k: int| 0 <= k < before.len() && before[k] == last;
                assert(order[k] == order[order.len() - 1]);
            }
        }
        assert(order.to_set() =~= before.to_set().insert(last)) by {
            assert forall|x: int| order.to_set().contains(x) <==> before.to_set().insert(
                last,
            ).contains(x) by {
                if order.contains(x) {
                    let k = choose|k: int| 0 <= k < order.len() && order[k] == x;
                    if k < before.len() {
                        assert(before[k] == x);
                    }
                }
                if before.contains(x) {
                    let k = choose|k: int| 0 <= k < before.len() && before[k] == x;
                    assert(order[k] == x);
                }
                assert(order[order.len() - 1] == last);
            }
        }
        lemma_held_insert(allocation, before.to_set(), allocation.len() as int, j, last);
    }
}

/// An order completes if each of its threads, distinct ones of those that there are, needs of no
/// resource more than is available and those before it hold.
proof fn lemma_completes(
    available: Seq<usize>,
    allocation: Seq<Seq<usize>>,
    need: Seq<Seq<usize>>,
    order: Seq<int>,
    plus: spec_fn(int) -> spec_fn(int, int) -> int,
)
    requires
        order.no_duplicates(),
        forall|k: int| 0 <= k < order.len() ==> 0 <= #[trigger] order[k] < allocation.len(),
        forall|j: int, sum: int, i: int| #[trigger] plus(j)(sum, i) == sum + allocation[i][j],
    ensures
        completes(available, allocation, need, order) <==> forall|k: int, j: int|
            0 <= k < order.len() && 0 <= j < available.len() ==> #[trigger] need[order[k]][j]
                <= available[j] + order.take(k).fold_left(0int, plus(j)),
{
    assert forall|k: int, j: int| 0 <= k < order.len() && 0 <= j < available.len() implies #[trigger] free(
        available,
        allocation,
        order.take(k).to_set(),
        j,
    ) == available[j] + order.take(k).fold_left(0int, plus(j)) by {
        assert forall|p: int| 0 <= p < order.take(k).len() implies 0 <= #[trigger] order.take(k)[p]
            < allocation.len() by {
            assert(order.take(k)[p] == order[p]);
        }
        lemma_held_is_sum(allocation, order.take(k), j, plus(j));
    }
    if completes(available, allocation, need, order) {
        assert forall|k: int, j: int|
            0 <= k < order.len() && 0 <= j < available.len() implies #[trigger] need[order[k]][j]
            <= available[j] + order.take(k).fold_left(0int, plus(j)) by {
            assert(can_run(available, allocation, need, order.take(k).to_set(), order[k]));
            assert(free(available, allocation, order.take(k).to_set(), j) >= need[order[k]][j]);
        }
    }
    if forall|k: int, j: int|
        0 <= k < order.len() && 0 <= j < available.len() ==> #[trigger] need[order[k]][j]
            <= available[j] + order.take(k).fold_left(0int, plus(j)) {
        assert forall|k: int| 0 <= k < order.len() implies can_run(
            available,
            allocation,
            need,
            order.take(k).to_set(),
            #[trigger] order[k],
        ) by {
            assert forall|j: int| 0 <= j < available.len() implies #[trigger] need[order[k]][j]
                <= free(available, allocation, order.take(k).to_set(), j) by {}
        }
    }
}

/// A state is safe exactly if all threads can be put into an order in which each needs of no
/// resource more than is available at first and the threads before it give back.
pub proof fn law_safe_order(
    available: Seq<usize>,
    allocation: Seq<Seq<usize>>,
    need: Seq<Seq<usize>>,
)
    ensures
        safe(available, allocation, need) <==> exists|order: Seq<int>|
            {
                &&& #[trigger] order.no_duplicates()
                &&& forall|k: int| 0 <= k < order.len() ==> 0 <= #[trigger] order[k] < allocation.len()
                &&& forall|i: int| 0 <= i < allocation.len() ==> order.contains(i)
                &&& forall|k: int, j: int|
                    0 <= k < order.len() && 0 <= j < available.len() ==> #[trigger] need[order[k]][j]
                        <= available[j] + order.take(k).fold_left(
                        0int,
                        |sum: int, i: int| sum + allocation[i][j],
                    )
            },
{
    let plus = |j: int| |sum: int, i: int| sum + allocation[i][j];
    assert forall|j: int| #[trigger] plus(j) == (|sum: int, i: int| sum + allocation[i][j]) by {}
    if safe(available, allocation, need) {
        let order = choose|order: Seq<int>|
            {
                &&& #[trigger] completes(available, allocation, need, order)
                &&& forall|i: int| 0 <= i < allocation.len() ==> order.contains(i)
            };
        lemma_completes(available, allocation, need, order, plus);
        assert(order.no_duplicates());
        assert forall|k: int, j: int|
            0 <= k < order.len() && 0 <= j < available.len() implies #[trigger] need[order[k]][j]
            <= available[j] + order.take(k).fold_left(
            0int,
            |sum: int, i: int| sum + allocation[i][j],
        ) by {
            assert(plus(j) == (|sum: int, i: int| sum + allocation[i][j]));
        }
    }
    if exists|order: Seq<int>|
        {
            &&& #[trigger] order.no_duplicates()
            &&& forall|k: int| 0 <= k < order.len() ==> 0 <= #[trigger] order[k] < allocation.len()
            &&& forall|i: int| 0 <= i < allocation.len() ==> order.contains(i)
            &&& forall|k: int, j: int|
                0 <= k < order.len() && 0 <= j < available.len() ==> #[trigger] need[order[k]][j]
                    <= available[j] + order.take(k).fold_left(
                    0int,
                    |sum: int, i: int| sum + allocation[i][j],
                )
        } {
        let order = choose|order: Seq<int>|
            {
                &&& #[trigger] order.no_duplicates()
                &&& forall|k: int| 0 <= k < order.len() ==> 0 <= #[trigger] order[k] < allocation.len()
                &&& forall|i: int| 0 <= i < allocation.len() ==> order.contains(i)
                &&& forall|k: int, j: int|
                    0 <= k < order.len() && 0 <= j < available.len() ==> #[trigger] need[order[k]][j]
                        <= available[j] + order.take(k).fold_left(
                        0int,
                        |sum: int, i: int| sum + allocation[i][j],
                    )
            };
        assert forall|k: int, j: int|
            0 <= k < order.len() && 0 <= j < available.len() implies #[trigger] need[order[k]][j]
            <= available[j] + order.take(k).fold_left(0int, plus(j)) by {
            assert(plus(j) == (|sum: int, i: int| sum + allocation[i][j]));
        }
        lemma_completes(available, allocation, need, order, plus);
        assert(completes(available, allocation, need, order));
    }
}

} // verus!
