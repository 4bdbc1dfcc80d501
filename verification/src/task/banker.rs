//! The safety test of the banker's algorithm.
//!
//! Threads are the rows of the `allocation` and `need` matrices, resources their columns.

use vstd::prelude::*;
use vstd::set_lib::{lemma_int_range, lemma_len_subset, set_int_range};

verus! {

/// The rows of a matrix as sequences.
pub open spec fn rows(m: Seq<Vec<usize>>) -> Seq<Seq<usize>> {
    Seq::new(m.len(), |i: int| m[i]@)
}

/// Units of resource `j` that those of the first `n` threads hold which are in `done`.
pub open spec fn held(allocation: Seq<Seq<usize>>, done: Set<int>, n: int, j: int) -> int
    decreases n,
{
    if n <= 0 {
        0
    } else {
        held(allocation, done, n - 1, j) + if done.contains(n - 1) {
            allocation[n - 1][j] as int
        } else {
            0
        }
    }
}

/// Units of resource `j` that are free once the threads in `done` have given theirs back.
pub open spec fn free(
    available: Seq<usize>,
    allocation: Seq<Seq<usize>>,
    done: Set<int>,
    j: int,
) -> int {
    available[j] + held(allocation, done, allocation.len() as int, j)
}

/// Whether what thread `i` still needs is free once the threads in `done` have finished.
pub open spec fn can_run(
    available: Seq<usize>,
    allocation: Seq<Seq<usize>>,
    need: Seq<Seq<usize>>,
    done: Set<int>,
    i: int,
) -> bool {
    forall|j: int|
        0 <= j < available.len() ==> #[trigger] need[i][j] <= free(available, allocation, done, j)
}

/// Whether the threads of `order` can finish one after the other, each with what is available
/// and what those before it have given back.
pub open spec fn completes(
    available: Seq<usize>,
    allocation: Seq<Seq<usize>>,
    need: Seq<Seq<usize>>,
    order: Seq<int>,
) -> bool {
    &&& order.no_duplicates()
    &&& forall|k: int| 0 <= k < order.len() ==> 0 <= #[trigger] order[k] < allocation.len()
    &&& forall|k: int|
        0 <= k < order.len() ==> can_run(
            available,
            allocation,
            need,
            order.take(k).to_set(),
            #[trigger] order[k],
        )
}

/// A state is safe if there is an order in which every thread can finish.
pub open spec fn safe(
    available: Seq<usize>,
    allocation: Seq<Seq<usize>>,
    need: Seq<Seq<usize>>,
) -> bool {
    exists|order: Seq<int>|
        {
            &&& #[trigger] completes(available, allocation, need, order)
            &&& forall|i: int| 0 <= i < allocation.len() ==> order.contains(i)
        }
}

/// The matrices have one row per thread and one column per resource.
pub open spec fn shaped(
    available: Seq<usize>,
    allocation: Seq<Seq<usize>>,
    need: Seq<Seq<usize>>,
) -> bool {
    &&& need.len() == allocation.len()
    &&& forall|i: int|
        0 <= i < allocation.len() ==> (#[trigger] allocation[i]).len() == available.len()
    &&& forall|i: int| 0 <= i < need.len() ==> (#[trigger] need[i]).len() == available.len()
}

/// All units of each resource together can be counted in a machine word.
pub open spec fn countable(available: Seq<usize>, allocation: Seq<Seq<usize>>) -> bool {
    forall|j: int|
        0 <= j < available.len() ==> #[trigger] free(available, allocation, Set::full(), j)
            <= usize::MAX
}

/// More threads done never hold less.
proof fn lemma_held_monotone(
    allocation: Seq<Seq<usize>>,
    a: Set<int>,
    b: Set<int>,
    n: int,
    j: int,
)
    requires
        a.subset_of(b),
    ensures
        0 <= held(allocation, a, n, j) <= held(allocation, b, n, j),
    decreases n,
{
    if n > 0 {
        lemma_held_monotone(allocation, a, b, n - 1, j);
    }
}

/// A thread beyond the first `n` does not count among them.
proof fn lemma_held_outside(allocation: Seq<Seq<usize>>, a: Set<int>, n: int, j: int, i: int)
    requires
        n <= i,
    ensures
        held(allocation, a.insert(i), n, j) == held(allocation, a, n, j),
    decreases n,
{
    if n > 0 {
        lemma_held_outside(allocation, a, n - 1, j, i);
    }
}

/// One more thread done adds exactly what it held.
pub proof fn lemma_held_insert(allocation: Seq<Seq<usize>>, a: Set<int>, n: int, j: int, i: int)
    requires
        0 <= i < n,
        !a.contains(i),
    ensures
        held(allocation, a.insert(i), n, j) == held(allocation, a, n, j) + allocation[i][j],
    decreases n,
{
    if i == n - 1 {
        lemma_held_outside(allocation, a, n - 1, j, i);
    } else {
        lemma_held_insert(allocation, a, n - 1, j, i);
    }
}

/// Distinct numbers below `n` are at most `n` many.
proof fn lemma_distinct_bounded(s: Seq<int>, n: int)
    requires
        0 <= n,
        s.no_duplicates(),
        forall|k: int| 0 <= k < s.len() ==> 0 <= #[trigger] s[k] < n,
    ensures
        s.len() <= n,
{
    s.unique_seq_to_set();
    lemma_int_range(0, n);
    assert forall|x: int| s.to_set().contains(x) implies set_int_range(0, n).contains(x) by {
        let k = choose|k: int| 0 <= k < s.len() && s[k] == x;
        assert(0 <= s[k] < n);
    }
    lemma_len_subset(s.to_set(), set_int_range(0, n));
}

/// A thread that can run once `order` has finished may be put behind `order`.
proof fn lemma_completes_push(
    available: Seq<usize>,
    allocation: Seq<Seq<usize>>,
    need: Seq<Seq<usize>>,
    order: Seq<int>,
    i: int,
)
    requires
        completes(available, allocation, need, order),
        0 <= i < allocation.len(),
        !order.contains(i),
        can_run(available, allocation, need, order.to_set(), i),
    ensures
        completes(available, allocation, need, order.push(i)),
        order.push(i).to_set() == order.to_set().insert(i),
{
    let longer = order.push(i);
    assert(longer.to_set() =~= order.to_set().insert(i)) by {
        assert forall|x: int| order.to_set().insert(i).contains(x) implies longer.to_set().contains(
            x,
        ) by {
            if x == i {
                assert(longer[order.len() as int] == i);
            } else {
                let k = choose|k: int| 0 <= k < order.len() && order[k] == x;
                assert(longer[k] == x);
            }
        }
    }
    assert forall|k: int| 0 <= k < longer.len() implies can_run(
        available,
        allocation,
        need,
        longer.take(k).to_set(),
        #[trigger] longer[k],
    ) by {
        assert(longer.take(k) =~= order.take(k));
        if k == order.len() {
            assert(order.take(k) =~= order);
        } else {
            assert(longer[k] == order[k]);
        }
    }
}

/// If no thread outside `done` can run once `done` has finished, every thread of an order that
/// completes is in `done`.
proof fn lemma_stuck(
    available: Seq<usize>,
    allocation: Seq<Seq<usize>>,
    need: Seq<Seq<usize>>,
    done: Set<int>,
    order: Seq<int>,
    k: int,
)
    requires
        completes(available, allocation, need, order),
        forall|i: int|
            0 <= i < allocation.len() && !done.contains(i) ==> !can_run(
                available,
                allocation,
                need,
                done,
                i,
            ),
        0 <= k <= order.len(),
    ensures
        order.take(k).to_set().subset_of(done),
    decreases k,
{
    if k > 0 {
        lemma_stuck(available, allocation, need, done, order, k - 1);
        let before = order.take(k - 1);
        let i = order[k - 1];
        assert(can_run(available, allocation, need, before.to_set(), i));
        if !done.contains(i) {
            assert forall|j: int| 0 <= j < available.len() implies #[trigger] need[i][j] <= free(
                available,
                allocation,
                done,
                j,
            ) by {
                lemma_held_monotone(
                    allocation,
                    before.to_set(),
                    done,
                    allocation.len() as int,
                    j,
                );
            }
            assert(can_run(available, allocation, need, done, i));
        }
        assert forall|x: int| order.take(k).to_set().contains(x) implies done.contains(x) by {
            let p = choose|p: int| 0 <= p < k && order.take(k)[p] == x;
            if p < k - 1 {
                assert(before[p] == x);
            }
        }
    }
}

/// The need matrix of a state in which only thread `t` waits, for `count` units of resource `s`.
pub open spec fn single_need(n: nat, m: nat, t: int, s: int, count: usize) -> Seq<Seq<usize>> {
    Seq::new(
        n,
        |i: int|
            Seq::new(
                m,
                |j: int|
                    if i == t && j == s {
                        count
                    } else {
                        0
                    },
            ),
    )
}

/// What the first `n` threads hold depends on no other thread.
proof fn lemma_held_agrees(allocation: Seq<Seq<usize>>, a: Set<int>, b: Set<int>, n: int, j: int)
    requires
        forall|i: int| 0 <= i < n ==> (a.contains(i) <==> b.contains(i)),
    ensures
        held(allocation, a, n, j) == held(allocation, b, n, j),
    decreases n,
{
    if n > 0 {
        lemma_held_agrees(allocation, a, b, n - 1, j);
    }
}

/// With a single thread waiting, the state is safe exactly if what it waits for is free once all
/// the others have finished.
pub proof fn law_single_need(
    available: Seq<usize>,
    allocation: Seq<Seq<usize>>,
    t: int,
    s: int,
    count: usize,
)
    requires
        0 <= t < allocation.len(),
        0 <= s < available.len(),
    ensures
        safe(
            available,
            allocation,
            single_need(allocation.len(), available.len(), t, s, count),
        ) <==> count <= free(available, allocation, Set::full().remove(t), s),
{
    let n = allocation.len() as int;
    let need = single_need(allocation.len(), available.len(), t, s, count);
    let others = Set::<int>::full().remove(t);
    if count <= free(available, allocation, others, s) {
        let order = Seq::new(
            n as nat,
            |k: int|
                if k == n - 1 {
                    t
                } else if k < t {
                    k
                } else {
                    k + 1
                },
        );
        assert forall|k: int| 0 <= k < order.len() implies can_run(
            available,
            allocation,
            need,
            order.take(k).to_set(),
            #[trigger] order[k],
        ) by {
            let done = order.take(k).to_set();
            let i = order[k];
            assert forall|j: int| 0 <= j < available.len() implies #[trigger] need[i][j] <= free(
                available,
                allocation,
                done,
                j,
            ) by {
                lemma_held_monotone(allocation, done, done, n, j);
                if i == t && j == s {
                    assert forall|x: int| 0 <= x < n implies (done.contains(x)
                        <==> others.contains(x)) by {
                        if x != t {
                            let p = if x < t {
                                x
                            } else {
                                x - 1
                            };
                            assert(order.take(k)[p] == x);
                        } else if done.contains(t) {
                            let p = choose|p: int| 0 <= p < k && order.take(k)[p] == t;
                            assert(order[p] == t);
                        }
                    }
                    lemma_held_agrees(allocation, done, others, n, j);
                }
            }
        }
        assert(completes(available, allocation, need, order));
        assert forall|i: int| 0 <= i < n implies order.contains(i) by {
            let p = if i == t {
                n - 1
            } else if i < t {
                i
            } else {
                i - 1
            };
            assert(order[p] == i);
        }
    }
    if safe(available, allocation, need) {
        let order = choose|order: Seq<int>|
            {
                &&& #[trigger] completes(available, allocation, need, order)
                &&& forall|i: int| 0 <= i < allocation.len() ==> order.contains(i)
            };
        assert(order.contains(t));
        let k = choose|k: int| 0 <= k < order.len() && order[k] == t;
        let done = order.take(k).to_set();
        assert(can_run(available, allocation, need, done, order[k]));
        assert(need[t][s] <= free(available, allocation, done, s));
        assert(done.subset_of(others)) by {
            assert forall|x: int| done.contains(x) implies others.contains(x) by {
                let p = choose|p: int| 0 <= p < k && order.take(k)[p] == x;
                assert(order[p] == x);
            }
        }
        lemma_held_monotone(allocation, done, others, n, s);
    }
}

/// Whether every thread can finish in some order: each waits until what it needs is free, and
/// then gives back all that it holds.
pub fn is_safe(
    available: &Vec<usize>,
    allocation: &Vec<Vec<usize>>,
    need: &Vec<Vec<usize>>,
) -> (result: bool)
    requires
        shaped(available@, rows(allocation@), rows(need@)),
        countable(available@, rows(allocation@)),
    ensures
        result == safe(available@, rows(allocation@), rows(need@)),
{
    let m: usize = available.len();
    let n: usize = allocation.len();
    let ghost avail = available@;
    let ghost alloc = rows(allocation@);
    let ghost want = rows(need@);
    let mut work: Vec<usize> = available.clone();
    let mut finish: Vec<bool> = vec![false; n];
    let ghost mut order: Seq<int> = Seq::empty();
    proof {
        assert(order.to_set() =~= Set::<int>::empty());
        assert forall|j: int| 0 <= j < m implies #[trigger] work[j] == free(
            avail,
            alloc,
            order.to_set(),
            j,
        ) by {
            lemma_held_empty(alloc, n as int, j);
        }
    }
    let mut progressed: bool = true;
    while progressed
        invariant
            m == avail.len(),
            n == alloc.len(),
            avail == available@,
            alloc == rows(allocation@),
            want == rows(need@),
            shaped(avail, alloc, want),
            countable(avail, alloc),
            work.len() == m,
            finish.len() == n,
            completes(avail, alloc, want, order),
            forall|i: int| 0 <= i < n ==> (#[trigger] finish[i] <==> order.contains(i)),
            forall|j: int|
                0 <= j < m ==> #[trigger] work[j] == free(avail, alloc, order.to_set(), j),
            !progressed ==> forall|i: int|
                0 <= i < n && !order.contains(i) ==> !can_run(
                    avail,
                    alloc,
                    want,
                    order.to_set(),
                    i,
                ),
            order.len() <= n,
        decreases n - order.len(), progressed as int,
    {
        progressed = false;
        let ghost start = order;
        let mut i: usize = 0;
        while i < n
            invariant
                m == avail.len(),
                n == alloc.len(),
                avail == available@,
                alloc == rows(allocation@),
                want == rows(need@),
                shaped(avail, alloc, want),
                countable(avail, alloc),
                work.len() == m,
                finish.len() == n,
                i <= n,
                completes(avail, alloc, want, order),
                forall|t: int| 0 <= t < n ==> (#[trigger] finish[t] <==> order.contains(t)),
                forall|j: int|
                    0 <= j < m ==> #[trigger] work[j] == free(avail, alloc, order.to_set(), j),
                !progressed ==> order == start,
                progressed ==> order.len() > start.len(),
                !progressed ==> forall|t: int|
                    0 <= t < i && !order.contains(t) ==> !can_run(
                        avail,
                        alloc,
                        want,
                        order.to_set(),
                        t,
                    ),
            decreases n - i,
        {
            if !finish[i] {
                assert(want[i as int] == need[i as int]@);
                if fits(&need[i], &work) {
                    assert(can_run(avail, alloc, want, order.to_set(), i as int)) by {
                        assert forall|j: int| 0 <= j < avail.len() implies #[trigger] want[i
                            as int][j] <= free(avail, alloc, order.to_set(), j) by {
                            assert(work[j] == free(avail, alloc, order.to_set(), j));
                        }
                    }
                    proof {
                        lemma_completes_push(avail, alloc, want, order, i as int);
                        assert forall|j: int| 0 <= j < m implies #[trigger] free(
                            avail,
                            alloc,
                            order.push(i as int).to_set(),
                            j,
                        ) == work[j] + alloc[i as int][j] && work[j] + alloc[i as int][j]
                            <= usize::MAX by {
                            assert(work[j] == free(avail, alloc, order.to_set(), j));
                            lemma_held_insert(alloc, order.to_set(), n as int, j, i as int);
                            lemma_held_monotone(
                                alloc,
                                order.push(i as int).to_set(),
                                Set::full(),
                                n as int,
                                j,
                            );
                            assert(free(avail, alloc, Set::full(), j) <= usize::MAX);
                        }
                    }
                    assert(alloc[i as int] == allocation[i as int]@);
                    assert forall|j: int| 0 <= j < m implies work@[j] + allocation[i as int]@[j]
                        <= usize::MAX by {
                        assert(free(avail, alloc, order.push(i as int).to_set(), j) >= 0);
                    }
                    release(&mut work, &allocation[i]);
                    let ghost earlier = order;
                    proof {
                        order = order.push(i as int);
                        assert forall|j: int| 0 <= j < m implies #[trigger] work[j] == free(
                            avail,
                            alloc,
                            order.to_set(),
                            j,
                        ) by {
                            assert(free(avail, alloc, earlier.push(i as int).to_set(), j) >= 0);
                        }
                        assert forall|t: int| 0 <= t < n implies (order.contains(t) <==> t == i
                            || earlier.contains(t)) by {
                            assert(order.to_set().contains(t) <==> earlier.to_set().insert(
                                i as int,
                            ).contains(t));
                        }
                    }
                    finish.set(i, true);
                    progressed = true;
                } else {
                    assert(!can_run(avail, alloc, want, order.to_set(), i as int)) by {
                        let j = choose|j: int| 0 <= j < m && need[i as int]@[j] > work[j];
                        assert(work[j] == free(avail, alloc, order.to_set(), j));
                        assert(want[i as int][j] > free(avail, alloc, order.to_set(), j));
                    }
                }
            }
            i = i + 1;
        }
        proof {
            lemma_distinct_bounded(order, n as int);
        }
    }
    let result = all_set(&finish);
    proof {
        if result {
            assert forall|i: int| 0 <= i < alloc.len() implies order.contains(i) by {
                assert(finish[i]);
            }
        } else {
            let i = choose|i: int| 0 <= i < n && !finish[i];
            if safe(avail, alloc, want) {
                let full = choose|full: Seq<int>|
                    {
                        &&& #[trigger] completes(avail, alloc, want, full)
                        &&& forall|i: int| 0 <= i < alloc.len() ==> full.contains(i)
                    };
                lemma_stuck(avail, alloc, want, order.to_set(), full, full.len() as int);
                assert(full.take(full.len() as int) =~= full);
                assert(full.to_set().contains(i));
            }
        }
    }
    result
}

/// Without threads nothing is held.
pub proof fn lemma_held_empty(allocation: Seq<Seq<usize>>, n: int, j: int)
    ensures
        held(allocation, Set::empty(), n, j) == 0,
    decreases n,
{
    if n > 0 {
        lemma_held_empty(allocation, n - 1, j);
    }
}

/// Whether no entry of `need` exceeds the one of `work` beside it.
fn fits(need: &Vec<usize>, work: &Vec<usize>) -> (result: bool)
    requires
        need.len() == work.len(),
    ensures
        result == forall|j: int| 0 <= j < need.len() ==> need@[j] <= work@[j],
{
    let mut j: usize = 0;
    while j < need.len()
        invariant
            need.len() == work.len(),
            j <= need.len(),
            forall|k: int| 0 <= k < j ==> need@[k] <= work@[k],
        decreases need.len() - j,
    {
        if need[j] > work[j] {
            assert(need@[j as int] > work@[j as int]);
            return false;
        }
        j = j + 1;
    }
    true
}

/// Gives what a thread holds back to the free units.
fn release(work: &mut Vec<usize>, held_by: &Vec<usize>)
    requires
        old(work).len() == held_by.len(),
        forall|j: int| 0 <= j < held_by.len() ==> old(work)@[j] + held_by@[j] <= usize::MAX,
    ensures
        final(work).len() == old(work).len(),
        forall|j: int|
            0 <= j < held_by.len() ==> #[trigger] final(work)@[j] == old(work)@[j] + held_by@[j],
{
    let ghost before = work@;
    let mut j: usize = 0;
    while j < held_by.len()
        invariant
            work.len() == before.len(),
            before.len() == held_by.len(),
            j <= held_by.len(),
            forall|k: int| 0 <= k < held_by.len() ==> before[k] + held_by@[k] <= usize::MAX,
            forall|k: int| 0 <= k < j ==> #[trigger] work@[k] == before[k] + held_by@[k],
            forall|k: int| j <= k < work.len() ==> #[trigger] work@[k] == before[k],
        decreases held_by.len() - j,
    {
        assert(work@[j as int] == before[j as int]);
        let more: usize = work[j] + held_by[j];
        work.set(j, more);
        j = j + 1;
    }
}

/// Whether every flag is set.
fn all_set(flags: &Vec<bool>) -> (result: bool)
    ensures
        result == forall|i: int| 0 <= i < flags.len() ==> flags@[i],
{
    let mut i: usize = 0;
    while i < flags.len()
        invariant
            i <= flags.len(),
            forall|k: int| 0 <= k < i ==> flags@[k],
        decreases flags.len() - i,
    {
        if !flags[i] {
            assert(!flags@[i as int]);
            return false;
        }
        i = i + 1;
    }
    true
}

} // verus!
