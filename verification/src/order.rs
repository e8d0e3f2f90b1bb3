//! Ordering by time of day.

use crate::time::TimeOfDay;
use vstd::prelude::*;

verus! {

/// `order` with the index `k` put in its place by time: behind every index
/// whose time is not later than that of `k`, before the others.
pub open spec fn placed(order: Seq<usize>, times: Seq<nat>, k: usize) -> Seq<usize>
    decreases order.len(),
{
    if order.len() == 0 {
        seq![k]
    } else if times[order.last() as int] <= times[k as int] {
        order.push(k)
    } else {
        placed(order.drop_last(), times, k).push(order.last())
    }
}

/// The first `n` indices of `times`, ordered by ascending time; indices of
/// equal times keep their order.
pub open spec fn time_order(times: Seq<nat>, n: nat) -> Seq<usize>
    decreases n,
{
    if n == 0 {
        Seq::empty()
    } else {
        placed(time_order(times, (n - 1) as nat), times, (n - 1) as usize)
    }
}

/// Whether the index `v` is among those that `order` lists.
pub open spec fn lists(order: Seq<usize>, v: int) -> bool {
    exists|q: int| 0 <= q < order.len() && #[trigger] order[q] == v
}

/// Whether `order` lists each of the first `n` indices once, by ascending
/// time, indices of equal times in their own order.
pub open spec fn is_stable_order(times: Seq<nat>, order: Seq<usize>, n: nat) -> bool {
    &&& order.len() == n
    &&& forall|q: int| 0 <= q < n ==> order[q] < n
    &&& forall|a: int, b: int| 0 <= a < b < n ==> order[a] != order[b]
    &&& forall|v: int| 0 <= v < n ==> #[trigger] lists(order, v)
    &&& forall|a: int, b: int|
        0 <= a < b < n ==> times[order[a] as int] <= times[order[b] as int]
    &&& forall|a: int, b: int|
        0 <= a < b < n && times[order[a] as int] == times[order[b] as int] ==> order[a] < order[b]
}

/// Putting an index in its place lengthens the order by one and keeps
/// every index below the bound.
pub proof fn lemma_placed_len(order: Seq<usize>, times: Seq<nat>, k: usize, bound: int)
    requires
        k < bound,
        forall|q: int| 0 <= q < order.len() ==> order[q] < bound,
    ensures
        placed(order, times, k).len() == order.len() + 1,
        forall|q: int| 0 <= q < order.len() + 1 ==> placed(order, times, k)[q] < bound,
    decreases order.len(),
{
    if order.len() > 0 && !(times[order.last() as int] <= times[k as int]) {
        lemma_placed_len(order.drop_last(), times, k, bound);
    }
}

/// An index whose time is at least that of every index before place `p`
/// and earlier than that of every index from `p` on is put at place `p`.
pub proof fn lemma_placed_at(order: Seq<usize>, times: Seq<nat>, k: usize, p: int)
    requires
        0 <= p <= order.len(),
        forall|q: int| p <= q < order.len() ==> times[order[q] as int] > times[k as int],
        p > 0 ==> times[order[p - 1] as int] <= times[k as int],
    ensures
        placed(order, times, k) == order.insert(p, k),
    decreases order.len(),
{
    if order.len() == 0 {
        assert(order.insert(p, k) == seq![k]);
    } else if p == order.len() {
        assert(order.insert(p, k) == order.push(k));
    } else {
        lemma_placed_at(order.drop_last(), times, k, p);
        assert(order.drop_last().insert(p, k).push(order.last()) == order.insert(p, k));
    }
}

/// The place at which an index is put: every index from that place on has
/// a later time, and the index just before it, if there is one, has not.
pub proof fn lemma_place_of(order: Seq<usize>, times: Seq<nat>, k: usize) -> (p: int)
    ensures
        0 <= p <= order.len(),
        placed(order, times, k) == order.insert(p, k),
        forall|q: int| p <= q < order.len() ==> times[order[q] as int] > times[k as int],
        p > 0 ==> times[order[p - 1] as int] <= times[k as int],
    decreases order.len(),
{
    if order.len() == 0 {
        assert(order.insert(0, k) == seq![k]);
        0
    } else if times[order.last() as int] <= times[k as int] {
        assert(order.insert(order.len() as int, k) == order.push(k));
        order.len() as int
    } else {
        let shorter = order.drop_last();
        let p = lemma_place_of(shorter, times, k);
        assert(shorter.insert(p, k).push(order.last()) == order.insert(p, k));
        assert forall|q: int| p <= q < order.len() implies times[order[q] as int] > times[k as int] by {
            if q < shorter.len() {
                assert(order[q] == shorter[q]);
            }
        }
        if p > 0 {
            assert(order[p - 1] == shorter[p - 1]);
        }
        p
    }
}

/// Ordering by time sorts: the order is a stable ascending arrangement of
/// the indices.
pub proof fn lemma_time_order_sorts(times: Seq<nat>, n: nat)
    requires
        n <= usize::MAX,
    ensures
        is_stable_order(times, time_order(times, n), n),
    decreases n,
{
    if n > 0 {
        let m = (n - 1) as nat;
        let k = m as usize;
        let before = time_order(times, m);
        lemma_time_order_sorts(times, m);
        let p = lemma_place_of(before, times, k);
        let after = before.insert(p, k);
        assert(time_order(times, n) == after);
        assert forall|a: int, b: int| 0 <= a < b < n implies {
            &&& after[a] != after[b]
            &&& times[after[a] as int] <= times[after[b] as int]
            &&& (times[after[a] as int] == times[after[b] as int] ==> after[a] < after[b])
        } by {
            if b < p {
                assert(after[a] == before[a] && after[b] == before[b]);
            } else if b == p {
                assert(after[a] == before[a] && after[b] == k);
                assert(times[before[a] as int] <= times[before[p - 1] as int]);
            } else if a < p {
                assert(after[a] == before[a] && after[b] == before[b - 1]);
            } else if a == p {
                assert(after[a] == k && after[b] == before[b - 1]);
            } else {
                assert(after[a] == before[a - 1] && after[b] == before[b - 1]);
            }
        }
        assert forall|v: int| 0 <= v < n implies #[trigger] lists(after, v) by {
            if v == m {
                assert(after[p] == v);
            } else {
                assert(lists(before, v));
                let q = choose|q: int| 0 <= q < before.len() && #[trigger] before[q] == v;
                if q < p {
                    assert(after[q] == v);
                } else {
                    assert(after[q + 1] == v);
                }
            }
        }
    }
}

/// The indices of `times`, ordered by ascending time, indices of equal
/// times in their own order.
pub fn order_by_time(times: &Vec<TimeOfDay>) -> (order: Vec<usize>)
    ensures
        order@ == time_order(times@.map_values(|t: TimeOfDay| t@), times@.len()),
        is_stable_order(times@.map_values(|t: TimeOfDay| t@), order@, times@.len()),
{
    let ghost nanos = times@.map_values(|t: TimeOfDay| t@);
    let mut order: Vec<usize> = Vec::new();
    let mut k: usize = 0;
    while k < times.len()
        invariant
            k <= times.len(),
            nanos == times@.map_values(|t: TimeOfDay| t@),
            order@ == time_order(nanos, k as nat),
            order@.len() == k,
            forall|q: int| 0 <= q < order@.len() ==> order@[q] < k,
        decreases times.len() - k,
    {
        let this: u64 = times[k].nanos();
        let mut p: usize = order.len();
        while p > 0 && times[order[p - 1]].nanos() > this
            invariant
                p <= order@.len(),
                k < times.len(),
                this == nanos[k as int],
                nanos == times@.map_values(|t: TimeOfDay| t@),
                forall|q: int| 0 <= q < order@.len() ==> order@[q] < k,
                forall|q: int| p <= q < order@.len() ==> nanos[order@[q] as int] > nanos[k as int],
            decreases p,
        {
            p = p - 1;
        }
        proof {
            lemma_placed_at(order@, nanos, k, p as int);
            lemma_placed_len(order@, nanos, k, k + 1);
        }
        order.insert(p, k);
        k = k + 1;
    }
    proof {
        lemma_time_order_sorts(nanos, times@.len());
    }
    order
}

} // verus!
