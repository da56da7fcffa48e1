use vstd::prelude::*;
use vstd::relations::{sorted_by, total_ordering};

use crate::heap::{in_order, is_heap, parent};
use crate::order::{rank, HeapKey, HeapType};

verus! {

/// The order in which a heap of kind `kind` hands out its elements: `a` may
/// come before `b` when it ranks at least as high.
pub open spec fn drain_order<T: HeapKey>(kind: HeapType) -> spec_fn(T, T) -> bool {
    |a: T, b: T| rank(kind, a) >= rank(kind, b)
}

/// `s` sorted ascending for a min-heap and descending for a max-heap.
pub open spec fn sorted_for<T: HeapKey>(kind: HeapType, s: Seq<T>) -> Seq<T> {
    s.sort_by(drain_order(kind))
}

/// Values of `T` with equal keys are equal, as for the integer types.
pub open spec fn keys_distinct<T: HeapKey>() -> bool {
    forall|a: T, b: T| #[trigger] a.key() == #[trigger] b.key() ==> a == b
}

/// With distinct keys, the drain order is a total order.
pub proof fn lemma_drain_order_total<T: HeapKey>(kind: HeapType)
    requires
        keys_distinct::<T>(),
    ensures
        total_ordering(drain_order::<T>(kind)),
{
    let leq = drain_order::<T>(kind);
    assert forall|a: T, b: T| #[trigger] leq(a, b) && #[trigger] leq(b, a) implies a == b by {
        assert(a.key() == b.key());
    }
}

/// A heap ranks every node at least as high as each of its existing children.
pub proof fn lemma_parent_above_children<T: HeapKey>(kind: HeapType, s: Seq<T>, i: int)
    requires
        is_heap(kind, s),
        0 <= i,
    ensures
        2 * i + 1 < s.len() ==> rank(kind, s[i]) >= rank(kind, s[2 * i + 1]),
        2 * i + 2 < s.len() ==> rank(kind, s[i]) >= rank(kind, s[2 * i + 2]),
{
    assert(parent(2 * i + 1) == i);
    assert(parent(2 * i + 2) == i);
}

/// A sequence in drain order that holds the elements of `s` is `s` sorted.
proof fn lemma_drained_is_sorted<T: HeapKey>(kind: HeapType, s: Seq<T>, out: Seq<T>)
    requires
        keys_distinct::<T>(),
        out.to_multiset() == s.to_multiset(),
        in_order(kind, out),
    ensures
        out == sorted_for(kind, s),
{
    let leq = drain_order::<T>(kind);
    lemma_drain_order_total::<T>(kind);
    s.lemma_sort_by_ensures(leq);
    assert(sorted_by(out, leq));
    vstd::seq_lib::lemma_sorted_unique(out, sorted_for(kind, s), leq);
}

/// Building a heap from `s` and draining it gives `s` sorted: ascending with
/// the min ordering, descending with the max ordering. The sorted form is
/// unique when equal keys mean equal values.
pub proof fn lemma_round_trip<T: HeapKey>(kind: HeapType, s: Seq<T>, built: Seq<T>, out: Seq<T>)
    requires
        keys_distinct::<T>(),
        built.to_multiset() == s.to_multiset(),
        is_heap(kind, built),
        out.to_multiset() == built.to_multiset(),
        in_order(kind, out),
    ensures
        out == sorted_for(kind, s),
{
    lemma_drained_is_sorted(kind, s, out);
}

/// Inserting the next element of `p` into a heap that holds the first `k`
/// elements of `p` gives one that holds the first `k + 1`; after the last,
/// the heap holds exactly the elements of `p`.
pub proof fn lemma_insert_next<T: HeapKey>(p: Seq<T>, k: int, before: Seq<T>, after: Seq<T>)
    requires
        0 <= k < p.len(),
        before.to_multiset() == p.take(k).to_multiset(),
        after.to_multiset() == before.to_multiset().insert(p[k]),
    ensures
        after.to_multiset() == p.take(k + 1).to_multiset(),
        k + 1 == p.len() ==> after.to_multiset() == p.to_multiset(),
{
    broadcast use vstd::seq_lib::group_to_multiset_ensures;

    assert(p.take(k + 1) =~= p.take(k).push(p[k]));
    assert(k + 1 == p.len() ==> p.take(k + 1) =~= p);
}

/// Inserting the elements of `s` one at a time, in any order `p`, and then
/// draining gives the same sequence as building from `s` and draining, when
/// equal keys mean equal values.
pub proof fn lemma_insertion_order_independent<T: HeapKey>(
    kind: HeapType,
    s: Seq<T>,
    p: Seq<T>,
    filled: Seq<T>,
    out_filled: Seq<T>,
    built: Seq<T>,
    out_built: Seq<T>,
)
    requires
        keys_distinct::<T>(),
        p.to_multiset() == s.to_multiset(),
        filled.to_multiset() == p.to_multiset(),
        is_heap(kind, filled),
        out_filled.to_multiset() == filled.to_multiset(),
        in_order(kind, out_filled),
        built.to_multiset() == s.to_multiset(),
        is_heap(kind, built),
        out_built.to_multiset() == built.to_multiset(),
        in_order(kind, out_built),
    ensures
        out_filled == out_built,
{
    lemma_drained_is_sorted(kind, s, out_filled);
    lemma_drained_is_sorted(kind, s, out_built);
}

} // verus!
