use vstd::prelude::*;

use crate::order::{outranks, rank, HeapKey, HeapType};

verus! {

broadcast use vstd::seq_lib::group_to_multiset_ensures;

/// Index of the parent of node `i` in the dense layout.
pub open spec fn parent(i: int) -> int {
    (i - 1) / 2
}

/// The heap property: no node outranks its parent.
pub open spec fn is_heap<T: HeapKey>(kind: HeapType, s: Seq<T>) -> bool {
    forall|i: int|
        0 < i < s.len() ==> rank(kind, s[parent(i)]) >= rank(kind, #[trigger] s[i])
}

/// The heap property on every edge whose parent is at index `start` or later.
pub open spec fn heap_from<T: HeapKey>(kind: HeapType, s: Seq<T>, start: int) -> bool {
    forall|j: int|
        0 < j < s.len() && parent(j) >= start ==> rank(kind, s[parent(j)]) >= rank(
            kind,
            #[trigger] s[j],
        )
}

/// Whether node `j` lies in the subtree rooted at node `root`, `root` included.
pub open spec fn in_subtree(root: int, j: int) -> bool
    decreases j,
{
    if j <= root || j <= 0 {
        j == root
    } else {
        in_subtree(root, parent(j))
    }
}

/// The heap property on every edge of `root`'s subtree, except the edges
/// below `cur`.
pub open spec fn subtree_ordered_except<T: HeapKey>(
    kind: HeapType,
    s: Seq<T>,
    root: int,
    cur: int,
) -> bool {
    forall|j: int|
        0 < j < s.len() && in_subtree(root, parent(j)) && parent(j) != cur ==> rank(
            kind,
            s[parent(j)],
        ) >= rank(kind, #[trigger] s[j])
}

/// Every node lies in the subtree of the root.
proof fn lemma_in_root_subtree(j: int)
    requires
        0 <= j,
    ensures
        in_subtree(0, j),
    decreases j,
{
    if j > 0 {
        lemma_in_root_subtree(parent(j));
    }
}

/// The node among `i` and its children that sift-down moves into `i`: a child
/// replaces the current pick only when it strictly outranks it, left child first.
pub open spec fn pick<T: HeapKey>(kind: HeapType, s: Seq<T>, i: int) -> int {
    let l = 2 * i + 1;
    let r = 2 * i + 2;
    let a = if l < s.len() && rank(kind, s[l]) > rank(kind, s[i]) {
        l
    } else {
        i
    };
    if r < s.len() && rank(kind, s[r]) > rank(kind, s[a]) {
        r
    } else {
        a
    }
}

/// Below a moving node `cur` other than `start`: `cur`'s parent lies in
/// `start`'s subtree and outranks `cur`'s children.
pub open spec fn hole_bounded<T: HeapKey>(kind: HeapType, s: Seq<T>, start: int, cur: int) -> bool {
    cur != start ==> {
        &&& in_subtree(start, parent(cur))
        &&& forall|j: int|
            0 < j < s.len() && parent(j) == cur ==> rank(kind, s[parent(cur)]) >= rank(
                kind,
                #[trigger] s[j],
            )
    }
}

/// The heap property on every edge but the one from `cur` to its parent.
pub open spec fn heap_except_at<T: HeapKey>(kind: HeapType, s: Seq<T>, cur: int) -> bool {
    forall|j: int|
        0 < j < s.len() && j != cur ==> rank(kind, s[parent(j)]) >= rank(kind, #[trigger] s[j])
}

/// Above a rising node `cur`: its parent, if any, outranks `cur`'s children.
pub open spec fn hole_below_parent<T: HeapKey>(kind: HeapType, s: Seq<T>, cur: int) -> bool {
    cur > 0 ==> forall|j: int|
        0 < j < s.len() && parent(j) == cur ==> rank(kind, s[parent(cur)]) >= rank(
            kind,
            #[trigger] s[j],
        )
}

/// The root of a heap ranks at least as high as the node at `i`.
proof fn lemma_root_above<T: HeapKey>(kind: HeapType, s: Seq<T>, i: int)
    requires
        is_heap(kind, s),
        0 <= i < s.len(),
    ensures
        rank(kind, s[0]) >= rank(kind, s[i]),
    decreases i,
{
    if i > 0 {
        lemma_root_above(kind, s, parent(i));
    }
}

/// The root of a heap ranks at least as high as every element.
proof fn lemma_root_highest<T: HeapKey>(kind: HeapType, s: Seq<T>)
    requires
        is_heap(kind, s),
        s.len() > 0,
    ensures
        forall|x: T| s.contains(x) ==> rank(kind, s[0]) >= rank(kind, x),
{
    assert forall|x: T| s.contains(x) implies rank(kind, s[0]) >= rank(kind, x) by {
        let i = choose|i: int| 0 <= i < s.len() && s[i] == x;
        lemma_root_above(kind, s, i);
    }
}

/// Heap order on all edges with parents after `i` covers the edges below
/// `i` in its subtree.
proof fn lemma_subtree_ordered_below<T: HeapKey>(kind: HeapType, s: Seq<T>, i: int)
    requires
        0 <= i,
        heap_from(kind, s, i + 1),
    ensures
        subtree_ordered_except(kind, s, i, i),
{
    assert forall|j: int|
        0 < j < s.len() && in_subtree(i, parent(j)) && parent(j) != i implies rank(
        kind,
        s[parent(j)],
    ) >= rank(kind, #[trigger] s[j]) by {
        assert(parent(j) >= i);
    }
}

/// Ordering `i`'s subtree, and changing nothing outside it, extends heap
/// order from the edges with parents after `i` to those with parents from
/// `i` on.
proof fn lemma_heap_from_extends<T: HeapKey>(kind: HeapType, before: Seq<T>, after: Seq<T>, i: int)
    requires
        0 <= i,
        heap_from(kind, before, i + 1),
        after.len() == before.len(),
        forall|j: int| 0 <= j < before.len() && !in_subtree(i, j) ==> after[j] == before[j],
        subtree_ordered_except(kind, after, i, -1),
    ensures
        heap_from(kind, after, i),
{
    assert forall|j: int| 0 < j < after.len() && parent(j) >= i implies rank(
        kind,
        after[parent(j)],
    ) >= rank(kind, #[trigger] after[j]) by {
        if !in_subtree(i, parent(j)) {
            assert(!in_subtree(i, j));
            assert(after[j] == before[j]);
            assert(after[parent(j)] == before[parent(j)]);
        }
    }
}

/// What [`pick`] chooses: `i` or one of its children, ranked at least as
/// high as `i` and both children, and strictly above `i` when it is a child.
proof fn lemma_pick<T: HeapKey>(kind: HeapType, s: Seq<T>, i: int)
    requires
        0 <= i < s.len(),
    ensures
        ({
            let b = pick(kind, s, i);
            &&& 0 <= b < s.len()
            &&& b == i || parent(b) == i
            &&& b != i ==> b > i && rank(kind, s[b]) > rank(kind, s[i])
            &&& rank(kind, s[b]) >= rank(kind, s[i])
            &&& forall|j: int|
                0 < j < s.len() && parent(j) == i ==> rank(kind, s[b]) >= rank(kind, #[trigger] s[j])
        }),
{
}

/// `s` runs from the highest rank to the lowest: ascending for a min-heap,
/// descending for a max-heap.
pub open spec fn in_order<T: HeapKey>(kind: HeapType, s: Seq<T>) -> bool {
    forall|i: int, j: int| 0 <= i < j < s.len() ==> rank(kind, #[trigger] s[i]) >= rank(kind, #[trigger] s[j])
}

/// `s` with the elements at `i` and `j` exchanged.
pub open spec fn swapped<T>(s: Seq<T>, i: int, j: int) -> Seq<T> {
    s.update(i, s[j]).update(j, s[i])
}

/// The storage after sift-down from `i`: while a child of the moving node is
/// picked over it, the two are swapped and the descent continues there.
pub open spec fn sift_down<T: HeapKey>(kind: HeapType, s: Seq<T>, i: int) -> Seq<T>
    decreases s.len() - i,
{
    let b = pick(kind, s, i);
    if 0 <= i < s.len() && b != i {
        sift_down(kind, swapped(s, i, b), b)
    } else {
        s
    }
}

/// The storage after sift-up from `i`: while the moving node strictly
/// outranks its parent, the two are swapped and the ascent continues there.
pub open spec fn sift_up<T: HeapKey>(kind: HeapType, s: Seq<T>, i: int) -> Seq<T>
    decreases i,
{
    if 0 < i < s.len() && rank(kind, s[i]) > rank(kind, s[parent(i)]) {
        sift_up(kind, swapped(s, i, parent(i)), parent(i))
    } else {
        s
    }
}

/// The storage after sifting down every internal node of `s` from the last
/// one down to index `i`.
pub open spec fn heapified<T: HeapKey>(kind: HeapType, s: Seq<T>, i: int) -> Seq<T>
    decreases s.len() / 2 - i,
{
    if 0 <= i < s.len() / 2 {
        sift_down(kind, heapified(kind, s, i + 1), i)
    } else {
        s
    }
}

/// The storage after removing the root of `s`: the last element takes the
/// root's place and sinks.
pub open spec fn without_root<T: HeapKey>(kind: HeapType, s: Seq<T>) -> Seq<T> {
    if s.len() <= 1 {
        Seq::empty()
    } else {
        sift_down(kind, swapped(s, 0, s.len() - 1).drop_last(), 0)
    }
}

/// Exchanging two elements keeps the same elements.
proof fn lemma_swapped_multiset<T>(s: Seq<T>, i: int, j: int)
    requires
        0 <= i < s.len(),
        0 <= j < s.len(),
    ensures
        swapped(s, i, j).to_multiset() == s.to_multiset(),
{
    broadcast use vstd::multiset::group_multiset_axioms;

    vstd::seq_lib::to_multiset_update(s, i, s[j]);
    vstd::seq_lib::to_multiset_update(s.update(i, s[j]), j, s[i]);
    if i == j {
        assert(swapped(s, i, j) =~= s);
    } else {
        assert(swapped(s, i, j).to_multiset() =~= s.to_multiset());
    }
}

/// Exchanges two elements of `v`.
fn swap_items<T: HeapKey>(v: &mut Vec<T>, i: usize, j: usize)
    requires
        i < old(v)@.len(),
        j < old(v)@.len(),
    ensures
        final(v)@ == swapped(old(v)@, i as int, j as int),
        final(v)@.to_multiset() == old(v)@.to_multiset(),
{
    proof {
        lemma_swapped_multiset(v@, i as int, j as int);
    }
    let a = v[i];
    let b = v[j];
    v.set(i, b);
    v.set(j, a);
}

/// A binary heap: a complete binary tree stored level by level in a vector,
/// with node `i`'s children at `2i+1` and `2i+2`.
#[derive(Debug)]
pub struct Heap<T: HeapKey> {
    data: Vec<T>,
    heap_type: HeapType,
}

impl<T: HeapKey> View for Heap<T> {
    type V = Seq<T>;

    /// The elements in storage order; index 0 is the root.
    closed spec fn view(&self) -> Seq<T> {
        self.data@
    }
}

impl<T: HeapKey> Heap<T> {
    /// The ordering fixed when the heap was made.
    pub closed spec fn kind(&self) -> HeapType {
        self.heap_type
    }

    /// The heap property holds over the whole storage.
    pub open spec fn wf(&self) -> bool {
        is_heap(self.kind(), self@)
    }

    /// An empty heap with the given ordering.
    pub fn new(heap_type: HeapType) -> (r: Self)
        ensures
            r.kind() == heap_type,
            r@ == Seq::<T>::empty(),
            r.wf(),
    {
        Heap { data: Vec::new(), heap_type }
    }

    /// One step of sift-down at `index`: moves the highest-ranked of the node
    /// and its children into `index`. Returns the child's index when a child
    /// moved up, and `None` when the node already outranks both children.
    pub fn heapify(&mut self, index: usize) -> (r: Option<usize>)
        ensures
            final(self).kind() == old(self).kind(),
            final(self)@.to_multiset() == old(self)@.to_multiset(),
            ({
                let b = pick(old(self).kind(), old(self)@, index as int);
                if b == index {
                    r is None && final(self)@ == old(self)@
                } else {
                    r is Some && r->0 == b && final(self)@ == swapped(old(self)@, index as int, b)
                }
            }),
    {
        let n = self.data.len();
        let mut best = index;
        if index < n / 2 {
            let l = 2 * index + 1;
            if outranks(self.heap_type, &self.data[l], &self.data[best]) {
                best = l;
            }
            let r = l + 1;
            if r < n && outranks(self.heap_type, &self.data[r], &self.data[best]) {
                best = r;
            }
        }
        if best != index {
            swap_items(&mut self.data, index, best);
            Some(best)
        } else {
            None
        }
    }

    /// Sift-down from `start`: repeats [`Heap::heapify`] on the displaced node
    /// until it outranks its children or has none. Only `start`'s subtree
    /// changes; if its edges below `start` were in heap order, all of its
    /// edges are afterwards.
    fn float_down(&mut self, start: usize)
        requires
            start < old(self)@.len(),
        ensures
            final(self).kind() == old(self).kind(),
            final(self)@.len() == old(self)@.len(),
            final(self)@.to_multiset() == old(self)@.to_multiset(),
            final(self)@ == sift_down(old(self).kind(), old(self)@, start as int),
            forall|j: int|
                0 <= j < old(self)@.len() && !in_subtree(start as int, j) ==> final(self)@[j]
                    == old(self)@[j],
            subtree_ordered_except(old(self).kind(), old(self)@, start as int, start as int)
                ==> subtree_ordered_except(final(self).kind(), final(self)@, start as int, -1),
    {
        let ghost kind = self.kind();
        let ghost ordered = subtree_ordered_except(kind, old(self)@, start as int, start as int);
        let mut cur = start;
        loop
            invariant_except_break
                cur < self@.len(),
                in_subtree(start as int, cur as int),
                ordered ==> subtree_ordered_except(kind, self@, start as int, cur as int),
                ordered ==> hole_bounded(kind, self@, start as int, cur as int),
            invariant
                self.kind() == kind,
                kind == old(self).kind(),
                ordered == subtree_ordered_except(kind, old(self)@, start as int, start as int),
                self@.len() == old(self)@.len(),
                self@.to_multiset() == old(self)@.to_multiset(),
                sift_down(kind, self@, cur as int) == sift_down(kind, old(self)@, start as int),
                forall|j: int|
                    0 <= j < old(self)@.len() && !in_subtree(start as int, j) ==> self@[j]
                        == old(self)@[j],
            ensures
                ordered ==> subtree_ordered_except(kind, self@, start as int, -1),
                self@ == sift_down(kind, old(self)@, start as int),
            decreases self@.len() - cur,
        {
            let ghost s = self@;
            proof {
                lemma_pick(kind, s, cur as int);
            }
            match self.heapify(cur) {
                None => {
                    break;
                },
                Some(c) => {
                    proof {
                        let t = self@;
                        assert(in_subtree(start as int, c as int));
                        if ordered {
                            assert forall|j: int|
                                0 < j < t.len() && in_subtree(start as int, parent(j)) && parent(j)
                                    != c implies rank(kind, t[parent(j)]) >= rank(
                                kind,
                                #[trigger] t[j],
                            ) by {
                                if j == cur {
                                    assert(s[c as int] == t[j]);
                                } else if parent(j) == cur {
                                    assert(s[c as int] == t[parent(j)]);
                                } else if j == c {
                                } else {
                                    assert(s[j] == t[j]);
                                }
                            }
                        }
                    }
                    cur = c;
                },
            }
        }
    }

    /// Sift-up from `index`: swaps the node with its parent while it strictly
    /// outranks it.
    fn float_up(&mut self, index: usize)
        requires
            index < old(self)@.len(),
            heap_except_at(old(self).kind(), old(self)@, index as int),
            hole_below_parent(old(self).kind(), old(self)@, index as int),
        ensures
            final(self).kind() == old(self).kind(),
            final(self)@.len() == old(self)@.len(),
            final(self)@.to_multiset() == old(self)@.to_multiset(),
            is_heap(final(self).kind(), final(self)@),
            final(self)@ == sift_up(old(self).kind(), old(self)@, index as int),
    {
        let ghost kind = self.kind();
        let mut cur = index;
        loop
            invariant_except_break
                cur < self@.len(),
                heap_except_at(kind, self@, cur as int),
                hole_below_parent(kind, self@, cur as int),
            invariant
                self.kind() == kind,
                kind == old(self).kind(),
                self@.len() == old(self)@.len(),
                self@.to_multiset() == old(self)@.to_multiset(),
                cur < self@.len(),
                sift_up(kind, self@, cur as int) == sift_up(kind, old(self)@, index as int),
            ensures
                is_heap(kind, self@),
                self@ == sift_up(kind, old(self)@, index as int),
            decreases cur,
        {
            if cur == 0 {
                break;
            }
            let p = (cur - 1) / 2;
            if outranks(self.heap_type, &self.data[cur], &self.data[p]) {
                swap_items(&mut self.data, cur, p);
                cur = p;
            } else {
                break;
            }
        }
    }

    /// One step of the bottom-up build: sift-down from `i`, whose children's
    /// subtrees are already heaps, extends heap order to the edges below `i`.
    fn build_step(&mut self, i: usize)
        requires
            i < old(self)@.len(),
            heap_from(old(self).kind(), old(self)@, i + 1),
        ensures
            final(self).kind() == old(self).kind(),
            final(self)@.len() == old(self)@.len(),
            final(self)@.to_multiset() == old(self)@.to_multiset(),
            final(self)@ == sift_down(old(self).kind(), old(self)@, i as int),
            heap_from(final(self).kind(), final(self)@, i as int),
    {
        let ghost before = self@;
        proof {
            lemma_subtree_ordered_below(self.kind(), before, i as int);
        }
        self.float_down(i);
        proof {
            lemma_heap_from_extends(self.kind(), before, self@, i as int);
        }
    }

    /// Builds a heap from `input` in place, sifting down every internal node
    /// from the last one to the root.
    pub fn from_vec(heap_type: HeapType, input: Vec<T>) -> (r: Self)
        ensures
            r.kind() == heap_type,
            r@.to_multiset() == input@.to_multiset(),
            r.wf(),
            r@ == heapified(heap_type, input@, 0),
    {
        let mut heap = Heap { data: input, heap_type };
        let size = heap.data.len();
        let mut i: usize = size / 2;
        while i > 0
            invariant
                heap.kind() == heap_type,
                heap@.len() == size,
                heap@.to_multiset() == input@.to_multiset(),
                i <= size / 2,
                heap_from(heap_type, heap@, i as int),
                heap@ == heapified(heap_type, input@, i as int),
            decreases i,
        {
            i = i - 1;
            heap.build_step(i);
        }
        heap
    }

    /// Same as [`Heap::from_vec`]; kept under its former name.
    pub fn from_array(heap_type: HeapType, input: Vec<T>) -> (r: Self)
        ensures
            r.kind() == heap_type,
            r@.to_multiset() == input@.to_multiset(),
            r.wf(),
            r@ == heapified(heap_type, input@, 0),
    {
        Heap::from_vec(heap_type, input)
    }

    /// Adds `value`, restoring the heap property by sift-up.
    pub fn insert(&mut self, value: T)
        requires
            old(self).wf(),
        ensures
            final(self).kind() == old(self).kind(),
            final(self).wf(),
            final(self)@.len() == old(self)@.len() + 1,
            final(self)@.to_multiset() == old(self)@.to_multiset().insert(value),
            final(self)@ == sift_up(old(self).kind(), old(self)@.push(value), old(self)@.len() as int),
    {
        self.data.push(value);
        let new_size = self.data.len();
        if new_size > 1 {
            self.float_up(new_size - 1);
        }
    }

    /// Removes and returns the root, or returns `None` on an empty heap.
    pub fn extract(&mut self) -> (r: Option<T>)
        requires
            old(self).wf(),
        ensures
            final(self).kind() == old(self).kind(),
            final(self).wf(),
            old(self)@.len() == 0 ==> r is None && final(self)@ == old(self)@,
            old(self)@.len() > 0 ==> {
                &&& r == Some(old(self)@[0])
                &&& final(self)@.len() == old(self)@.len() - 1
                &&& final(self)@.to_multiset() == old(self)@.to_multiset().remove(old(self)@[0])
                &&& final(self)@ == without_root(old(self).kind(), old(self)@)
            },
    {
        let n = self.data.len();
        if n == 0 {
            None
        } else if n == 1 {
            proof {
                assert(self@.drop_last() =~= self@.remove(0));
            }
            self.data.pop()
        } else {
            let last = n - 1;
            swap_items(&mut self.data, 0, last);
            proof {
                assert(self@.drop_last() =~= self@.remove(last as int));
            }
            let result = self.data.pop();
            self.float_down(0);
            proof {
                assert forall|j: int| 0 < j < self@.len() implies rank(
                    self.heap_type,
                    self@[parent(j)],
                ) >= rank(self.heap_type, #[trigger] self@[j]) by {
                    lemma_in_root_subtree(parent(j));
                }
            }
            result
        }
    }
    /// The root without removing it, or `None` on an empty heap.
    pub fn root(&self) -> (r: Option<&T>)
        ensures
            self@.len() == 0 ==> r is None,
            self@.len() > 0 ==> r is Some && *r->0 == self@[0],
    {
        if self.data.len() == 0 {
            None
        } else {
            Some(&self.data[0])
        }
    }

    /// The element stored at `index`, or `None` past the end.
    pub fn get(&self, index: usize) -> (r: Option<&T>)
        ensures
            index >= self@.len() ==> r is None,
            index < self@.len() ==> r is Some && *r->0 == self@[index as int],
    {
        if index < self.data.len() {
            Some(&self.data[index])
        } else {
            None
        }
    }

    /// The storage, root first.
    pub fn raw(&self) -> (r: &Vec<T>)
        ensures
            r@ == self@,
    {
        &self.data
    }

    /// A heap with the given ordering over `data` exactly as given, without
    /// restoring the heap property.
    pub fn from_raw(heap_type: HeapType, data: Vec<T>) -> (r: Self)
        ensures
            r.kind() == heap_type,
            r@ == data@,
    {
        Heap { data, heap_type }
    }

    /// Drains the heap by repeated extraction, returning its elements from
    /// the root's end of the order: ascending for a min-heap, descending for
    /// a max-heap.
    pub fn collect(&mut self) -> (r: Vec<T>)
        requires
            old(self).wf(),
        ensures
            final(self).kind() == old(self).kind(),
            final(self).wf(),
            final(self)@.len() == 0,
            r@.to_multiset() == old(self)@.to_multiset(),
            in_order(old(self).kind(), r@),
    {
        broadcast use vstd::multiset::group_multiset_axioms;

        let ghost kind = self.kind();
        let mut output: Vec<T> = Vec::new();
        let n = self.data.len();
        let mut k: usize = 0;
        while k < n
            invariant
                self.kind() == kind,
                kind == old(self).kind(),
                self.wf(),
                k <= n,
                n == old(self)@.len(),
                self@.len() == n - k,
                output@.to_multiset().add(self@.to_multiset()) == old(self)@.to_multiset(),
                in_order(kind, output@),
                forall|i: int, x: T|
                    0 <= i < output@.len() && #[trigger] self@.contains(x) ==> rank(
                        kind,
                        #[trigger] output@[i],
                    ) >= rank(kind, x),
            decreases n - k,
        {
            let ghost before = self@;
            let ghost out = output@;
            proof {
                lemma_root_highest(kind, before);
                assert(before.contains(before[0]));
            }
            let v = self.extract().unwrap();
            output.push(v);
            k = k + 1;
            proof {
                assert forall|x: T| #[trigger] self@.contains(x) implies before.contains(x) by {
                    assert(self@.to_multiset().count(x) > 0);
                }
                assert(output@.to_multiset().add(self@.to_multiset()) =~= out.to_multiset().add(
                    before.to_multiset(),
                ));
            }
        }
        proof {
            assert(output@.to_multiset().add(self@.to_multiset()) =~= output@.to_multiset());
        }
        output
    }
}

} // verus!
