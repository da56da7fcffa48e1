use vstd::prelude::*;

verus! {

/// Selects which end of the order sits at the root of a heap.
#[derive(PartialEq, Eq, Structural, Clone, Copy, Debug)]
pub enum HeapType {
    /// The smallest element is the root.
    Min,
    /// The largest element is the root.
    Max,
}

/// An element type that a heap can order.
///
/// Values are compared through an integer key; values with equal keys are
/// equally ranked in either ordering.
pub trait HeapKey: Copy + Sized {
    /// The integer that orders the value.
    spec fn key(&self) -> int;

    /// Strict comparison of keys.
    fn lt(&self, other: &Self) -> (r: bool)
        ensures
            r == (self.key() < other.key()),
    ;
}

/// The priority of `x` under `kind`: the root holds the highest rank.
pub open spec fn rank<T: HeapKey>(kind: HeapType, x: T) -> int {
    match kind {
        HeapType::Min => -x.key(),
        HeapType::Max => x.key(),
    }
}

/// Whether `a` must stand above `b`: its rank is strictly higher.
pub(crate) fn outranks<T: HeapKey>(kind: HeapType, a: &T, b: &T) -> (r: bool)
    ensures
        r == (rank(kind, *a) > rank(kind, *b)),
{
    match kind {
        HeapType::Min => a.lt(b),
        HeapType::Max => b.lt(a),
    }
}

impl HeapKey for u8 {
    open spec fn key(&self) -> int {
        *self as int
    }

    fn lt(&self, other: &Self) -> (r: bool) {
        *self < *other
    }
}

impl HeapKey for u16 {
    open spec fn key(&self) -> int {
        *self as int
    }

    fn lt(&self, other: &Self) -> (r: bool) {
        *self < *other
    }
}

impl HeapKey for u32 {
    open spec fn key(&self) -> int {
        *self as int
    }

    fn lt(&self, other: &Self) -> (r: bool) {
        *self < *other
    }
}

impl HeapKey for u64 {
    open spec fn key(&self) -> int {
        *self as int
    }

    fn lt(&self, other: &Self) -> (r: bool) {
        *self < *other
    }
}

impl HeapKey for u128 {
    open spec fn key(&self) -> int {
        *self as int
    }

    fn lt(&self, other: &Self) -> (r: bool) {
        *self < *other
    }
}

impl HeapKey for usize {
    open spec fn key(&self) -> int {
        *self as int
    }

    fn lt(&self, other: &Self) -> (r: bool) {
        *self < *other
    }
}

impl HeapKey for i8 {
    open spec fn key(&self) -> int {
        *self as int
    }

    fn lt(&self, other: &Self) -> (r: bool) {
        *self < *other
    }
}

impl HeapKey for i16 {
    open spec fn key(&self) -> int {
        *self as int
    }

    fn lt(&self, other: &Self) -> (r: bool) {
        *self < *other
    }
}

impl HeapKey for i32 {
    open spec fn key(&self) -> int {
        *self as int
    }

    fn lt(&self, other: &Self) -> (r: bool) {
        *self < *other
    }
}

impl HeapKey for i64 {
    open spec fn key(&self) -> int {
        *self as int
    }

    fn lt(&self, other: &Self) -> (r: bool) {
        *self < *other
    }
}

impl HeapKey for i128 {
    open spec fn key(&self) -> int {
        *self as int
    }

    fn lt(&self, other: &Self) -> (r: bool) {
        *self < *other
    }
}

impl HeapKey for isize {
    open spec fn key(&self) -> int {
        *self as int
    }

    fn lt(&self, other: &Self) -> (r: bool) {
        *self < *other
    }
}

} // verus!
