//! A binary heap kept in a dense vector, ordered as a min-heap or a max-heap.

pub mod order;
pub mod heap;
pub mod laws;

pub use order::{HeapKey, HeapType};
pub use heap::{in_order, is_heap, parent, Heap};
pub use order::rank;
