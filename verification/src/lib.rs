//! A bounded binary min-heap: it holds at most a fixed number of values and,
//! once full, takes a new value in only in exchange for the smallest it
//! holds. Fed a stream of values, it is left with the largest of them.
//!
//! There are two kinds. [`BoundedBinaryHeaper`] is laid over a buffer that
//! it borrows and works in place, without allocating; it can hold as many
//! values as the buffer has slots. [`BoundedBinaryHeap`] owns its storage and
//! can hold as many values as the capacity it was made with. Both rest on
//! the sift primitives of [`heap`], which also work on any slice.
//!
//! The modules:
//! - [`order`]: the order on elements that the comparison operators give,
//!   and what the contracts assume of it;
//! - [`model`]: the heap as a sequence, and what each operation makes of it;
//! - [`laws`]: what holds of the model: no operation loses an element,
//!   a heap stays a heap, pops come out in ascending order;
//! - [`heap`]: the executable code.

pub mod heap;
pub mod laws;
pub mod model;
pub mod order;

pub use heap::{
    heapify, sift_down, sift_up, verify_heap, BoundedBinaryHeap, BoundedBinaryHeaper,
};
