//! The heap as a sequence: what its operations do to it, position by position.

use crate::order::{at_least, greater, less, specified_order};
use vstd::prelude::*;

verus! {

/// `out` holds a clone of each value of `src`, in the same order.
pub open spec fn clones_of<T: Clone>(src: Seq<T>, out: Seq<T>) -> bool {
    &&& out.len() == src.len()
    &&& forall|i: int| 0 <= i < src.len() ==> #[trigger] cloned(src[i], out[i])
}

/// `s` with the values at `i` and `j` exchanged.
pub open spec fn swapped<T>(s: Seq<T>, i: int, j: int) -> Seq<T> {
    s.update(i, s[j]).update(j, s[i])
}

/// The position above `c` in the tree.
pub open spec fn parent(c: int) -> int {
    (c - 1) / 2
}

/// The value at `c` is not below the value above it.
pub open spec fn in_order_at<T: PartialOrd>(s: Seq<T>, c: int) -> bool {
    !greater(s[parent(c)], s[c])
}

/// Every value is in order with the one above it.
pub open spec fn is_heap<T: PartialOrd>(s: Seq<T>) -> bool {
    forall|c: int| 0 < c < s.len() ==> #[trigger] in_order_at(s, c)
}

/// Every value whose parent is at `k` or later is in order with it.
pub open spec fn is_heap_from<T: PartialOrd>(s: Seq<T>, k: int) -> bool {
    forall|c: int| 0 < c < s.len() && parent(c) >= k ==> #[trigger] in_order_at(s, c)
}

/// No value of `s` is below the first.
pub open spec fn first_is_least<T: PartialOrd>(s: Seq<T>) -> bool {
    forall|i: int| 0 <= i < s.len() ==> !less(#[trigger] s[i], s[0])
}

/// Of the positions below `i`, the one to compare `i` with: the right one
/// where it exists and is strictly smaller than the left one, else the left.
pub open spec fn smaller_child<T: PartialOrd>(s: Seq<T>, i: int) -> int {
    if 2 * i + 2 < s.len() && less(s[2 * i + 2], s[2 * i + 1]) {
        2 * i + 2
    } else {
        2 * i + 1
    }
}

/// `s` after the value at `i` has sunk: while its smaller child is
/// strictly smaller, the two are exchanged.
pub open spec fn sift_down_from<T: PartialOrd>(s: Seq<T>, i: int) -> Seq<T>
    decreases s.len() - i,
{
    let c = smaller_child(s, i);
    if 0 <= i && c < s.len() && less(s[c], s[i]) {
        sift_down_from(swapped(s, i, c), c)
    } else {
        s
    }
}

/// `s` after the value at `c` has risen: while it is strictly smaller than
/// the value above it, the two are exchanged.
pub open spec fn sift_up_from<T: PartialOrd>(s: Seq<T>, c: int) -> Seq<T>
    decreases c,
{
    if 0 < c < s.len() && less(s[c], s[parent(c)]) {
        sift_up_from(swapped(s, c, parent(c)), parent(c))
    } else {
        s
    }
}

/// `s` after its last value has risen to its place.
pub open spec fn sifted_up<T: PartialOrd>(s: Seq<T>) -> Seq<T> {
    sift_up_from(s, s.len() - 1)
}

/// `s` after the values at `k - 1`, `k - 2`, down to `0` have sunk, in that
/// order.
pub open spec fn heapify_from<T: PartialOrd>(s: Seq<T>, k: int) -> Seq<T>
    decreases k,
{
    if k <= 0 {
        s
    } else {
        heapify_from(sift_down_from(s, k - 1), k - 1)
    }
}

/// `s` made into a heap: every value that has a child sinks, the last such
/// value first and the first value last.
pub open spec fn heapified<T: PartialOrd>(s: Seq<T>) -> Seq<T> {
    heapify_from(s, s.len() as int / 2)
}

/// `held` is what a heap holds that was made of clones of the values of
/// `src`: the clones, made into a heap.
pub open spec fn heap_of_clones<T: PartialOrd + Clone>(held: Seq<T>, src: Seq<T>) -> bool {
    exists|clones: Seq<T>|
        #![trigger clones_of(src, clones)]
        clones_of(src, clones) && held.to_multiset() == clones.to_multiset() && (
        specified_order::<T>() ==> held == heapified(clones))
}

/// What a heap that held `s` holds after a push of `elem`, where it may
/// hold `capacity` values. Below capacity `elem` is appended and rises. At
/// capacity `elem` takes the place of the first value and sinks if it is not
/// below that value, and is turned away if it is.
pub open spec fn after_push<T: PartialOrd>(s: Seq<T>, capacity: nat, elem: T) -> Seq<T> {
    if s.len() < capacity {
        sifted_up(s.push(elem))
    } else if s.len() > 0 && at_least(elem, s[0]) {
        sift_down_from(s.update(0, elem), 0)
    } else {
        s
    }
}

/// What that push returns: nothing below capacity; at capacity the value
/// that left, which is the former first value or, where `elem` was turned
/// away, `elem` itself.
pub open spec fn push_result<T: PartialOrd>(s: Seq<T>, capacity: nat, elem: T) -> Option<T> {
    if s.len() < capacity {
        None
    } else if s.len() > 0 && at_least(elem, s[0]) {
        Some(s[0])
    } else {
        Some(elem)
    }
}

/// What a heap that held `s` holds after a pop: the last value takes the
/// place of the first and sinks.
pub open spec fn after_pop<T: PartialOrd>(s: Seq<T>) -> Seq<T> {
    if s.len() > 0 {
        sift_down_from(swapped(s, 0, s.len() - 1).drop_last(), 0)
    } else {
        s
    }
}

/// What that pop returns: the first value, if there is one.
pub open spec fn pop_result<T>(s: Seq<T>) -> Option<T> {
    if s.len() > 0 {
        Some(s[0])
    } else {
        None
    }
}

/// The values that the first `n` pops return, in turn.
pub open spec fn pops<T: PartialOrd>(s: Seq<T>, n: nat) -> Seq<T>
    decreases n,
{
    if n == 0 || s.len() == 0 {
        Seq::empty()
    } else {
        seq![s[0]] + pops(after_pop(s), (n - 1) as nat)
    }
}

/// The values that pops return, in turn, until the heap is empty.
pub open spec fn pop_sequence<T: PartialOrd>(s: Seq<T>) -> Seq<T> {
    pops(s, s.len())
}

/// No value of `s` is below one that comes before it.
pub open spec fn ascending<T: PartialOrd>(s: Seq<T>) -> bool {
    forall|i: int, j: int| 0 <= i < j < s.len() ==> !less(#[trigger] s[j], #[trigger] s[i])
}

} // verus!
