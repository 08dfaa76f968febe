//! The sift primitives and the two bounded heaps built on them.

use crate::laws::{
    lemma_after_pop, lemma_after_push, lemma_first_is_least, lemma_heapified,
    lemma_sifted_up_is_heap, lemma_sink_after_heap, lemma_swapped_keeps_elements,
};
use crate::model::{
    after_pop, after_push, clones_of, first_is_least, heap_of_clones, heapified, heapify_from,
    in_order_at, is_heap, is_heap_from, parent, pop_result, push_result, sift_down_from,
    sift_up_from, sifted_up, smaller_child, swapped,
};
use crate::order::{less, specified_order, total_order};
use vstd::prelude::*;

verus! {

/// Exchanges the values at `i` and `j`, which may be the same position.
fn exchange<T>(heap: &mut [T], i: usize, j: usize)
    requires
        i < old(heap)@.len(),
        j < old(heap)@.len(),
    ensures
        final(heap)@ == swapped(old(heap)@, i as int, j as int),
        final(heap)@.len() == old(heap)@.len(),
        final(heap)@.to_multiset() == old(heap)@.to_multiset(),
{
    proof {
        lemma_swapped_keeps_elements(heap@, i as int, j as int);
    }
    if i < j {
        let (low, high) = heap.split_at_mut(j);
        core::mem::swap(&mut low[i], &mut high[0]);
    } else if j < i {
        let (low, high) = heap.split_at_mut(i);
        core::mem::swap(&mut low[j], &mut high[0]);
    }
}

/// Lets the last value of `heap` rise to its place: while it is strictly
/// smaller than the value above it, the two are exchanged.
///
/// Where all values but the last formed a heap, all of them do afterwards.
pub fn sift_up<T: PartialOrd>(heap: &mut [T])
    ensures
        final(heap)@.len() == old(heap)@.len(),
        final(heap)@.to_multiset() == old(heap)@.to_multiset(),
        specified_order::<T>() ==> final(heap)@ == sifted_up(old(heap)@),
        total_order::<T>() && is_heap(old(heap)@.drop_last()) ==> is_heap(final(heap)@),
{
    let mut i = heap.len();
    let mut j = i / 2;
    while j > 0 && heap[i - 1] < heap[j - 1]
        invariant
            heap@.len() == old(heap)@.len(),
            heap@.to_multiset() == old(heap)@.to_multiset(),
            i <= heap@.len(),
            j == i / 2,
            specified_order::<T>() ==> sift_up_from(heap@, i - 1) == sifted_up(old(heap)@),
        decreases i,
    {
        exchange(heap, i - 1, j - 1);
        i = j;
        j = j / 2;
    }
    proof {
        if total_order::<T>() && is_heap(old(heap)@.drop_last()) {
            lemma_sifted_up_is_heap(old(heap)@);
        }
    }
}

/// The child of `i` to compare `i` with: the right one where it exists and
/// is strictly smaller than the left one, else the left one. Where `i` has
/// no child, the length of `heap`.
fn smaller_child_of<T: PartialOrd>(heap: &[T], i: usize) -> (j: usize)
    ensures
        2 * i + 1 >= heap@.len() ==> j == heap@.len(),
        2 * i + 1 < heap@.len() ==> j == 2 * i + 1 || (j == 2 * i + 2 && j < heap@.len()),
        specified_order::<T>() && 2 * i + 1 < heap@.len() ==> j == smaller_child(heap@, i as int),
{
    let n = heap.len();
    if i >= n / 2 {
        return n;
    }
    let left = 2 * i + 1;
    let right = left + 1;
    if right < n && heap[right] < heap[left] {
        right
    } else {
        left
    }
}

/// Lets the value at `i` sink to its place: while the smaller of its
/// children is strictly smaller than it, the two are exchanged. Of two
/// children the right one is taken only where it is strictly smaller than
/// the left one. A position past the end has no value to sink.
///
/// Where every value after `i` was in order with its children, every value
/// from `i` on is afterwards.
pub fn sift_down<T: PartialOrd>(heap: &mut [T], i: usize)
    ensures
        final(heap)@.len() == old(heap)@.len(),
        final(heap)@.to_multiset() == old(heap)@.to_multiset(),
        specified_order::<T>() ==> final(heap)@ == sift_down_from(old(heap)@, i as int),
        total_order::<T>() && is_heap_from(old(heap)@, i + 1) ==> is_heap_from(
            final(heap)@,
            i as int,
        ),
{
    let ghost start = i;
    let mut i = i;
    let mut j = smaller_child_of(heap, i);
    while j < heap.len() && heap[j] < heap[i]
        invariant
            heap@.len() == old(heap)@.len(),
            heap@.to_multiset() == old(heap)@.to_multiset(),
            2 * i + 1 >= heap@.len() ==> j == heap@.len(),
            2 * i + 1 < heap@.len() ==> j == 2 * i + 1 || (j == 2 * i + 2 && j < heap@.len()),
            specified_order::<T>() && 2 * i + 1 < heap@.len() ==> j == smaller_child(
                heap@,
                i as int,
            ),
            specified_order::<T>() ==> sift_down_from(heap@, i as int) == sift_down_from(
                old(heap)@,
                start as int,
            ),
        decreases heap@.len() - i,
    {
        exchange(heap, i, j);
        i = j;
        j = smaller_child_of(heap, i);
    }
    proof {
        if total_order::<T>() && is_heap_from(old(heap)@, start + 1) {
            lemma_sink_after_heap(old(heap)@, start as int);
        }
    }
}

/// Makes `heap` into a binary heap in place: every value that has a child
/// sinks, the last such value first and the first value last.
pub fn heapify<T: PartialOrd>(heap: &mut [T])
    ensures
        final(heap)@.len() == old(heap)@.len(),
        final(heap)@.to_multiset() == old(heap)@.to_multiset(),
        specified_order::<T>() ==> final(heap)@ == heapified(old(heap)@),
        total_order::<T>() ==> is_heap(final(heap)@),
{
    let mut k = heap.len() / 2;
    while k > 0
        invariant
            heap@.len() == old(heap)@.len(),
            heap@.to_multiset() == old(heap)@.to_multiset(),
            k <= heap@.len() / 2,
            specified_order::<T>() ==> heapify_from(heap@, k as int) == heapified(old(heap)@),
        decreases k,
    {
        k = k - 1;
        sift_down(heap, k);
    }
    proof {
        lemma_heapified(old(heap)@);
    }
}

/// Whether `heap` is a binary heap: no value is greater than a child of it.
/// An empty slice is one.
pub fn verify_heap<T: PartialOrd>(heap: &[T]) -> (ok: bool)
    ensures
        specified_order::<T>() ==> ok == is_heap(heap@),
{
    let n = heap.len();
    for i in 0..n / 2
        invariant
            n == heap@.len(),
            specified_order::<T>() ==> forall|c: int|
                0 < c < n && parent(c) < i ==> #[trigger] in_order_at(heap@, c),
    {
        let left = 2 * i + 1;
        let right = left + 1;
        if heap[i] > heap[left] || (right < n && heap[i] > heap[right]) {
            proof {
                if specified_order::<T>() {
                    assert(!in_order_at(heap@, left as int) || !in_order_at(heap@, right as int));
                }
            }
            return false;
        }
    }
    true
}

/// A bounded heap laid over a borrowed buffer: it holds its values in the
/// first slots of the buffer, in heap order, and can hold as many as the
/// buffer has slots. It allocates nothing.
pub struct BoundedBinaryHeaper<'a, T: 'a> {
    len: usize,
    heap: &'a mut [T],
}

impl<'a, T: 'a + PartialOrd> View for BoundedBinaryHeaper<'a, T> {
    type V = Seq<T>;

    /// The values held, in heap order: the first `len()` slots of the
    /// buffer.
    open spec fn view(&self) -> Seq<T> {
        self.buffer().take(self.len() as int)
    }
}

impl<'a, T: 'a + PartialOrd> BoundedBinaryHeaper<'a, T> {
    /// All slots of the buffer, those past the values held too.
    pub closed spec fn buffer(&self) -> Seq<T> {
        self.heap@
    }

    /// The number of values held.
    pub closed spec fn spec_len(&self) -> usize {
        self.len
    }

    /// The number of slots of the buffer.
    pub closed spec fn spec_capacity(&self) -> usize {
        self.heap.len()
    }

    /// The buffer has `capacity()` slots, `len()` is within it, and the
    /// values held form a heap.
    pub open spec fn well_formed(&self) -> bool {
        &&& self.buffer().len() == self.capacity()
        &&& self.len() <= self.capacity()
        &&& total_order::<T>() ==> is_heap(self@)
    }

    /// Lays a heap over `slice` that holds all its values, after making them
    /// into a heap in place.
    pub fn from(slice: &'a mut [T]) -> (h: BoundedBinaryHeaper<'a, T>)
        ensures
            h.well_formed(),
            h.capacity() == old(slice)@.len(),
            h.len() == old(slice)@.len(),
            h@.to_multiset() == old(slice)@.to_multiset(),
            specified_order::<T>() ==> h@ == heapified(old(slice)@),
    {
        heapify(slice);
        assert(slice@.take(slice@.len() as int) =~= slice@);
        BoundedBinaryHeaper { len: slice.len(), heap: slice }
    }

    /// Lays an empty heap over `slice`, whatever `slice` holds.
    pub fn from_empty_slice(slice: &'a mut [T]) -> (h: BoundedBinaryHeaper<'a, T>)
        ensures
            h.well_formed(),
            h.capacity() == old(slice)@.len(),
            h.len() == 0,
            h.buffer() == old(slice)@,
    {
        BoundedBinaryHeaper { len: 0, heap: slice }
    }

    /// Pushes `elem`. Below capacity it is taken in and nothing is returned.
    /// At capacity it takes the place of the smallest value held, which is
    /// returned, unless it is below that value: then the heap stays as it
    /// is and `elem` itself is returned.
    ///
    /// The slots past the values held are left as they are.
    pub fn push(&mut self, elem: T) -> (r: Option<T>)
        requires
            old(self).well_formed(),
        ensures
            final(self).well_formed(),
            final(self).capacity() == old(self).capacity(),
            final(self).len() <= final(self).capacity(),
            total_order::<T>() ==> is_heap(final(self)@),
            old(self).len() < old(self).capacity() ==> r is None,
            old(self).len() < old(self).capacity() ==> final(self).len() == old(self).len() + 1,
            old(self).len() < old(self).capacity() ==> final(self)@.to_multiset()
                == old(self)@.to_multiset().insert(elem),
            old(self).len() == old(self).capacity() ==> r is Some,
            old(self).len() == old(self).capacity() ==> final(self).len() == old(self).len(),
            old(self).len() == old(self).capacity() ==> final(self)@.to_multiset().insert(r->0)
                == old(self)@.to_multiset().insert(elem),
            specified_order::<T>() ==> final(self)@ == after_push(
                old(self)@,
                old(self).capacity() as nat,
                elem,
            ),
            specified_order::<T>() ==> r == push_result(
                old(self)@,
                old(self).capacity() as nat,
                elem,
            ),
            specified_order::<T>() && old(self).len() == old(self).capacity() && old(self).len() > 0
                && less(elem, old(self)@[0]) ==> final(self)@ == old(self)@ && r == Some(elem),
            final(self).buffer().skip(final(self).len() as int) == old(self).buffer().skip(
                final(self).len() as int,
            ),
    {
        let mut elem = elem;
        let ghost before = self@;
        let ghost pushed = elem;
        proof {
            broadcast use vstd::seq_lib::group_to_multiset_ensures;

            lemma_after_push(before, self.capacity() as nat, pushed);
        }
        if self.len < self.capacity() {
            self.heap[self.len] = elem;
            self.len += 1;
            let l = self.len;
            assert(self.heap@.take(l as int) =~= before.push(pushed));
            let (held, _) = self.heap.split_at_mut(l);
            sift_up(held);
            assert(self.heap@.take(l as int) =~= held@);
            None
        } else if self.len > 0 && elem >= self.heap[0] {
            core::mem::swap(&mut elem, &mut self.heap[0]);
            assert(self.heap@ =~= before.update(0, pushed));
            sift_down(self.heap, 0);
            assert(self.heap@.take(self.len as int) =~= self.heap@);
            Some(elem)
        } else {
            Some(elem)
        }
    }

    /// Takes the smallest value out of the heap and returns it by reference,
    /// if there is one. It is left in the first slot past the values held;
    /// the slots after that one are left as they are.
    pub fn pop(&mut self) -> (r: Option<&T>)
        requires
            old(self).well_formed(),
        ensures
            final(self).well_formed(),
            final(self).capacity() == old(self).capacity(),
            final(self).len() <= final(self).capacity(),
            total_order::<T>() ==> is_heap(final(self)@),
            old(self).len() == 0 ==> r is None && final(self)@ == old(self)@,
            old(self).len() > 0 ==> r == Some(&old(self)@[0]),
            total_order::<T>() ==> first_is_least(old(self)@),
            old(self).len() > 0 ==> final(self).len() == old(self).len() - 1,
            old(self).len() > 0 ==> final(self)@.to_multiset() == old(self)@.to_multiset().remove(
                old(self)@[0],
            ),
            old(self).len() > 0 ==> final(self).buffer()[final(self).len() as int] == old(self)@[0],
            specified_order::<T>() ==> final(self)@ == after_pop(old(self)@),
            final(self).buffer().skip(old(self).len() as int) == old(self).buffer().skip(
                old(self).len() as int,
            ),
    {
        let ghost before = self@;
        proof {
            if total_order::<T>() {
                lemma_first_is_least(before);
            }
        }
        if self.len > 0 {
            proof {
                broadcast use vstd::seq_lib::group_to_multiset_ensures;

                lemma_after_pop(before);
            }
            exchange(self.heap, 0, self.len - 1);
            self.len -= 1;
            let l = self.len;
            let ghost rest = swapped(before, 0, l as int).drop_last();
            assert(self.heap@.take(l as int) =~= rest);
            assert(rest =~= swapped(before, 0, l as int).remove(l as int));
            let (held, _) = self.heap.split_at_mut(l);
            sift_down(held, 0);
            assert(self.heap@.take(l as int) =~= held@);
            Some(&self.heap[self.len])
        } else {
            None
        }
    }

    /// The number of values held.
    #[verifier::when_used_as_spec(spec_len)]
    pub fn len(&self) -> (n: usize)
        ensures
            n == self.spec_len(),
    {
        self.len
    }

    /// Whether no value is held.
    pub fn is_empty(&self) -> (b: bool)
        ensures
            b == (self.len() == 0),
    {
        self.len() == 0
    }

    /// The number of values that can be held.
    #[verifier::when_used_as_spec(spec_capacity)]
    pub fn capacity(&self) -> (n: usize)
        ensures
            n == self.spec_capacity(),
    {
        self.heap.len()
    }

    /// The smallest value held, if any.
    pub fn peek(&self) -> (r: Option<&T>)
        requires
            self.well_formed(),
        ensures
            self.len() > 0 ==> r == Some(&self@[0]),
            self.len() == 0 ==> r is None,
            total_order::<T>() ==> first_is_least(self@),
    {
        proof {
            if total_order::<T>() {
                lemma_first_is_least(self@);
            }
        }
        if self.len > 0 {
            Some(&self.heap[0])
        } else {
            None
        }
    }
}

/// A vector of clones of the values of `slice`, in the same order.
fn cloned_values<T: Clone>(slice: &[T]) -> (v: Vec<T>)
    ensures
        clones_of(slice@, v@),
{
    let mut v = Vec::with_capacity(slice.len());
    for i in 0..slice.len()
        invariant
            v@.len() == i,
            forall|j: int| 0 <= j < i ==> #[trigger] cloned(slice@[j], v@[j]),
    {
        v.push(slice[i].clone());
    }
    v
}

/// A bounded heap that owns its storage: it holds its values in heap order
/// and can hold as many as the capacity it was made with, however many it
/// was made of.
pub struct BoundedBinaryHeap<T> {
    heap: Vec<T>,
    capacity: usize,
    len: usize,
}

impl<T: PartialOrd + Clone> View for BoundedBinaryHeap<T> {
    type V = Seq<T>;

    /// The values held, in heap order.
    closed spec fn view(&self) -> Seq<T> {
        self.heap@
    }
}

impl<T: PartialOrd + Clone> BoundedBinaryHeap<T> {
    /// The number of values held.
    pub closed spec fn spec_len(&self) -> usize {
        self.len
    }

    /// The number of values that can be held.
    pub closed spec fn spec_capacity(&self) -> usize {
        self.capacity
    }

    /// `len()` is the number of values held and is within `capacity()`, and
    /// the values held form a heap.
    pub open spec fn well_formed(&self) -> bool {
        &&& self@.len() == self.len()
        &&& self.len() <= self.capacity()
        &&& total_order::<T>() ==> is_heap(self@)
    }

    /// An empty heap that can hold `capacity` values. Nothing is allocated
    /// before the first push.
    pub fn new(capacity: usize) -> (h: BoundedBinaryHeap<T>)
        ensures
            h.well_formed(),
            h.capacity() == capacity,
            h.len() == 0,
    {
        BoundedBinaryHeap { heap: Vec::new(), capacity: capacity, len: 0 }
    }

    /// A heap of clones of the values of `slice`, which can hold as many
    /// values as `slice` has.
    pub fn from(slice: &[T]) -> (h: BoundedBinaryHeap<T>)
        ensures
            h.well_formed(),
            h.capacity() == slice@.len(),
            h.len() == slice@.len(),
            heap_of_clones(h@, slice@),
    {
        let mut h = BoundedBinaryHeap {
            heap: cloned_values(slice),
            capacity: slice.len(),
            len: slice.len(),
        };
        heapify(h.heap.as_mut_slice());
        h
    }

    /// A heap of clones of the values of `slice`, which can hold `capacity`
    /// values.
    pub fn from_slice_with_capacity(slice: &[T], capacity: usize) -> (h: BoundedBinaryHeap<T>)
        requires
            capacity >= slice@.len(),
        ensures
            h.well_formed(),
            h.capacity() == capacity,
            h.len() == slice@.len(),
            heap_of_clones(h@, slice@),
    {
        let mut h = BoundedBinaryHeap {
            heap: cloned_values(slice),
            capacity: capacity,
            len: slice.len(),
        };
        heapify(h.heap.as_mut_slice());
        h
    }

    /// Pushes `elem`. Below capacity it is taken in and nothing is returned.
    /// At capacity it takes the place of the smallest value held, which is
    /// returned, unless it is below that value: then the heap stays as it
    /// is and `elem` itself is returned.
    pub fn push(&mut self, elem: T) -> (r: Option<T>)
        requires
            old(self).well_formed(),
        ensures
            final(self).well_formed(),
            final(self).capacity() == old(self).capacity(),
            final(self).len() <= final(self).capacity(),
            total_order::<T>() ==> is_heap(final(self)@),
            old(self).len() < old(self).capacity() ==> r is None,
            old(self).len() < old(self).capacity() ==> final(self).len() == old(self).len() + 1,
            old(self).len() < old(self).capacity() ==> final(self)@.to_multiset()
                == old(self)@.to_multiset().insert(elem),
            old(self).len() == old(self).capacity() ==> r is Some,
            old(self).len() == old(self).capacity() ==> final(self).len() == old(self).len(),
            old(self).len() == old(self).capacity() ==> final(self)@.to_multiset().insert(r->0)
                == old(self)@.to_multiset().insert(elem),
            specified_order::<T>() ==> final(self)@ == after_push(
                old(self)@,
                old(self).capacity() as nat,
                elem,
            ),
            specified_order::<T>() ==> r == push_result(
                old(self)@,
                old(self).capacity() as nat,
                elem,
            ),
            specified_order::<T>() && old(self).len() == old(self).capacity() && old(self).len() > 0
                && less(elem, old(self)@[0]) ==> final(self)@ == old(self)@ && r == Some(elem),
    {
        let mut elem = elem;
        let ghost before = self@;
        let ghost pushed = elem;
        proof {
            broadcast use vstd::seq_lib::group_to_multiset_ensures;

            lemma_after_push(before, self.capacity() as nat, pushed);
        }
        if self.len < self.capacity() {
            self.len += 1;
            self.heap.push(elem);
            sift_up(self.heap.as_mut_slice());
            None
        } else if self.len > 0 && elem >= self.heap[0] {
            core::mem::swap(&mut elem, &mut self.heap[0]);
            sift_down(self.heap.as_mut_slice(), 0);
            Some(elem)
        } else {
            Some(elem)
        }
    }

    /// Takes the smallest value out of the heap and returns it, if there is
    /// one.
    pub fn pop(&mut self) -> (r: Option<T>)
        requires
            old(self).well_formed(),
        ensures
            final(self).well_formed(),
            final(self).capacity() == old(self).capacity(),
            final(self).len() <= final(self).capacity(),
            total_order::<T>() ==> is_heap(final(self)@),
            r == pop_result(old(self)@),
            total_order::<T>() ==> first_is_least(old(self)@),
            old(self).len() == 0 ==> final(self)@ == old(self)@,
            old(self).len() > 0 ==> final(self).len() == old(self).len() - 1,
            old(self).len() > 0 ==> final(self)@.to_multiset() == old(self)@.to_multiset().remove(
                old(self)@[0],
            ),
            specified_order::<T>() ==> final(self)@ == after_pop(old(self)@),
    {
        let ghost before = self@;
        proof {
            if total_order::<T>() {
                lemma_first_is_least(before);
            }
        }
        if self.len > 0 {
            proof {
                broadcast use vstd::seq_lib::group_to_multiset_ensures;

                lemma_after_pop(before);
            }
            exchange(self.heap.as_mut_slice(), 0, self.len - 1);
            self.len -= 1;
            let l = self.len;
            let ghost rest = swapped(before, 0, l as int).drop_last();
            assert(rest =~= swapped(before, 0, l as int).remove(l as int));
            let (held, _) = self.heap.as_mut_slice().split_at_mut(l);
            sift_down(held, 0);
            let last = self.heap.swap_remove(self.len);
            assert(self.heap@ =~= held@);
            Some(last)
        } else {
            None
        }
    }

    /// The number of values held.
    #[verifier::when_used_as_spec(spec_len)]
    pub fn len(&self) -> (n: usize)
        ensures
            n == self.spec_len(),
    {
        self.len
    }

    /// Whether no value is held.
    pub fn is_empty(&self) -> (b: bool)
        ensures
            b == (self.len() == 0),
    {
        self.len() == 0
    }

    /// The number of values that can be held.
    #[verifier::when_used_as_spec(spec_capacity)]
    pub fn capacity(&self) -> (n: usize)
        ensures
            n == self.spec_capacity(),
    {
        self.capacity
    }

    /// The smallest value held, if any.
    pub fn peek(&self) -> (r: Option<&T>)
        requires
            self.well_formed(),
        ensures
            self.len() > 0 ==> r == Some(&self@[0]),
            self.len() == 0 ==> r is None,
            total_order::<T>() ==> first_is_least(self@),
    {
        proof {
            if total_order::<T>() {
                lemma_first_is_least(self@);
            }
        }
        if self.len > 0 {
            Some(&self.heap[0])
        } else {
            None
        }
    }
}

} // verus!
