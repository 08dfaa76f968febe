//! What the operations on the sequence keep and restore, proved of the model
//! that the contracts of the heaps speak of.

use crate::heap::{BoundedBinaryHeap, BoundedBinaryHeaper};
use crate::model::{
    after_pop, after_push, ascending, clones_of, first_is_least, heap_of_clones, heapified,
    heapify_from, in_order_at, is_heap, is_heap_from, parent, pop_result, pop_sequence, pops,
    push_result, sift_down_from, sift_up_from, sifted_up, smaller_child, swapped,
};
use crate::order::{
    at_least, greater, lemma_less_transitive, less, specified_order, total_order,
};
use vstd::prelude::*;

verus! {

/// Exchanging two values keeps the elements.
pub proof fn lemma_swapped_keeps_elements<T>(s: Seq<T>, i: int, j: int)
    requires
        0 <= i < s.len(),
        0 <= j < s.len(),
    ensures
        swapped(s, i, j).len() == s.len(),
        swapped(s, i, j).to_multiset() == s.to_multiset(),
{
    broadcast use vstd::seq_lib::group_to_multiset_ensures;

}

/// Sinking a value keeps the elements.
pub proof fn lemma_sift_down_keeps_elements<T: PartialOrd>(s: Seq<T>, i: int)
    ensures
        sift_down_from(s, i).len() == s.len(),
        sift_down_from(s, i).to_multiset() == s.to_multiset(),
    decreases s.len() - i,
{
    let c = smaller_child(s, i);
    if 0 <= i && c < s.len() && less(s[c], s[i]) {
        lemma_swapped_keeps_elements(s, i, c);
        lemma_sift_down_keeps_elements(swapped(s, i, c), c);
    }
}

/// Letting a value rise keeps the elements.
pub proof fn lemma_sift_up_keeps_elements<T: PartialOrd>(s: Seq<T>, c: int)
    ensures
        sift_up_from(s, c).len() == s.len(),
        sift_up_from(s, c).to_multiset() == s.to_multiset(),
    decreases c,
{
    if 0 < c < s.len() && less(s[c], s[parent(c)]) {
        lemma_swapped_keeps_elements(s, c, parent(c));
        lemma_sift_up_keeps_elements(swapped(s, c, parent(c)), parent(c));
    }
}

/// What `sift_down_from(s, i)` needs in order to leave every value whose
/// parent is at `k` or later in order: all of them but the children of `i`
/// are in order already, and no child of `i` is below the value above `i`.
pub open spec fn sinkable<T: PartialOrd>(s: Seq<T>, k: int, i: int) -> bool {
    &&& 0 <= k <= i
    &&& forall|c: int|
        0 < c < s.len() && parent(c) >= k && parent(c) != i ==> #[trigger] in_order_at(s, c)
    &&& i > 0 && parent(i) >= k ==> {
        &&& 2 * i + 1 < s.len() ==> !greater(s[parent(i)], s[2 * i + 1])
        &&& 2 * i + 2 < s.len() ==> !greater(s[parent(i)], s[2 * i + 2])
    }
}

/// Sinking the value at `i` puts its children in order with it and
/// disturbs no other pair.
pub proof fn lemma_sift_down_restores<T: PartialOrd>(s: Seq<T>, k: int, i: int)
    requires
        total_order::<T>(),
        sinkable(s, k, i),
    ensures
        is_heap_from(sift_down_from(s, i), k),
    decreases s.len() - i,
{
    let n = s.len() as int;
    let left = 2 * i + 1;
    let right = 2 * i + 2;
    let c = smaller_child(s, i);
    if c < n && less(s[c], s[i]) {
        // The smaller child comes up: it is below neither its sibling nor,
        // by what is required, the value above `i`. What was at `i` goes on
        // sinking from `c`, whose children are not below the child that
        // came up.
        let t = swapped(s, i, c);
        assert forall|d: int|
            0 < d < n && parent(d) >= k && parent(d) != c implies #[trigger] in_order_at(t, d) by {
            if parent(d) != i && d != i {
                assert(in_order_at(s, d));
            }
        }
        assert(2 * c + 1 < n ==> in_order_at(s, 2 * c + 1));
        assert(2 * c + 2 < n ==> in_order_at(s, 2 * c + 2));
        lemma_sift_down_restores(t, k, c);
    } else {
        // The value stays: its smaller child is not below it, so neither is
        // the other child.
        assert forall|d: int| 0 < d < n && parent(d) >= k implies #[trigger] in_order_at(s, d) by {
            if d == left && c == right && less(s[left], s[i]) {
                lemma_less_transitive(s[right], s[left], s[i]);
            }
        }
    }
}

/// What `sift_up_from(s, c)` needs in order to leave a heap: every value
/// but the one at `c` is in order with the one above it, and no child of `c`
/// is below the value above `c`.
pub open spec fn risable<T: PartialOrd>(s: Seq<T>, c: int) -> bool {
    &&& forall|d: int| 0 < d < s.len() && d != c ==> #[trigger] in_order_at(s, d)
    &&& c > 0 ==> {
        &&& 2 * c + 1 < s.len() ==> !greater(s[parent(c)], s[2 * c + 1])
        &&& 2 * c + 2 < s.len() ==> !greater(s[parent(c)], s[2 * c + 2])
    }
}

/// Letting the value at `c` rise puts it in order with the value above it
/// and disturbs no other pair.
pub proof fn lemma_sift_up_restores<T: PartialOrd>(s: Seq<T>, c: int)
    requires
        total_order::<T>(),
        risable(s, c),
    ensures
        is_heap(sift_up_from(s, c)),
    decreases c,
{
    let n = s.len() as int;
    let p = parent(c);
    if 0 < c < n && less(s[c], s[p]) {
        // The value goes up to `p`: its sibling was not below the value
        // that was there, so it is not below the smaller one that comes.
        // What was at `p` comes down to `c`, whose children are not below
        // it by what is required.
        let t = swapped(s, c, p);
        let sibling = if c == 2 * p + 1 {
            2 * p + 2
        } else {
            2 * p + 1
        };
        if sibling < n {
            assert(in_order_at(s, sibling));
            if less(s[sibling], s[c]) {
                lemma_less_transitive(s[sibling], s[c], s[p]);
            }
        }
        assert forall|d: int| 0 < d < n && d != p implies #[trigger] in_order_at(t, d) by {
            if d != c && d != sibling && parent(d) != c {
                assert(in_order_at(s, d));
            }
        }
        if p > 0 {
            assert(in_order_at(s, p));
        }
        lemma_sift_up_restores(t, p);
    } else {
        assert forall|d: int| 0 < d < n implies #[trigger] in_order_at(s, d) by {}
    }
}

/// Where all values but the last form a heap, letting the last rise leaves
/// a heap.
pub proof fn lemma_sifted_up_is_heap<T: PartialOrd>(s: Seq<T>)
    requires
        total_order::<T>(),
        is_heap(s.drop_last()),
    ensures
        is_heap(sifted_up(s)),
{
    let last = s.len() - 1;
    assert forall|d: int| 0 < d < s.len() && d != last implies #[trigger] in_order_at(s, d) by {
        assert(in_order_at(s.drop_last(), d));
    }
    lemma_sift_up_restores(s, last);
}

/// Where every value after `i` is in order with its children, sinking the
/// value at `i` brings that about for `i` too.
pub proof fn lemma_sink_after_heap<T: PartialOrd>(s: Seq<T>, i: int)
    requires
        total_order::<T>(),
        0 <= i,
        is_heap_from(s, i + 1),
    ensures
        is_heap_from(sift_down_from(s, i), i),
{
    assert forall|c: int|
        0 < c < s.len() && parent(c) >= i && parent(c) != i implies #[trigger] in_order_at(
        s,
        c,
    ) by {}
    lemma_sift_down_restores(s, i, i);
}

/// Once every value from `k` on is in order with its children, sinking
/// those before `k`, last first, leaves a heap of the same elements.
pub proof fn lemma_heapify_from<T: PartialOrd>(s: Seq<T>, k: int)
    ensures
        heapify_from(s, k).len() == s.len(),
        heapify_from(s, k).to_multiset() == s.to_multiset(),
        total_order::<T>() && k >= 0 && is_heap_from(s, k) ==> is_heap(heapify_from(s, k)),
    decreases k,
{
    if k > 0 {
        lemma_sift_down_keeps_elements(s, k - 1);
        if total_order::<T>() && is_heap_from(s, k) {
            lemma_sink_after_heap(s, k - 1);
        }
        lemma_heapify_from(sift_down_from(s, k - 1), k - 1);
    } else if k == 0 && is_heap_from(s, k) {
        assert forall|c: int| 0 < c < s.len() implies #[trigger] in_order_at(s, c) by {}
    }
}

/// Heapifying leaves a heap of the same elements.
pub proof fn lemma_heapified<T: PartialOrd>(s: Seq<T>)
    ensures
        heapified(s).len() == s.len(),
        heapified(s).to_multiset() == s.to_multiset(),
        total_order::<T>() ==> is_heap(heapified(s)),
{
    lemma_heapify_from(s, s.len() as int / 2);
}

/// In a heap the value at `i` is not below the first.
proof fn lemma_not_below_first<T: PartialOrd>(s: Seq<T>, i: int)
    requires
        total_order::<T>(),
        is_heap(s),
        0 <= i < s.len(),
    ensures
        !less(s[i], s[0]),
    decreases i,
{
    if i > 0 {
        lemma_not_below_first(s, parent(i));
        assert(in_order_at(s, i));
    } else {
        assert(greater(s[0], s[0]) <==> less(s[0], s[0]));
    }
}

/// In a heap no value is below the first.
pub proof fn lemma_first_is_least<T: PartialOrd>(s: Seq<T>)
    requires
        total_order::<T>(),
        is_heap(s),
    ensures
        first_is_least(s),
{
    assert forall|i: int| 0 <= i < s.len() implies !less(#[trigger] s[i], s[0]) by {
        lemma_not_below_first(s, i);
    }
}

/// Heapifying brings to the front a value that none of the elements is
/// below.
pub proof fn lemma_heapified_first_is_least<T: PartialOrd>(s: Seq<T>, i: int)
    requires
        total_order::<T>(),
        0 <= i < s.len(),
    ensures
        !less(s[i], heapified(s)[0]),
{
    broadcast use vstd::seq_lib::group_to_multiset_ensures;

    let h = heapified(s);
    lemma_heapified(s);
    lemma_first_is_least(h);
    assert(h.to_multiset().count(s[i]) > 0);
    let k = choose|k: int| 0 <= k < h.len() && h[k] == s[i];
    assert(!less(h[k], h[0]));
}

/// Where a clone of a value is that value, a heap made of clones of the
/// values of `src` holds `src` made into a heap.
pub proof fn lemma_heap_of_exact_clones<T: PartialOrd + Clone>(held: Seq<T>, src: Seq<T>)
    requires
        heap_of_clones(held, src),
        forall|a: T, b: T| #[trigger] cloned(a, b) ==> a == b,
    ensures
        held.to_multiset() == src.to_multiset(),
        specified_order::<T>() ==> held == heapified(src),
{
    let clones = choose|clones: Seq<T>|
        #![trigger clones_of(src, clones)]
        clones_of(src, clones) && held.to_multiset() == clones.to_multiset() && (
        specified_order::<T>() ==> held == heapified(clones));
    assert forall|i: int| 0 <= i < src.len() implies clones[i] == src[i] by {
        assert(cloned(src[i], clones[i]));
    }
    assert(clones =~= src);
}

/// A push keeps within capacity, loses no element, and keeps a heap a heap.
pub proof fn lemma_after_push<T: PartialOrd>(s: Seq<T>, capacity: nat, elem: T)
    requires
        s.len() <= capacity,
    ensures
        after_push(s, capacity, elem).len() <= capacity,
        push_result(s, capacity, elem) is None ==> after_push(s, capacity, elem).to_multiset()
            == s.to_multiset().insert(elem),
        push_result(s, capacity, elem) matches Some(out) ==> after_push(
            s,
            capacity,
            elem,
        ).to_multiset().insert(out) == s.to_multiset().insert(elem),
        total_order::<T>() && is_heap(s) ==> is_heap(after_push(s, capacity, elem)),
{
    broadcast use vstd::seq_lib::group_to_multiset_ensures;

    if s.len() < capacity {
        let t = s.push(elem);
        lemma_sift_up_keeps_elements(t, t.len() - 1);
        assert(t.drop_last() =~= s);
        if total_order::<T>() && is_heap(s) {
            lemma_sifted_up_is_heap(t);
        }
    } else if s.len() > 0 && at_least(elem, s[0]) {
        let t = s.update(0, elem);
        lemma_sift_down_keeps_elements(t, 0);
        if total_order::<T>() && is_heap(s) {
            assert forall|c: int| 0 < c < t.len() && parent(c) >= 1 implies #[trigger] in_order_at(
                t,
                c,
            ) by {
                assert(in_order_at(s, c));
            }
            lemma_sink_after_heap(t, 0);
        }
    }
}

/// A pop takes the first value away, keeps the others, and keeps a heap a
/// heap.
pub proof fn lemma_after_pop<T: PartialOrd>(s: Seq<T>)
    requires
        s.len() > 0,
    ensures
        after_pop(s).len() == s.len() - 1,
        after_pop(s).to_multiset() == s.to_multiset().remove(s[0]),
        total_order::<T>() && is_heap(s) ==> is_heap(after_pop(s)),
{
    broadcast use vstd::seq_lib::group_to_multiset_ensures;

    let last = s.len() - 1;
    let t = swapped(s, 0, last).drop_last();
    assert(t =~= swapped(s, 0, last).remove(last));
    lemma_sift_down_keeps_elements(t, 0);
    if total_order::<T>() && is_heap(s) {
        assert forall|c: int| 0 < c < t.len() && parent(c) >= 1 implies #[trigger] in_order_at(
            t,
            c,
        ) by {
            assert(in_order_at(s, c));
        }
        lemma_sink_after_heap(t, 0);
    }
}

/// The first `n` pops of a heap of `n` values return its elements, each
/// once, and none of them below one returned before it.
pub proof fn lemma_pops_ascend<T: PartialOrd>(s: Seq<T>, n: nat)
    requires
        total_order::<T>(),
        is_heap(s),
        n == s.len(),
    ensures
        pops(s, n).len() == n,
        pops(s, n).to_multiset() == s.to_multiset(),
        ascending(pops(s, n)),
    decreases n,
{
    broadcast use vstd::seq_lib::group_to_multiset_ensures;

    if n > 0 {
        let rest = pops(after_pop(s), (n - 1) as nat);
        let all = pops(s, n);
        lemma_after_pop(s);
        lemma_first_is_least(s);
        lemma_pops_ascend(after_pop(s), (n - 1) as nat);
        assert(all =~= rest.insert(0, s[0]));
        assert forall|i: int, j: int| 0 <= i < j < all.len() implies !less(
            #[trigger] all[j],
            #[trigger] all[i],
        ) by {
            if i == 0 {
                // What comes later was in the heap, where nothing is below
                // the first value.
                assert(rest.contains(all[j]));
                assert(rest.to_multiset().count(all[j]) > 0);
                let k = choose|k: int| 0 <= k < s.len() && s[k] == all[j];
                assert(!less(s[k], s[0]));
            }
        }
    }
}

/// Popped until it is empty, a heap returns its elements, each once, and
/// none of them below one returned before it.
pub proof fn lemma_pop_sequence_ascends<T: PartialOrd>(s: Seq<T>)
    requires
        total_order::<T>(),
        is_heap(s),
    ensures
        pop_sequence(s).len() == s.len(),
        pop_sequence(s).to_multiset() == s.to_multiset(),
        ascending(pop_sequence(s)),
{
    lemma_pops_ascend(s, s.len());
}

/// The two kinds of heap behave alike. An owned heap and an overlay heap
/// that hold the same values in the same positions, under the same capacity,
/// return the same from a push of the same value and from a pop, hold the
/// same values in the same positions afterwards, and so return the same
/// values, in the same order, when popped until they are empty.
pub proof fn lemma_variants_agree<'a, T: 'a + PartialOrd + Clone>(
    owned: BoundedBinaryHeap<T>,
    overlay: BoundedBinaryHeaper<'a, T>,
    elem: T,
)
    requires
        owned@ == overlay@,
        owned.capacity() == overlay.capacity(),
    ensures
        push_result(owned@, owned.capacity() as nat, elem) == push_result(
            overlay@,
            overlay.capacity() as nat,
            elem,
        ),
        after_push(owned@, owned.capacity() as nat, elem) == after_push(
            overlay@,
            overlay.capacity() as nat,
            elem,
        ),
        pop_result(owned@) == pop_result(overlay@),
        after_pop(owned@) == after_pop(overlay@),
        pop_sequence(owned@) == pop_sequence(overlay@),
{
}

} // verus!
