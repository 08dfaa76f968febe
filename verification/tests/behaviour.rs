use rust_heap::{
    heapify, sift_down, sift_up, verify_heap, BoundedBinaryHeap, BoundedBinaryHeaper,
};
use std::cmp::Ordering;

/// A value ordered by its key alone, so that values that tie can be told apart.
#[derive(Clone, Copy, Debug)]
struct Tagged {
    key: i32,
    tag: char,
}

impl PartialEq for Tagged {
    fn eq(&self, other: &Tagged) -> bool {
        self.key == other.key
    }
}

impl PartialOrd for Tagged {
    fn partial_cmp(&self, other: &Tagged) -> Option<Ordering> {
        self.key.partial_cmp(&other.key)
    }
}

fn tagged(key: i32, tag: char) -> Tagged {
    Tagged { key, tag }
}

fn pairs(values: &[Tagged]) -> Vec<(i32, char)> {
    values.iter().map(|t| (t.key, t.tag)).collect()
}

fn sorted(values: &[i32]) -> Vec<i32> {
    let mut v = values.to_vec();
    v.sort();
    v
}

/// Every arrangement of `1..=n`.
fn permutations(n: i32) -> Vec<Vec<i32>> {
    let mut all = vec![vec![]];
    for value in 1..=n {
        let mut longer = Vec::new();
        for shorter in &all {
            for at in 0..=shorter.len() {
                let mut p: Vec<i32> = shorter.clone();
                p.insert(at, value);
                longer.push(p);
            }
        }
        all = longer;
    }
    all
}

#[test]
fn test_sift_up_lets_last_value_rise() {
    let mut v = [1, 3, 5, 0];
    sift_up(&mut v);
    assert_eq!(v, [0, 1, 5, 3]);
}

#[test]
fn test_sift_up_stops_below_a_smaller_parent() {
    let mut v = [1, 3, 5, 4];
    sift_up(&mut v);
    assert_eq!(v, [1, 3, 5, 4]);
}

#[test]
fn test_sift_up_does_not_pass_an_equal_parent() {
    let mut v = [tagged(1, 'a'), tagged(2, 'b'), tagged(1, 'n')];
    sift_up(&mut v);
    assert_eq!(pairs(&v), vec![(1, 'a'), (2, 'b'), (1, 'n')]);
}

#[test]
fn test_sift_up_on_empty_and_single() {
    let mut none: [i32; 0] = [];
    sift_up(&mut none);
    let mut one = [4];
    sift_up(&mut one);
    assert_eq!(one, [4]);
}

#[test]
fn test_sift_down_lets_value_sink() {
    let mut v = [9, 4, 2, 7, 5, 3];
    sift_down(&mut v, 0);
    assert_eq!(v, [2, 4, 3, 7, 5, 9]);
}

#[test]
fn test_sift_down_prefers_left_child_on_a_tie() {
    let mut v = [tagged(5, 'a'), tagged(3, 'l'), tagged(3, 'r')];
    sift_down(&mut v, 0);
    assert_eq!(pairs(&v), vec![(3, 'l'), (5, 'a'), (3, 'r')]);
}

#[test]
fn test_sift_down_takes_right_child_when_strictly_smaller() {
    let mut v = [tagged(5, 'a'), tagged(4, 'l'), tagged(3, 'r')];
    sift_down(&mut v, 0);
    assert_eq!(pairs(&v), vec![(3, 'r'), (4, 'l'), (5, 'a')]);
}

#[test]
fn test_sift_down_with_a_single_child() {
    let mut v = [3, 1];
    sift_down(&mut v, 0);
    assert_eq!(v, [1, 3]);
}

#[test]
fn test_sift_down_past_the_end_changes_nothing() {
    let mut v = [3, 1, 2];
    sift_down(&mut v, 1);
    sift_down(&mut v, 3);
    sift_down(&mut v, usize::MAX);
    assert_eq!(v, [3, 1, 2]);
    let mut none: [i32; 0] = [];
    sift_down(&mut none, 0);
}

#[test]
fn test_heapify_exact_order() {
    let mut v = [10, 12, 9, 8, 7, 6, 5, 11, 3];
    heapify(&mut v);
    assert_eq!(v, [3, 7, 5, 8, 10, 6, 9, 11, 12]);
    let mut w = [3, 2, 1];
    heapify(&mut w);
    assert_eq!(w, [1, 2, 3]);
}

#[test]
fn test_heapify_even_lengths() {
    let mut two = [3, 1];
    heapify(&mut two);
    assert_eq!(two, [1, 3]);
    let mut four = [1, 5, 2, 3];
    heapify(&mut four);
    assert_eq!(four, [1, 3, 2, 5]);
    assert!(verify_heap(&four));
    let mut six = [6, 5, 4, 3, 2, 1];
    heapify(&mut six);
    assert_eq!(six, [1, 2, 4, 3, 5, 6]);
    assert!(verify_heap(&six));
}

#[test]
fn test_heapify_empty_and_single() {
    let mut none: [i32; 0] = [];
    heapify(&mut none);
    assert!(verify_heap(&none));
    let mut one = [7];
    heapify(&mut one);
    assert_eq!(one, [7]);
    assert!(verify_heap(&one));
}

#[test]
fn test_heapify_any_permutation() {
    for n in 1..=6 {
        for p in permutations(n) {
            let mut v = p.clone();
            heapify(&mut v);
            assert!(verify_heap(&v));
            assert_eq!(v[0], 1);
            assert_eq!(sorted(&v), sorted(&p));
        }
    }
}

#[test]
fn test_verify_heap_accepts_and_refuses() {
    assert!(verify_heap(&[1, 2, 3]));
    assert!(!verify_heap(&[3, 2, 1]));
    assert!(verify_heap(&[1, 1, 1]));
    assert!(!verify_heap(&[1, 2, 0]));
}

#[test]
fn test_verify_heap_checks_a_single_child() {
    assert!(!verify_heap(&[3, 1]));
    assert!(verify_heap(&[1, 3]));
    assert!(!verify_heap(&[1, 2, 3, 0]));
    assert!(verify_heap(&[1, 2, 3, 2]));
}

#[test]
fn test_push_evicts_minimum() {
    let mut h = BoundedBinaryHeap::from(&[1, 2, 3]);
    assert_eq!(h.push(4), Some(1));
    assert_eq!(h.len(), 3);
    assert_eq!(h.pop(), Some(2));
    assert_eq!(h.pop(), Some(3));
    assert_eq!(h.pop(), Some(4));
    assert_eq!(h.pop(), None);
}

#[test]
fn test_overlay_push_evicts_minimum() {
    let mut v = [3, 2, 1];
    let mut h = BoundedBinaryHeaper::from(&mut v);
    assert_eq!(h.push(4), Some(1));
    assert_eq!(h.len(), 3);
    assert_eq!(h.pop(), Some(&2));
    assert_eq!(h.pop(), Some(&3));
    assert_eq!(h.pop(), Some(&4));
    assert_eq!(h.pop(), None);
}

#[test]
fn test_push_below_minimum_is_turned_away() {
    let mut h = BoundedBinaryHeap::from(&[5, 6, 7]);
    assert_eq!(h.push(4), Some(4));
    assert_eq!(h.len(), 3);
    assert_eq!(h.peek(), Some(&5));
    assert_eq!(h.pop(), Some(5));
    assert_eq!(h.pop(), Some(6));
    assert_eq!(h.pop(), Some(7));
    assert_eq!(h.pop(), None);
}

#[test]
fn test_overlay_push_below_minimum_is_turned_away() {
    let mut v = [7, 6, 5];
    {
        let mut h = BoundedBinaryHeaper::from(&mut v);
        assert_eq!(h.push(4), Some(4));
        assert_eq!(h.len(), 3);
        assert_eq!(h.peek(), Some(&5));
    }
    assert_eq!(v, [5, 6, 7]);
}

#[test]
fn test_push_equal_to_minimum_evicts_it() {
    let mut h = BoundedBinaryHeap::from(&[tagged(2, 'a'), tagged(2, 'b')]);
    let out = h.push(tagged(2, 'n')).unwrap();
    assert_eq!((out.key, out.tag), (2, 'a'));
    let mut tags = vec![h.pop().unwrap().tag, h.pop().unwrap().tag];
    tags.sort();
    assert_eq!(tags, vec!['b', 'n']);
    assert!(h.pop().is_none());
}

#[test]
fn test_push_below_capacity_returns_nothing() {
    let mut h = BoundedBinaryHeap::new(2);
    assert_eq!(h.push(5), None);
    assert_eq!(h.len(), 1);
    assert_eq!(h.push(3), None);
    assert_eq!(h.len(), 2);
    assert_eq!(h.peek(), Some(&3));
}

#[test]
fn test_zero_capacity() {
    let mut h = BoundedBinaryHeap::new(0);
    assert_eq!(h.push(1), Some(1));
    assert_eq!(h.len(), 0);
    assert_eq!(h.capacity(), 0);
    assert!(h.is_empty());
    assert_eq!(h.peek(), None);
    assert_eq!(h.pop(), None);

    let mut none: [i32; 0] = [];
    let mut o = BoundedBinaryHeaper::from(&mut none);
    assert_eq!(o.push(1), Some(1));
    assert_eq!(o.len(), 0);
    assert_eq!(o.capacity(), 0);
    assert!(o.is_empty());
    assert_eq!(o.peek(), None);
    assert_eq!(o.pop(), None);

    let empty: [i32; 0] = [];
    let mut f = BoundedBinaryHeap::from(&empty);
    assert_eq!(f.capacity(), 0);
    assert_eq!(f.push(9), Some(9));
    assert_eq!(f.pop(), None);
}

#[test]
fn test_from_empty_slice_ignores_contents() {
    let mut v = [5, 4, 3, 2, 1];
    let mut h = BoundedBinaryHeaper::from_empty_slice(&mut v);
    assert_eq!(h.capacity(), 5);
    assert_eq!(h.len(), 0);
    assert!(h.is_empty());
    assert_eq!(h.peek(), None);
    assert_eq!(h.pop(), None);
    assert_eq!(h.push(9), None);
    assert_eq!(h.push(8), None);
    assert_eq!(h.len(), 2);
    assert_eq!(h.pop(), Some(&8));
    assert_eq!(h.pop(), Some(&9));
    assert_eq!(h.pop(), None);
}

#[test]
fn test_overlay_works_in_the_buffer() {
    let mut v = [0, 0, 0, 0];
    {
        let mut h = BoundedBinaryHeaper::from_empty_slice(&mut v);
        h.push(7);
        h.push(3);
        h.push(5);
        assert_eq!(h.len(), 3);
    }
    assert_eq!(v, [3, 7, 5, 0]);
    assert!(verify_heap(&v[..3]));
}

#[test]
fn test_overlay_pop_leaves_value_past_the_heap() {
    let mut v = [4, 2, 9];
    {
        let mut h = BoundedBinaryHeaper::from(&mut v);
        assert_eq!(h.pop(), Some(&2));
        assert_eq!(h.len(), 2);
    }
    assert_eq!(v, [4, 9, 2]);
    {
        let mut h = BoundedBinaryHeaper::from(&mut v);
        assert_eq!(h.pop(), Some(&2));
        assert_eq!(h.pop(), Some(&4));
        assert_eq!(h.pop(), Some(&9));
        assert_eq!(h.pop(), None);
    }
    assert_eq!(v, [9, 4, 2]);
}

#[test]
fn test_from_slice_leaves_the_slice_alone() {
    let v = [3, 1, 2];
    let mut h = BoundedBinaryHeap::from(&v);
    assert_eq!(h.pop(), Some(1));
    assert_eq!(v, [3, 1, 2]);
}

#[test]
fn test_len_stays_within_capacity() {
    let input = [5, 1, 9, 3, 7, 2, 8, 6, 4, 0, 5, 5];
    for capacity in 0..6 {
        let mut owned = BoundedBinaryHeap::new(capacity);
        let mut buffer = vec![0; capacity];
        let mut overlay = BoundedBinaryHeaper::from_empty_slice(&mut buffer);
        for (n, x) in input.iter().enumerate() {
            owned.push(*x);
            overlay.push(*x);
            assert!(owned.len() <= owned.capacity());
            assert!(overlay.len() <= overlay.capacity());
            assert_eq!(owned.len(), (n + 1).min(capacity));
            assert_eq!(overlay.len(), (n + 1).min(capacity));
            assert_eq!(owned.capacity(), capacity);
            assert_eq!(overlay.capacity(), capacity);
        }
    }
}

#[test]
fn test_heap_order_holds_after_pushes_and_pops() {
    let mut buffer = [0; 5];
    let input = [8, 3, 9, 1, 7, 7, 2, 6, 10, 4];
    for steps in 0..=input.len() {
        let len;
        {
            let mut h = BoundedBinaryHeaper::from_empty_slice(&mut buffer);
            for (n, x) in input[..steps].iter().enumerate() {
                h.push(*x);
                if n % 4 == 3 {
                    h.pop();
                }
            }
            len = h.len();
        }
        assert!(verify_heap(&buffer[..len]));
    }
}

#[test]
fn test_pops_ascend() {
    let input = [5, 1, 9, 3, 7, 2, 8, 6, 4, 0, 5, 5];
    let mut h = BoundedBinaryHeap::from(&input);
    let mut out = Vec::new();
    while let Some(x) = h.pop() {
        out.push(x);
    }
    assert_eq!(out, vec![0, 1, 2, 3, 4, 5, 5, 5, 6, 7, 8, 9]);
    assert!(h.is_empty());
}

#[test]
fn test_keeps_the_largest() {
    let mut h = BoundedBinaryHeap::new(3);
    let mut returned = Vec::new();
    for x in [10, 9, 8, 7, 6, 5] {
        returned.push(h.push(x));
    }
    assert_eq!(returned, vec![None, None, None, Some(7), Some(6), Some(5)]);
    assert_eq!(h.pop(), Some(8));
    assert_eq!(h.pop(), Some(9));
    assert_eq!(h.pop(), Some(10));
    assert_eq!(h.pop(), None);
}

#[test]
fn test_variants_agree() {
    let start = [7, 9, 8, 1];
    let pushes = [6, 5, 10, 0, 12, 3, 11];
    for capacity in 4..8 {
        let mut owned = BoundedBinaryHeap::from_slice_with_capacity(&start, capacity);
        let mut buffer = vec![0; capacity];
        let mut overlay = BoundedBinaryHeaper::from_empty_slice(&mut buffer);
        for x in start {
            overlay.push(x);
        }
        for x in pushes {
            assert_eq!(owned.push(x), overlay.push(x));
            assert_eq!(owned.len(), overlay.len());
            assert_eq!(owned.peek(), overlay.peek());
        }
        loop {
            let a = owned.pop();
            let b = overlay.pop().copied();
            assert_eq!(a, b);
            if a.is_none() {
                break;
            }
        }
    }
}

#[test]
fn test_variants_agree_from_the_same_slice() {
    let start = [4, 8, 2, 6, 1, 9];
    let mut owned = BoundedBinaryHeap::from(&start);
    let mut buffer = start;
    let mut overlay = BoundedBinaryHeaper::from(&mut buffer);
    assert_eq!(owned.capacity(), overlay.capacity());
    for x in [5, 0, 7, 3] {
        assert_eq!(owned.push(x), overlay.push(x));
    }
    loop {
        let a = owned.pop();
        let b = overlay.pop().copied();
        assert_eq!(a, b);
        if a.is_none() {
            break;
        }
    }
}

#[test]
fn test_values_that_do_not_compare_are_kept() {
    let mut v = [2.0, f64::NAN, 1.0, f64::NAN, 0.5];
    heapify(&mut v);
    assert_eq!(v.iter().filter(|x| x.is_nan()).count(), 2);
    let mut rest: Vec<f64> = v.iter().copied().filter(|x| !x.is_nan()).collect();
    rest.sort_by(|a, b| a.partial_cmp(b).unwrap());
    assert_eq!(rest, vec![0.5, 1.0, 2.0]);
    verify_heap(&v);

    let mut h = BoundedBinaryHeap::new(2);
    assert!(h.push(f64::NAN).is_none());
    assert!(h.push(1.0).is_none());
    assert!(h.push(f64::NAN).is_some());
    assert_eq!(h.len(), 2);
    assert!(h.pop().is_some());
    assert!(h.pop().is_some());
    assert!(h.pop().is_none());
}
