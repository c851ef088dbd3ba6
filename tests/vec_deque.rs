use std::cmp::Ordering;

use rune::value::{AnyRef, Answer, BinOp, Value};
use rune::vec_deque::VecDeque;
use rune::vm::ProtocolFn;

fn deque_of(items: &[i64]) -> VecDeque<i64> {
    let mut d = VecDeque::new();
    for x in items {
        d.try_push_back(*x).unwrap();
    }
    d
}

fn contents(d: &VecDeque<i64>) -> Vec<i64> {
    d.iter().into_iter().copied().collect()
}

#[test]
fn push_then_pop_same_end_restores() {
    let mut d = deque_of(&[1, 2, 3]);
    d.try_push_back(9).unwrap();
    assert_eq!(d.pop_back(), Some(9));
    d.try_push_front(8).unwrap();
    assert_eq!(d.pop_front(), Some(8));
    assert_eq!(contents(&d), vec![1, 2, 3]);
}

#[test]
fn back_to_front_is_fifo() {
    let mut d = VecDeque::new();
    for i in 0..10 {
        d.try_push_back(i).unwrap();
    }
    for i in 0..10 {
        assert_eq!(d.pop_front(), Some(i));
    }
    assert_eq!(d.pop_front(), None);
    for i in 0..5 {
        d.try_push_front(i).unwrap();
    }
    for i in 0..5 {
        assert_eq!(d.pop_back(), Some(i));
    }
    assert!(d.is_empty());
}

#[test]
fn rotate_left_three() {
    let mut d = deque_of(&[0, 1, 2, 3, 4, 5, 6, 7, 8, 9]);
    d.rotate_left(3);
    assert_eq!(contents(&d), vec![3, 4, 5, 6, 7, 8, 9, 0, 1, 2]);
    d.rotate_right(3);
    assert_eq!(contents(&d), vec![0, 1, 2, 3, 4, 5, 6, 7, 8, 9]);
    d.rotate_right(8);
    assert_eq!(contents(&d), vec![2, 3, 4, 5, 6, 7, 8, 9, 0, 1]);
    d.rotate_left(8);
    assert_eq!(contents(&d), vec![0, 1, 2, 3, 4, 5, 6, 7, 8, 9]);
}

#[test]
fn make_contiguous_joins_the_halves() {
    let mut d = VecDeque::try_with_capacity(4).unwrap();
    d.try_push_back(1).unwrap();
    d.try_push_back(2).unwrap();
    d.try_push_front(0).unwrap();
    d.try_push_front(-1).unwrap();
    let (a, b) = d.as_slices();
    assert!(!b.is_empty());
    let joined: Vec<i64> = a.iter().chain(b.iter()).map(|x| **x).collect();
    assert_eq!(joined, vec![-1, 0, 1, 2]);
    let ((s0, e0), (s1, e1)) = d.slice_ranges();
    assert_eq!(e0 - s0 + e1 - s1, 4);
    d.make_contiguous();
    let (a, b) = d.as_slices();
    assert!(b.is_empty());
    assert_eq!(a.into_iter().copied().collect::<Vec<_>>(), vec![-1, 0, 1, 2]);
    assert_eq!(d.capacity(), 4);
}

#[test]
fn binary_search_finds_or_places() {
    let d = deque_of(&[1, 3, 5, 7, 9]);
    assert_eq!(d.binary_search(&5), Ok(2));
    assert_eq!(d.binary_search(&4), Err(2));
    assert_eq!(d.binary_search(&0), Err(0));
    assert_eq!(d.binary_search(&10), Err(5));
    assert_eq!(d.partition_point(|x| *x < 6), 3);
}

#[test]
fn insert_remove_and_swap_remove() {
    let mut d = deque_of(&[1, 2, 4]);
    d.try_insert(2, 3).unwrap();
    assert_eq!(contents(&d), vec![1, 2, 3, 4]);
    assert_eq!(d.remove(0), Some(1));
    assert_eq!(d.remove(7), None);
    assert_eq!(contents(&d), vec![2, 3, 4]);
    assert_eq!(d.swap_remove_back(0), Some(2));
    assert_eq!(contents(&d), vec![4, 3]);
    assert_eq!(d.swap_remove_front(1), Some(3));
    assert_eq!(contents(&d), vec![4]);
    d.swap(0, 0);
    assert_eq!(d.front(), Some(&4));
    assert_eq!(d.back(), Some(&4));
    assert_eq!(d.get(1), None);
}

#[test]
fn retain_truncate_clear() {
    let mut d = deque_of(&[1, 2, 3, 4, 5, 6]);
    d.retain(|x| *x % 2 == 0);
    assert_eq!(contents(&d), vec![2, 4, 6]);
    d.truncate(2);
    assert_eq!(contents(&d), vec![2, 4]);
    assert!(d.contains(&4));
    assert!(!d.contains(&6));
    let cap = d.capacity();
    d.clear();
    assert!(d.is_empty());
    assert_eq!(d.capacity(), cap);
}

#[test]
fn append_and_split_off() {
    let mut a = deque_of(&[1, 2]);
    let mut b = deque_of(&[3, 4, 5]);
    a.try_append(&mut b).unwrap();
    assert_eq!(contents(&a), vec![1, 2, 3, 4, 5]);
    assert!(b.is_empty());
    let tail = a.try_split_off(3).unwrap();
    assert_eq!(contents(&a), vec![1, 2, 3]);
    assert_eq!(contents(&tail), vec![4, 5]);
    a.try_reserve(10).unwrap();
    assert!(a.capacity() >= 13);
    a.try_shrink_to_fit().unwrap();
    assert_eq!(a.capacity(), 3);
    assert_eq!(a.len(), 3);
}

#[test]
fn growth_keeps_order_across_wrap() {
    let mut d = VecDeque::new();
    for i in 0..3 {
        d.try_push_front(i).unwrap();
    }
    for i in 3..20 {
        d.try_push_back(i).unwrap();
    }
    assert_eq!(contents(&d), vec![2, 1, 0, 3, 4, 5, 6, 7, 8, 9, 10, 11, 12, 13, 14, 15, 16, 17, 18, 19]);
}

#[test]
fn wrap_index_wraps_once() {
    assert_eq!(rune::vec_deque::wrap_index(5, 8), 5);
    assert_eq!(rune::vec_deque::wrap_index(9, 8), 1);
    assert_eq!(rune::vec_deque::wrap_index(0, 0), 0);
}

#[test]
fn search_by_comparator_and_resize() {
    let d = deque_of(&[2, 4, 6, 8]);
    assert_eq!(d.binary_search_by(|x| x.cmp(&6)), Ok(2));
    assert_eq!(d.binary_search_by(|x| x.cmp(&5)), Err(2));
    let mut d = deque_of(&[1, 2, 3]);
    d.try_resize_with(5, || 7).unwrap();
    assert_eq!(contents(&d), vec![1, 2, 3, 7, 7]);
    d.try_resize_with(1, || 0).unwrap();
    assert_eq!(contents(&d), vec![1]);
}

fn values(items: &[i64]) -> VecDeque<rune::value::Value> {
    let mut d = VecDeque::new();
    for x in items {
        d.try_push_back(rune::value::Value::Integer(*x)).unwrap();
    }
    d
}

#[test]
fn value_deques_compare_element_wise() {
    let none: Vec<ProtocolFn> = Vec::new();
    let a = values(&[1, 2, 3]);
    let b = values(&[1, 2, 3]);
    let c = values(&[1, 2]);
    let d = values(&[1, 5]);
    assert!(matches!(a.partial_eq_with(&b, &none, 0), Ok(Answer::Done(true))));
    assert!(matches!(a.eq_with(&c, &none, 0), Ok(Answer::Done(false))));
    assert!(matches!(c.partial_eq_with(&a, &none, 0), Ok(Answer::Done(false))));
    assert!(matches!(a.partial_cmp_with(&c, &none, 0), Ok(Answer::Done(Some(Ordering::Greater)))));
    assert!(matches!(c.partial_cmp_with(&a, &none, 0), Ok(Answer::Done(Some(Ordering::Less)))));
    assert!(matches!(a.cmp_with(&d, &none, 0), Ok(Answer::Done(Ordering::Less))));
    assert!(matches!(a.cmp_with(&b, &none, 0), Ok(Answer::Done(Ordering::Equal))));
    let mut e = VecDeque::new();
    e.try_push_back(Value::Bool(true)).unwrap();
    assert!(a.partial_eq_with(&e, &none, 0).is_err());

    let obj = AnyRef { type_hash: 3, slot: 1 };
    let handlers = vec![ProtocolFn { type_hash: 3, op: BinOp::Eq, offset: 9 }];
    let mut f = values(&[1]);
    f.try_push_back(Value::Any(obj)).unwrap();
    f.try_push_back(Value::Integer(4)).unwrap();
    let mut g = values(&[1]);
    g.try_push_back(Value::Any(obj)).unwrap();
    g.try_push_back(Value::Integer(4)).unwrap();
    assert!(matches!(f.partial_eq_with(&g, &handlers, 0), Ok(Answer::Call { offset: 9, index: 1, .. })));
    assert!(matches!(f.partial_eq_with(&g, &handlers, 2), Ok(Answer::Done(true))));
}
