use stack_based_vec::{ArrayVec, ArrayVecError};
use std::rc::Rc;

fn contents<T: Clone, const N: usize>(v: &ArrayVec<T, N>) -> Vec<T> {
    v.as_slice().iter().map(|o| o.clone().unwrap()).collect()
}

#[test]
fn new_is_empty() {
    let v: ArrayVec<i32, 4> = ArrayVec::new();
    assert_eq!(v.len(), 0);
    assert!(v.is_empty());
    assert_eq!(v.capacity(), 4);
    assert_eq!(v.remaining_capacity(), 4);
}

#[test]
fn default_is_empty() {
    let v: ArrayVec<i32, 3> = ArrayVec::default();
    assert!(v.is_empty());
}

#[test]
fn from_array_is_full() {
    let v = ArrayVec::from_array([1, 2]);
    assert_eq!(v.len(), 2);
    assert_eq!(v.capacity(), 2);
    assert_eq!(contents(&v), vec![1, 2]);
}

#[test]
fn from_partial_array_keeps_capacity() {
    let v: ArrayVec<i32, 10> = ArrayVec::from_partial_array([1, 2]);
    assert_eq!(v.len(), 2);
    assert_eq!(v.capacity(), 10);
    assert_eq!(contents(&v), vec![1, 2]);
}

#[test]
fn pushes_up_to_capacity_then_fail() {
    let mut v: ArrayVec<i32, 3> = ArrayVec::new();
    for (i, x) in [10, 20, 30].into_iter().enumerate() {
        assert_eq!(v.try_push(x), Ok(()));
        assert_eq!(v.len(), i + 1);
    }
    assert_eq!(v.try_push(40), Err(40));
    assert_eq!(v.len(), 3);
    assert_eq!(contents(&v), vec![10, 20, 30]);
}

#[test]
fn push_appends() {
    let mut v: ArrayVec<i32, 2> = ArrayVec::new();
    v.push(1);
    assert_eq!(contents(&v), vec![1]);
    v.push(2);
    assert_eq!(contents(&v), vec![1, 2]);
    assert!(v.try_push(3).is_err());
}

#[test]
fn pop_returns_last() {
    let mut v = ArrayVec::from_array([1, 2, 3]);
    assert_eq!(v.pop(), Some(3));
    assert_eq!(contents(&v), vec![1, 2]);
    let mut e: ArrayVec<i32, 2> = ArrayVec::new();
    assert_eq!(e.pop(), None);
}

#[test]
fn pop_then_push_round_trips() {
    let mut v = ArrayVec::from_array([4, 5, 6]);
    let before = contents(&v);
    let x = v.pop().unwrap();
    v.push(x);
    assert_eq!(contents(&v), before);
    assert_eq!(v.len(), 3);
}

#[test]
fn clear_empties() {
    let mut v = ArrayVec::from_array([1, 2]);
    v.clear();
    assert_eq!(v.len(), 0);
}

#[test]
fn truncate_shortens() {
    let mut v = ArrayVec::from_array([1, 2]);
    v.truncate(1);
    assert_eq!(v.len(), 1);
    assert_eq!(contents(&v), vec![1]);
}

#[test]
fn truncate_past_length_is_noop() {
    let mut v = ArrayVec::from_array([1, 2, 3]);
    v.truncate(3);
    assert_eq!(contents(&v), vec![1, 2, 3]);
    v.truncate(7);
    assert_eq!(contents(&v), vec![1, 2, 3]);
}

#[test]
fn truncate_drops_each_once() {
    let marker = Rc::new(());
    let mut v: ArrayVec<Rc<()>, 4> = ArrayVec::new();
    for _ in 0..4 {
        v.push(marker.clone());
    }
    assert_eq!(Rc::strong_count(&marker), 5);
    v.truncate(1);
    assert_eq!(Rc::strong_count(&marker), 2);
    assert_eq!(v.len(), 1);
}

#[test]
fn dedup_collapses_runs() {
    let mut v = ArrayVec::from_array([1, 2, 2, 3, 2]);
    v.dedup();
    assert_eq!(contents(&v), vec![1, 2, 3, 2]);
}

#[test]
fn dedup_by_closeness() {
    let mut v: ArrayVec<i32, 10> = ArrayVec::from_partial_array([10, 20, 21, 30, 20, 24]);
    v.dedup_by(|x, y| (*x - *y).abs() < 5);
    assert_eq!(contents(&v), vec![10, 20, 30, 20]);
}

#[test]
fn dedup_by_key_tens() {
    let mut v = ArrayVec::from_array([10, 20, 21, 30, 20]);
    v.dedup_by_key(|i| *i / 10);
    assert_eq!(contents(&v), vec![10, 20, 30, 20]);
}

#[test]
fn dedup_on_empty() {
    let mut v: ArrayVec<i32, 3> = ArrayVec::new();
    v.dedup();
    assert!(v.is_empty());
}

#[test]
fn retain_odd() {
    let mut v = ArrayVec::from_array([1, 2, 3, 4, 5]);
    v.retain(|e| *e % 2 == 1);
    assert_eq!(contents(&v), vec![1, 3, 5]);
}

#[test]
fn drain_tail_then_all() {
    let mut v = ArrayVec::from_array([1, 2, 3]);
    {
        let mut iter = v.drain(1..3).unwrap();
        assert_eq!(iter.next().unwrap(), 2);
        assert_eq!(iter.next().unwrap(), 3);
        assert_eq!(iter.next(), None);
        iter.release();
    }
    assert_eq!(contents(&v), vec![1]);
    let d = v.drain(0..1).unwrap();
    let mut d = d;
    assert_eq!(d.next(), Some(1));
    d.release();
    assert!(v.is_empty());
}

#[test]
fn drain_middle_keeps_tail_order() {
    let mut v = ArrayVec::from_array([1, 2, 3, 4, 5, 6]);
    let mut d = v.drain(1..4).unwrap();
    assert_eq!(d.len(), 3);
    assert_eq!(d.as_slice(), &[Some(2), Some(3), Some(4)]);
    assert_eq!(d.next_back(), Some(4));
    assert_eq!(d.next(), Some(2));
    assert_eq!(d.as_slice(), &[Some(3)]);
    d.release();
    assert_eq!(contents(&v), vec![1, 5, 6]);
}

#[test]
fn drain_released_untouched_removes_range() {
    let mut v = ArrayVec::from_array([1, 2, 3, 4]);
    let d = v.drain(1..3).unwrap();
    assert!(!d.is_empty());
    d.release();
    assert_eq!(contents(&v), vec![1, 4]);
}

#[test]
fn drain_out_of_range_is_none() {
    let mut v = ArrayVec::from_array([1, 2, 3]);
    assert!(v.drain(2..5).is_none());
    assert!(v.drain(3..2).is_none());
    assert_eq!(contents(&v), vec![1, 2, 3]);
}

#[test]
fn splice_replaces_front() {
    let mut v = ArrayVec::from_array([1, 2, 3]);
    {
        let mut iter = v.splice(0..2, vec![7, 8]).unwrap();
        assert_eq!(iter.next().unwrap(), 1);
        assert_eq!(iter.next().unwrap(), 2);
        iter.release();
    }
    assert_eq!(contents(&v), vec![7, 8, 3]);
}

#[test]
fn splice_grows_into_free_slots() {
    let mut v: ArrayVec<i32, 6> = ArrayVec::from_partial_array([1, 2, 3]);
    let s = v.splice(1..2, vec![7, 8, 9]).unwrap();
    assert_eq!(s.len(), 1);
    s.release();
    assert_eq!(contents(&v), vec![1, 7, 8, 9, 3]);
}

#[test]
fn splice_truncates_to_capacity() {
    let mut v: ArrayVec<i32, 4> = ArrayVec::from_partial_array([1, 2, 3]);
    let s = v.splice(1..2, vec![7, 8, 9, 10]).unwrap();
    s.release();
    assert_eq!(contents(&v), vec![1, 7, 8, 3]);
}

#[test]
fn splice_shrinks() {
    let mut v = ArrayVec::from_array([1, 2, 3, 4, 5]);
    let mut s = v.splice(1..4, vec![9]).unwrap();
    assert_eq!(s.next_back(), Some(4));
    assert!(!s.is_empty());
    s.release();
    assert_eq!(contents(&v), vec![1, 9, 5]);
}

#[test]
fn splice_at_end_appends() {
    let mut v: ArrayVec<i32, 4> = ArrayVec::from_partial_array([1, 2]);
    let s = v.splice(2..2, vec![3, 4, 5]).unwrap();
    s.release();
    assert_eq!(contents(&v), vec![1, 2, 3, 4]);
}

#[test]
fn splice_out_of_range_is_none() {
    let mut v = ArrayVec::from_array([1, 2]);
    assert!(v.splice(1..3, vec![0]).is_none());
    assert_eq!(contents(&v), vec![1, 2]);
}

#[test]
fn insert_scenario() {
    let mut v: ArrayVec<i32, 2> = ArrayVec::new();
    v.push(2);
    assert_eq!(v.insert(10, 4), Err(4));
    assert!(v.insert(0, 4).is_ok());
    assert_eq!(v.len(), 2);
    assert_eq!(contents(&v), vec![4, 2]);
    assert_eq!(v.insert(0, 6), Err(6));
}

#[test]
fn insert_in_middle() {
    let mut v: ArrayVec<i32, 5> = ArrayVec::from_partial_array([1, 2, 3]);
    assert_eq!(v.insert(1, 9), Ok(()));
    assert_eq!(contents(&v), vec![1, 9, 2, 3]);
    assert_eq!(v.insert(4, 8), Ok(()));
    assert_eq!(contents(&v), vec![1, 9, 2, 3, 8]);
}

#[test]
fn remove_shifts_down() {
    let mut v = ArrayVec::from_array([1, 2, 3]);
    assert_eq!(v.remove(10), None);
    assert_eq!(v.remove(0), Some(1));
    assert_eq!(contents(&v), vec![2, 3]);
}

#[test]
fn swap_remove_scenario() {
    let mut v = ArrayVec::from_array([1, 2]);
    assert!(v.swap_remove(10).is_none());
    assert_eq!(v.swap_remove(0), Some(1));
    assert_eq!(v.get(0), Some(&2));
    assert_eq!(v.len(), 1);
}

#[test]
fn swap_remove_last() {
    let mut v = ArrayVec::from_array([1, 2, 3]);
    assert_eq!(v.swap_remove(2), Some(3));
    assert_eq!(contents(&v), vec![1, 2]);
}

#[test]
fn split_off_moves_tail() {
    let mut v = ArrayVec::from_array([1, 2, 3]);
    let v2 = v.split_off(1).unwrap();
    assert_eq!(contents(&v), vec![1]);
    assert_eq!(contents(&v2), vec![2, 3]);
    assert!(v.split_off(5).is_none());
}

#[test]
fn extend_from_cloneable_slice_fits() {
    let mut v: ArrayVec<i32, 2> = ArrayVec::new();
    assert!(v.extend_from_cloneable_slice(&[1, 2]).is_ok());
    assert_eq!(contents(&v), vec![1, 2]);
}

#[test]
fn extend_from_cloneable_slice_overflows() {
    let mut v: ArrayVec<String, 2> = ArrayVec::new();
    let src = [String::from("a"), String::from("b"), String::from("c")];
    let rest = v.extend_from_cloneable_slice(&src).unwrap_err();
    assert_eq!(rest, &[String::from("c")]);
    assert_eq!(contents(&v), vec![String::from("a"), String::from("b")]);
}

#[test]
fn extend_from_copyable_slice_fits() {
    let mut v: ArrayVec<i32, 2> = ArrayVec::new();
    assert!(v.extend_from_copyable_slice(&[1, 2]).is_ok());
    assert_eq!(contents(&v), vec![1, 2]);
}

#[test]
fn extend_from_copyable_slice_overflows() {
    let mut v: ArrayVec<i32, 2> = ArrayVec::new();
    assert_eq!(v.extend_from_copyable_slice(&[1, 2, 3]).unwrap_err(), &[3]);
    assert_eq!(contents(&v), vec![1, 2]);
    assert_eq!(v.len(), v.capacity());
}

#[test]
fn extend_from_copyable_slice_partial() {
    let mut v: ArrayVec<i32, 4> = ArrayVec::from_partial_array([9]);
    assert_eq!(v.extend_from_copyable_slice(&[1, 2, 3, 4, 5]).unwrap_err(), &[4, 5]);
    assert_eq!(contents(&v), vec![9, 1, 2, 3]);
}

#[test]
fn make_filled_array_takes_prefix() {
    let mut v: ArrayVec<i32, 5> = ArrayVec::from_partial_array([1, 2, 3, 4]);
    let a: Option<[i32; 3]> = v.make_filled_array();
    assert_eq!(a, Some([1, 2, 3]));
    assert_eq!(contents(&v), vec![4]);
    let b: Option<[i32; 2]> = v.make_filled_array();
    assert_eq!(b, None);
    assert_eq!(contents(&v), vec![4]);
}

#[test]
fn get_past_end_is_none() {
    let v = ArrayVec::from_array([1, 2]);
    assert_eq!(v.get(1), Some(&2));
    assert_eq!(v.get(2), None);
}

#[test]
fn error_message() {
    let e = ArrayVecError::CapacityOverflow;
    assert_eq!(e.message(), "It is not possible to add more elements");
}

#[test]
fn from_array_and_len_clamps() {
    let v = ArrayVec::from_array_and_len([1, 2, 3, 4], 2);
    assert_eq!(contents(&v), vec![1, 2]);
    assert_eq!(v.capacity(), 4);
    let w = ArrayVec::from_array_and_len([1, 2, 3], 9);
    assert_eq!(contents(&w), vec![1, 2, 3]);
}

#[test]
fn from_array_and_len_drops_excluded() {
    let marker = Rc::new(());
    let v = ArrayVec::from_array_and_len([marker.clone(), marker.clone(), marker.clone()], 1);
    assert_eq!(v.len(), 1);
    assert_eq!(Rc::strong_count(&marker), 2);
    drop(v);
    assert_eq!(Rc::strong_count(&marker), 1);
}

#[test]
fn extend_stops_at_capacity() {
    let mut v: ArrayVec<i32, 4> = ArrayVec::from_partial_array([1]);
    v.extend(vec![2, 3]);
    assert_eq!(contents(&v), vec![1, 2, 3]);
    v.extend(vec![4, 5, 6]);
    assert_eq!(contents(&v), vec![1, 2, 3, 4]);
}

#[test]
fn drain_drops_unyielded_once() {
    let marker = Rc::new(());
    let mut v: ArrayVec<Rc<()>, 4> = ArrayVec::new();
    for _ in 0..4 {
        v.push(marker.clone());
    }
    let mut d = v.drain(1..3).unwrap();
    let first = d.next().unwrap();
    d.release();
    assert_eq!(Rc::strong_count(&marker), 4);
    drop(first);
    assert_eq!(Rc::strong_count(&marker), 3);
    assert_eq!(v.len(), 2);
}

#[test]
fn retain_drops_rejected() {
    let marker = Rc::new(());
    let mut v: ArrayVec<(i32, Rc<()>), 4> = ArrayVec::new();
    for i in 0..4 {
        v.push((i, marker.clone()));
    }
    v.retain(|e| e.0 >= 2);
    assert_eq!(Rc::strong_count(&marker), 3);
    assert_eq!(v.len(), 2);
    assert_eq!(v.get(0).unwrap().0, 2);
    assert_eq!(v.get(1).unwrap().0, 3);
}
