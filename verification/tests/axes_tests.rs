use ndarray_core::axes::{Axis, AxisDescription};
use ndarray_core::builder::ArrayBuilder;
use ndarray_core::dimension::Dim;

#[test]
fn axes_count_matches_ndim() {
    let a = ArrayBuilder::new(Dim::from_vec(vec![3, 5, 4])).build();
    assert_eq!(a.axes().count(), 3);
    assert_eq!(a.ndim(), 3);

    let b = ArrayBuilder::new(Dim::from_vec(Vec::new())).build();
    assert_eq!(b.axes().count(), 0);
}

#[test]
fn forward_reversed_equals_backward() {
    let a = ArrayBuilder::new(Dim::from_vec(vec![3, 5, 4])).build();

    let mut forward: Vec<AxisDescription> = Vec::new();
    let mut it = a.axes();
    while let Some(d) = it.next() {
        forward.push(d);
    }

    let mut backward: Vec<AxisDescription> = Vec::new();
    let mut it = a.axes();
    while let Some(d) = it.next_back() {
        backward.push(d);
    }

    forward.reverse();
    assert_eq!(forward, backward);
}

#[test]
fn forward_yields_each_axis_once() {
    let a = ArrayBuilder::new(Dim::from_vec(vec![3, 5, 4])).build();
    let mut it = a.axes();

    let d0 = it.next().unwrap();
    assert_eq!(d0.axis, Axis(0));
    assert_eq!(d0.len, 3);
    assert_eq!(d0.stride, 20);

    let d1 = it.next().unwrap();
    assert_eq!(d1.axis, Axis(1));
    assert_eq!(d1.len, 5);
    assert_eq!(d1.stride, 4);

    let d2 = it.next().unwrap();
    assert_eq!(d2.axis, Axis(2));
    assert_eq!(d2.len, 4);
    assert_eq!(d2.stride, 1);

    assert!(it.next().is_none());
    assert!(it.next_back().is_none());
}

#[test]
fn interleaved_cursors_meet_in_the_middle() {
    let a = ArrayBuilder::new(Dim::from_vec(vec![3, 5, 4])).build();
    let mut it = a.axes();

    assert_eq!(it.next().unwrap().axis, Axis(0));
    assert_eq!(it.next_back().unwrap().axis, Axis(2));
    assert_eq!(it.size_hint(), (1, Some(1)));
    assert_eq!(it.next().unwrap().axis, Axis(1));
    assert!(it.next().is_none());
    assert!(it.next_back().is_none());
}

#[test]
fn size_hint_is_exact() {
    let a = ArrayBuilder::new(Dim::from_vec(vec![3, 5, 4])).build();
    let mut it = a.axes();
    assert_eq!(it.size_hint(), (3, Some(3)));
    it.next();
    assert_eq!(it.size_hint(), (2, Some(2)));
    it.next();
    it.next();
    assert_eq!(it.size_hint(), (0, Some(0)));
}

#[test]
fn fold_matches_stepwise_next() {
    let a = ArrayBuilder::new(Dim::from_vec(vec![3, 5, 4])).build();
    let by_fold = a.axes().max_by_len();
    let by_next = a.axes().max_by_len_stepwise();
    assert_eq!(by_fold, by_next);
}

#[test]
fn max_len_axis_example() {
    let a = ArrayBuilder::new(Dim::from_vec(vec![3, 5, 4])).build();
    let largest = a.axes().max_by_len().unwrap();
    assert_eq!(largest.axis, Axis(1));
    assert_eq!(largest.len, 5);
}

#[test]
fn max_len_axis_prefers_later_tie() {
    let a = ArrayBuilder::new(Dim::from_vec(vec![5, 2, 5])).build();
    let largest = a.axes().max_by_len().unwrap();
    assert_eq!(largest.axis, Axis(2));
    assert_eq!(largest.len, 5);

    let empty = ArrayBuilder::new(Dim::from_vec(Vec::new())).build();
    assert!(empty.axes().max_by_len().is_none());
}

#[test]
fn restartable_per_call() {
    let a = ArrayBuilder::new(Dim::from_vec(vec![3, 5, 4])).build();
    let mut it = a.axes();
    it.next();
    it.next();
    let fresh = a.axes();
    assert_eq!(fresh.count(), 3);
    assert_eq!(it.size_hint(), (1, Some(1)));
}
