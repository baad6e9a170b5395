use ndarray_core::array::{Array, ShapeError};
use ndarray_core::builder::ArrayBuilder;
use ndarray_core::dimension::Dim;
use ndarray_core::layout::Order;

#[test]
fn reshape_round_trip_succeeds() {
    let a = ArrayBuilder::new(Dim::from_vec(vec![12])).build();
    let b = a
        .into_shape_with_order((Dim::from_vec(vec![3, 4]), Order::RowMajor))
        .unwrap();
    assert_eq!(*b.shape(), vec![3, 4]);
    assert_eq!(b.strides(), vec![4, 1]);
    let c = b
        .into_shape_with_order((Dim::from_vec(vec![2, 6]), Order::RowMajor))
        .unwrap();
    assert_eq!(*c.shape(), vec![2, 6]);
    assert_eq!(c.strides(), vec![6, 1]);
    let expected: Vec<i32> = (0..12).collect();
    assert_eq!(*c.elements(), expected);
}

#[test]
fn reshape_mismatch_fails_and_preserves_data() {
    let a = ArrayBuilder::new(Dim::from_vec(vec![12])).build();
    let r = a.into_shape_with_order((Dim::from_vec(vec![5, 5]), Order::RowMajor));
    assert_eq!(r.unwrap_err(), ShapeError::ShapeMismatch);

    let again = ArrayBuilder::new(Dim::from_vec(vec![12])).build();
    let expected: Vec<i32> = (0..12).collect();
    assert_eq!(*again.elements(), expected);
}

#[test]
fn reshape_column_major_strides() {
    let a = ArrayBuilder::new(Dim::from_vec(vec![156])).build();
    let f = a
        .into_shape_with_order((Dim::from_vec(vec![12, 13]), Order::ColumnMajor))
        .unwrap();
    assert_eq!(*f.shape(), vec![12, 13]);
    assert_eq!(f.strides(), vec![1, 12]);
}

#[test]
fn reshape_oversized_target_is_mismatch() {
    let a = ArrayBuilder::new(Dim::from_vec(vec![4])).build();
    let r = a.into_shape_with_order((Dim::from_vec(vec![usize::MAX, 2]), Order::RowMajor));
    assert_eq!(r.unwrap_err(), ShapeError::ShapeMismatch);
}

#[test]
fn from_vec_is_one_axis() {
    let a = Array::from_vec(vec![7i32, 8, 9]);
    assert_eq!(*a.shape(), vec![3]);
    assert_eq!(a.strides(), vec![1]);
    assert_eq!(a.size(), 3);
    assert_eq!(*a.elements(), vec![7, 8, 9]);
}

#[test]
fn size_checked_reports_overflow() {
    assert_eq!(Dim::from_vec(vec![usize::MAX, 2]).size_checked(), None);
    assert_eq!(Dim::from_vec(vec![usize::MAX, 2, 0]).size_checked(), Some(0));
    assert_eq!(Dim::from_vec(vec![3, 5, 4]).size_checked(), Some(60));
    assert_eq!(Dim::from_vec(Vec::new()).size_checked(), Some(1));
}

#[test]
fn dim_equality_is_structural() {
    assert!(Dim::from_vec(vec![1, 2]) == Dim::from_vec(vec![1, 2]));
    assert!(Dim::from_vec(vec![1, 2]) != Dim::from_vec(vec![2, 1]));
    assert!(Dim::from_vec(vec![1, 2]) != Dim::from_vec(vec![1, 2, 3]));
}

#[test]
fn dim_ordering_is_structural() {
    assert!(Dim::from_vec(vec![1, 2]) < Dim::from_vec(vec![1, 3]));
    assert!(Dim::from_vec(vec![2, 0]) > Dim::from_vec(vec![1, 9]));
    assert!(Dim::from_vec(vec![1]) < Dim::from_vec(vec![1, 0]));
}

#[test]
fn indexed_access_row_major() {
    let a = ArrayBuilder::new(Dim::from_vec(vec![3, 4])).build();
    assert_eq!(a.offset(&Dim::from_vec(vec![1, 2])), 6);
    assert_eq!(*a.get(&Dim::from_vec(vec![0, 0])), 0);
    assert_eq!(*a.get(&Dim::from_vec(vec![1, 2])), 6);
    assert_eq!(*a.get(&Dim::from_vec(vec![2, 3])), 11);
}

#[test]
fn indexed_access_column_major() {
    let a = ArrayBuilder::new(Dim::from_vec(vec![3, 4]))
        .memory_order(Order::ColumnMajor)
        .build();
    assert_eq!(a.strides(), vec![1, 3]);
    assert_eq!(a.offset(&Dim::from_vec(vec![1, 2])), 7);
    assert_eq!(*a.get(&Dim::from_vec(vec![1, 2])), 7);
}

#[test]
fn set_at_overwrites_one_element() {
    let mut a = ArrayBuilder::new(Dim::from_vec(vec![2, 2])).build();
    a.set_at(&Dim::from_vec(vec![1, 0]), 42);
    assert_eq!(*a.get(&Dim::from_vec(vec![1, 0])), 42);
    assert_eq!(*a.elements(), vec![0, 1, 42, 3]);
    assert_eq!(*a.shape(), vec![2, 2]);
}

#[test]
fn dim_axis_access_and_update() {
    let mut d = Dim::zeros(3);
    assert_eq!(d.ndim(), 3);
    assert_eq!(d.axis(1), 0);
    d.set_axis(1, 9);
    assert_eq!(d.axis(1), 9);
    assert_eq!(*d.as_vec(), vec![0, 9, 0]);
    assert_eq!(d.size(), 0);
}
