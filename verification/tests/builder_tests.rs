use ndarray_core::builder::{ArrayBuilder, ElementGenerator};
use ndarray_core::dimension::Dim;
use ndarray_core::layout::Order;

#[test]
fn test_order() {
    let (m, n) = (12usize, 13usize);
    let c = ArrayBuilder::new(Dim::from_vec(vec![m, n]))
        .memory_order(Order::RowMajor)
        .build();
    let f = ArrayBuilder::new(Dim::from_vec(vec![m, n]))
        .memory_order(Order::ColumnMajor)
        .build();

    assert_eq!(*c.shape(), vec![m, n]);
    assert_eq!(*f.shape(), vec![m, n]);
    assert_eq!(c.strides(), vec![n as isize, 1]);
    assert_eq!(f.strides(), vec![1, m as isize]);
}

#[test]
fn sequential_elements() {
    let a = ArrayBuilder::new(Dim::from_vec(vec![5]))
        .generator(ElementGenerator::Sequential)
        .build();
    assert_eq!(*a.elements(), vec![0, 1, 2, 3, 4]);
}

#[test]
fn checkerboard_elements() {
    let a = ArrayBuilder::new(Dim::from_vec(vec![5]))
        .generator(ElementGenerator::Checkerboard)
        .build();
    assert_eq!(*a.elements(), vec![1, 0, 1, 0, 1]);
}

#[test]
fn zero_elements() {
    let a = ArrayBuilder::new(Dim::from_vec(vec![3]))
        .generator(ElementGenerator::Zero)
        .build();
    assert_eq!(*a.elements(), vec![0, 0, 0]);
}

#[test]
fn checkerboard_two_dim() {
    let a = ArrayBuilder::new(Dim::from_vec(vec![2, 3]))
        .generator(ElementGenerator::Checkerboard)
        .build();
    assert_eq!(*a.elements(), vec![1, 0, 1, 0, 1, 0]);
}

#[test]
fn degenerate_shapes_build_empty() {
    let a = ArrayBuilder::new(Dim::from_vec(vec![0, 5]))
        .memory_order(Order::RowMajor)
        .build();
    assert_eq!(a.size(), 0);
    assert_eq!(*a.elements(), Vec::<i32>::new());
    assert_eq!(a.strides(), vec![5, 1]);

    let b = ArrayBuilder::new(Dim::from_vec(vec![5, 0]))
        .memory_order(Order::RowMajor)
        .build();
    assert_eq!(b.size(), 0);
    assert_eq!(b.strides(), vec![0, 1]);

    let c = ArrayBuilder::new(Dim::from_vec(vec![0, 5]))
        .memory_order(Order::ColumnMajor)
        .build();
    assert_eq!(c.strides(), vec![1, 0]);

    let d = ArrayBuilder::new(Dim::from_vec(vec![5, 0]))
        .memory_order(Order::ColumnMajor)
        .build();
    assert_eq!(d.strides(), vec![1, 5]);
}

#[test]
fn default_builder_is_rank_one_empty() {
    let b = ArrayBuilder::default();
    assert_eq!(*b.dim.as_vec(), vec![0]);
    assert_eq!(b.memory_order, Order::RowMajor);
    assert_eq!(b.generator, ElementGenerator::Sequential);
    let a = b.build();
    assert_eq!(a.size(), 0);
}

#[test]
fn rank_zero_shape_holds_one_element() {
    let a = ArrayBuilder::new(Dim::from_vec(Vec::new())).build();
    assert_eq!(a.size(), 1);
    assert_eq!(*a.elements(), vec![0]);
    assert_eq!(a.ndim(), 0);
}
