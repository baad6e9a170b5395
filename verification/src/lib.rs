//! A dense, strided, N-dimensional array core: dimensions, memory orders,
//! canonical strides, axis iteration, array construction and reshaping.

pub mod array;
pub mod axes;
pub mod builder;
pub mod dimension;
pub mod layout;
