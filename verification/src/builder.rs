//! Convenience construction of sample arrays: a shape, a memory order and
//! an element generator, assembled into a dense array.

use vstd::prelude::*;
use vstd::pervasive::unreached;
use crate::array::Array;
use crate::dimension::{Dim, size_of};
use crate::layout::{Order, stride_of, strides_fit};

verus! {

/// How to generate elements
#[derive(Clone, Copy, Debug, PartialEq, Eq, Structural)]
pub enum ElementGenerator {
    Sequential,
    Checkerboard,
    Zero,
}

/// The elements a generator produces for a buffer of `k` elements:
/// counting up from zero, alternating one and zero, or all zero.
pub open spec fn generated_seq(g: ElementGenerator, k: nat) -> Seq<i32> {
    Seq::new(
        k,
        |i: int|
            match g {
                ElementGenerator::Sequential => i as i32,
                ElementGenerator::Checkerboard => if i % 2 == 0 {
                    1i32
                } else {
                    0i32
                },
                ElementGenerator::Zero => 0i32,
            },
    )
}

/// A builder for sample arrays: a target shape, the memory order the
/// strides will follow, and the generator that fills the buffer.
#[derive(Debug)]
pub struct ArrayBuilder {
    /// The target shape.
    pub dim: Dim,
    /// The memory order the built array's strides follow.
    pub memory_order: Order,
    /// How the elements are generated.
    pub generator: ElementGenerator,
}

impl ArrayBuilder {
    /// A builder for the given shape, row-major and counting up by
    /// default.
    pub fn new(dim: Dim) -> (r: ArrayBuilder)
        ensures
            r.dim@ == dim@,
            r.memory_order == Order::RowMajor,
            r.generator == ElementGenerator::Sequential,
    {
        ArrayBuilder { dim, memory_order: Order::RowMajor, generator: ElementGenerator::Sequential }
    }

    /// Choose the memory order of the array to be built.
    pub fn memory_order(self, order: Order) -> (r: ArrayBuilder)
        ensures
            r.dim@ == self.dim@,
            r.memory_order == order,
            r.generator == self.generator,
    {
        ArrayBuilder { memory_order: order, ..self }
    }

    /// Choose the element generator of the array to be built.
    pub fn generator(self, generator: ElementGenerator) -> (r: ArrayBuilder)
        ensures
            r.dim@ == self.dim@,
            r.memory_order == self.memory_order,
            r.generator == generator,
    {
        ArrayBuilder { generator, ..self }
    }

    /// Build the array: generate exactly `size()` elements, then
    /// reinterpret them under the target shape and order. The element
    /// count always matches the shape by construction, so the reshape
    /// cannot be refused. Shapes whose size or strides overflow the index
    /// types are excluded by contract.
    pub fn build(self) -> (r: Array<i32>)
        requires
            size_of(self.dim@) <= usize::MAX,
            self.generator == ElementGenerator::Sequential ==> size_of(self.dim@) <= i32::MAX,
            strides_fit(self.dim@, self.memory_order),
        ensures
            r.wf(),
            r.dim@ == self.dim@,
            r.strides@.len() == self.dim@.len(),
            forall|i: int| 0 <= i < self.dim@.len()
                ==> #[trigger] r.strides@[i] == stride_of(self.dim@, self.memory_order, i),
            r.data@ == generated_seq(self.generator, size_of(self.dim@)),
    {
        let sz = self.dim.size();
        let mut data: Vec<i32> = Vec::new();
        match self.generator {
            ElementGenerator::Sequential => {
                let mut v: i32 = 0;
                let mut i: usize = 0;
                while i < sz
                    invariant
                        i <= sz,
                        sz <= i32::MAX,
                        v == i as i32,
                        data@.len() == i,
                        forall|j: int| 0 <= j < i ==> #[trigger] data@[j] == j as i32,
                    decreases sz - i,
                {
                    data.push(v);
                    v = v + 1;
                    i = i + 1;
                }
            },
            ElementGenerator::Checkerboard => {
                let mut i: usize = 0;
                while i < sz
                    invariant
                        i <= sz,
                        data@.len() == i,
                        forall|j: int| 0 <= j < i ==> #[trigger] data@[j]
                            == (if j % 2 == 0 { 1i32 } else { 0i32 }),
                    decreases sz - i,
                {
                    if i % 2 == 0 {
                        data.push(1);
                    } else {
                        data.push(0);
                    }
                    i = i + 1;
                }
            },
            ElementGenerator::Zero => {
                let mut i: usize = 0;
                while i < sz
                    invariant
                        i <= sz,
                        data@.len() == i,
                        forall|j: int| 0 <= j < i ==> #[trigger] data@[j] == 0i32,
                    decreases sz - i,
                {
                    data.push(0);
                    i = i + 1;
                }
            },
        }
        proof {
            assert(data@ =~= generated_seq(self.generator, size_of(self.dim@)));
        }
        let flat = Array::from_vec(data);
        match flat.into_shape_with_order((self.dim, self.memory_order)) {
            Ok(a) => a,
            Err(_) => unreached(),
        }
    }
}

/// The default builder targets a one-axis, zero-length shape, row-major
/// and counting up, as `new` would give it.
impl Default for ArrayBuilder {
    fn default() -> (r: ArrayBuilder)
        ensures
            r.dim@.len() == 1,
            r.dim@[0] == 0,
            r.memory_order == Order::RowMajor,
            r.generator == ElementGenerator::Sequential,
    {
        ArrayBuilder::new(Dim::zeros(1))
    }
}

} // verus!
