//! A dense array: an owned element buffer together with a shape and a
//! matching set of strides, plus zero-copy reshaping.

use vstd::prelude::*;
use vstd::pervasive::VecAdditionalExecFns;
use crate::dimension::{Dim, size_of, lemma_size_of_singleton, lemma_mul_nonneg};
use crate::layout::{Order, stride_of, strides_fit, strides_for, offset_of,
    lemma_offset_take_step, lemma_offset_prefix_le, lemma_row_major_offset_bound,
    lemma_col_major_offset_bound};
use crate::axes::{Axes, axes_of};

verus! {

/// A recoverable failure of construction or reshaping.
#[derive(Clone, Copy, Debug, PartialEq, Eq, Structural)]
pub enum ShapeError {
    /// The requested shape's element count disagrees with the element
    /// count of the data it is applied to.
    ShapeMismatch,
}

/// Whether a buffer of `len` elements can carry a view of shape
/// `new_dim`: exactly when the counts agree.
pub open spec fn reshape_accepts(len: nat, new_dim: Seq<usize>) -> bool {
    size_of(new_dim) == len
}

/// A dense array: an owned buffer whose element count equals the size of
/// its shape, and one stride per axis.
#[derive(Debug)]
pub struct Array<T> {
    /// The elements, in flat buffer order.
    pub data: Vec<T>,
    /// The shape: one length per axis.
    pub dim: Dim,
    /// The strides, in element counts, one per axis.
    pub strides: Dim,
}

impl<T> Array<T> {
    /// The buffer holds exactly as many elements as the shape prescribes,
    /// and every stride exists and fits the signed index type.
    pub open spec fn wf(&self) -> bool {
        &&& self.data@.len() == size_of(self.dim@)
        &&& self.strides@.len() == self.dim@.len()
        &&& forall|i: int| 0 <= i < self.strides@.len()
            ==> #[trigger] self.strides@[i] <= isize::MAX
    }

    /// A one-axis array holding `data` in order, with unit stride.
    pub fn from_vec(data: Vec<T>) -> (r: Array<T>)
        ensures
            r.wf(),
            r.data@ == data@,
            r.dim@.len() == 1,
            r.dim@[0] == data@.len(),
            r.strides@.len() == 1,
            r.strides@[0] == 1,
    {
        let n = data.len();
        let dim = Dim::from_vec(vec![n]);
        let strides = Dim::from_vec(vec![1]);
        proof {
            lemma_size_of_singleton(n);
            assert(dim@ =~= seq![n]);
        }
        Array { data, dim, strides }
    }

    /// Rank of the array.
    pub fn ndim(&self) -> (r: usize)
        ensures
            r == self.dim@.len(),
    {
        self.dim.ndim()
    }

    /// The per-axis lengths, length `ndim()`.
    pub fn shape(&self) -> (r: &Vec<usize>)
        ensures
            r@ == self.dim@,
    {
        self.dim.as_vec()
    }

    /// Element count of the array.
    pub fn size(&self) -> (r: usize)
        requires
            self.wf(),
        ensures
            r == size_of(self.dim@),
            r == self.data@.len(),
    {
        self.data.len()
    }

    /// The elements in flat buffer order.
    pub fn elements(&self) -> (r: &Vec<T>)
        ensures
            r@ == self.data@,
    {
        &self.data
    }

    /// The per-axis strides as signed element counts, length `ndim()`.
    pub fn strides(&self) -> (r: Vec<isize>)
        requires
            self.wf(),
        ensures
            r@.len() == self.strides@.len(),
            forall|i: int| 0 <= i < r@.len() ==> #[trigger] r@[i] == self.strides@[i] as isize,
            forall|i: int| 0 <= i < r@.len() ==> #[trigger] r@[i] == self.strides@[i],
    {
        let n = self.strides.ndim();
        let mut out: Vec<isize> = Vec::new();
        let mut i: usize = 0;
        while i < n
            invariant
                i <= n,
                n == self.strides@.len(),
                self.wf(),
                out@.len() == i,
                forall|j: int| 0 <= j < i ==> #[trigger] out@[j] == self.strides@[j] as isize,
                forall|j: int| 0 <= j < i ==> #[trigger] out@[j] == self.strides@[j],
            decreases n - i,
        {
            let s = self.strides.axis(i);
            out.push(s as isize);
            i = i + 1;
        }
        out
    }

    /// A bidirectional iterator over the axis descriptions of this array,
    /// fresh on every call, borrowing the shape and strides.
    pub fn axes(&self) -> (r: Axes<'_>)
        requires
            self.wf(),
        ensures
            r.wf(),
            r.dim@ == self.dim@,
            r.strides@ == self.strides@,
            r.start == 0,
            r.end == self.dim@.len(),
            r.remaining().len() == self.dim@.len(),
    {
        axes_of(&self.dim, &self.strides)
    }

    /// The strides are the canonical ones of order `o` for this shape.
    pub open spec fn canonical(&self, o: Order) -> bool {
        forall|i: int| 0 <= i < self.dim@.len()
            ==> #[trigger] self.strides@[i] == stride_of(self.dim@, o, i)
    }

    /// Flat offset of the in-bounds multi-index `idx`: the sum of index
    /// times stride over all axes. Under canonical strides of either
    /// order, every in-bounds index lands strictly inside the buffer.
    pub fn offset(&self, idx: &Dim) -> (r: usize)
        requires
            self.wf(),
            self.canonical(Order::RowMajor) || self.canonical(Order::ColumnMajor),
            idx@.len() == self.dim@.len(),
            forall|i: int| 0 <= i < idx@.len() ==> #[trigger] idx@[i] < self.dim@[i],
        ensures
            r == offset_of(idx@, self.strides@),
            r < self.data@.len(),
    {
        proof {
            if self.canonical(Order::RowMajor) {
                lemma_row_major_offset_bound(self.dim@, idx@, self.strides@);
            } else {
                lemma_col_major_offset_bound(self.dim@, idx@, self.strides@);
            }
        }
        let n = idx.ndim();
        let buf_len = self.data.len();
        let mut off: usize = 0;
        let mut i: usize = 0;
        proof {
            assert(idx@.take(0) =~= Seq::<usize>::empty());
            assert(self.strides@.take(0) =~= Seq::<usize>::empty());
        }
        while i < n
            invariant
                i <= n,
                n == idx@.len(),
                n == self.strides@.len(),
                n == self.dim@.len(),
                buf_len == self.data@.len(),
                forall|j: int| 0 <= j < idx@.len() ==> #[trigger] idx@[j] < self.dim@[j],
                off == offset_of(idx@.take(i as int), self.strides@.take(i as int)),
                offset_of(idx@, self.strides@) < self.data@.len(),
            decreases n - i,
        {
            proof {
                lemma_offset_take_step(idx@, self.strides@, i as int);
                lemma_offset_prefix_le(idx@, self.strides@, i as int + 1);
                lemma_mul_nonneg(idx@[i as int] as int, self.strides@[i as int] as int);
            }
            let a = idx.axis(i);
            let st = self.strides.axis(i);
            off = off + a * st;
            i = i + 1;
        }
        proof {
            assert(idx@.take(n as int) =~= idx@);
            assert(self.strides@.take(n as int) =~= self.strides@);
        }
        off
    }

    /// The element at the in-bounds multi-index `idx`.
    pub fn get(&self, idx: &Dim) -> (r: &T)
        requires
            self.wf(),
            self.canonical(Order::RowMajor) || self.canonical(Order::ColumnMajor),
            idx@.len() == self.dim@.len(),
            forall|i: int| 0 <= i < idx@.len() ==> #[trigger] idx@[i] < self.dim@[i],
        ensures
            *r == self.data@[offset_of(idx@, self.strides@) as int],
    {
        let off = self.offset(idx);
        &self.data[off]
    }

    /// Overwrite the element at the in-bounds multi-index `idx`; shape
    /// and strides stay as they are.
    pub fn set_at(&mut self, idx: &Dim, value: T)
        requires
            old(self).wf(),
            old(self).canonical(Order::RowMajor) || old(self).canonical(Order::ColumnMajor),
            idx@.len() == old(self).dim@.len(),
            forall|i: int| 0 <= i < idx@.len() ==> #[trigger] idx@[i] < old(self).dim@[i],
        ensures
            final(self).wf(),
            final(self).dim@ == old(self).dim@,
            final(self).strides@ == old(self).strides@,
            final(self).data@ == old(self).data@.update(
                offset_of(idx@, old(self).strides@) as int, value),
    {
        let off = self.offset(idx);
        self.data.set(off, value);
    }

    /// Reinterpret this array's buffer under a new shape and order,
    /// without copying. Succeeds exactly when the new shape's element
    /// count equals this array's; any other count is refused with
    /// `ShapeMismatch`. On success the buffer is handed over unchanged and
    /// the strides are the canonical ones of `order` for `dim`.
    pub fn into_shape_with_order(self, shape: (Dim, Order))
        -> (r: Result<Array<T>, ShapeError>)
        requires
            self.wf(),
            reshape_accepts(self.data@.len() as nat, shape.0@) ==> strides_fit(shape.0@, shape.1),
        ensures
            r is Ok <==> reshape_accepts(self.data@.len() as nat, shape.0@),
            r matches Ok(b) ==> {
                &&& b.wf()
                &&& b.data@ == self.data@
                &&& b.dim@ == shape.0@
                &&& b.strides@.len() == shape.0@.len()
                &&& forall|i: int| 0 <= i < shape.0@.len()
                    ==> #[trigger] b.strides@[i] == stride_of(shape.0@, shape.1, i)
            },
            r matches Err(e) ==> e == ShapeError::ShapeMismatch,
    {
        let (dim, order) = shape;
        let n = self.data.len();
        match dim.size_checked() {
            Some(sz) => {
                if sz == n {
                    let strides = strides_for(&dim, order);
                    Ok(Array { data: self.data, dim, strides })
                } else {
                    Err(ShapeError::ShapeMismatch)
                }
            },
            None => {
                Err(ShapeError::ShapeMismatch)
            },
        }
    }
}

/// Reshape round trip. Whether a reshape is accepted depends only on the
/// element counts: an array of size `S` reshapes to any shape of size `S`,
/// and — since reshaping hands the buffer over unchanged — the result
/// reshapes on to any further shape of size `S`; a shape of any other size
/// is always refused with a mismatch.
pub proof fn lemma_reshape_round_trip(len: nat, a: Seq<usize>, b: Seq<usize>)
    requires
        size_of(a) == len,
        size_of(b) == len,
    ensures
        reshape_accepts(len, a),
        reshape_accepts(size_of(a), b),
        forall|c: Seq<usize>| size_of(c) != len ==> !reshape_accepts(len, c),
{
}

} // verus!
