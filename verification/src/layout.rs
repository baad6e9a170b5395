//! Memory-order policy: row-major and column-major, and the canonical
//! strides each one assigns to a shape.

use vstd::prelude::*;
use crate::dimension::{Dim, size_of, lemma_size_of_skip, lemma_size_of_take_step,
    lemma_size_of_singleton, lemma_size_of_push, lemma_mul_nonneg};

verus! {

/// Which axis varies fastest in memory. Row-major is the C convention
/// (last axis contiguous), column-major the Fortran convention (first
/// axis contiguous).
#[derive(Clone, Copy, Debug, PartialEq, Eq, Structural)]
pub enum Order {
    RowMajor,
    ColumnMajor,
}

/// Canonical stride of axis `i` for shape `s` under order `o`, in element
/// counts. Row-major: the product of all following axis lengths.
/// Column-major: the product of all preceding axis lengths.
pub open spec fn stride_of(s: Seq<usize>, o: Order, i: int) -> nat {
    match o {
        Order::RowMajor => size_of(s.skip(i + 1)),
        Order::ColumnMajor => size_of(s.take(i)),
    }
}

/// The canonical strides of shape `s` under order `o`, one per axis.
pub open spec fn strides_of(s: Seq<usize>, o: Order) -> Seq<nat> {
    Seq::new(s.len(), |i: int| stride_of(s, o, i))
}

/// Every canonical stride of `s` under `o` fits the signed index type.
/// Computing strides for a shape that breaks this bound is a hard
/// failure, excluded by contract.
pub open spec fn strides_fit(s: Seq<usize>, o: Order) -> bool {
    forall|i: int| 0 <= i < s.len() ==> #[trigger] stride_of(s, o, i) <= isize::MAX
}

/// Canonical strides of any two-axis shape `(m, n)`: row-major gives
/// `[n, 1]` and column-major gives `[1, m]`, for every pair of lengths,
/// zero lengths included; and the shape holds `m * n` elements.
pub proof fn lemma_strides_two_axes(m: usize, n: usize)
    ensures
        stride_of(seq![m, n], Order::RowMajor, 0) == n,
        stride_of(seq![m, n], Order::RowMajor, 1) == 1,
        stride_of(seq![m, n], Order::ColumnMajor, 0) == 1,
        stride_of(seq![m, n], Order::ColumnMajor, 1) == m,
        size_of(seq![m, n]) == m * n,
{
    let s = seq![m, n];
    assert(s.skip(1) =~= seq![n]);
    lemma_size_of_singleton(n);
    assert(s.skip(2) =~= Seq::<usize>::empty());
    assert(s.take(0) =~= Seq::<usize>::empty());
    assert(s.take(1) =~= seq![m]);
    lemma_size_of_singleton(m);
    lemma_mul_nonneg(m as int, n as int);
    assert(size_of(s) == (s[0] * size_of(s.skip(1))) as nat);
}

/// Flat offset of a multi-index under per-axis strides: the sum over all
/// axes of index times stride, in element counts.
pub open spec fn offset_of(idx: Seq<usize>, strides: Seq<usize>) -> nat
    decreases idx.len(),
{
    if idx.len() == 0 {
        0
    } else {
        (idx[0] * strides[0] + offset_of(idx.skip(1), strides.skip(1))) as nat
    }
}

/// Appending one axis to index and strides adds that axis's contribution.
pub proof fn lemma_offset_push(idx: Seq<usize>, strides: Seq<usize>, x: usize, y: usize)
    requires
        idx.len() == strides.len(),
    ensures
        offset_of(idx.push(x), strides.push(y)) == offset_of(idx, strides) + x * y,
    decreases idx.len(),
{
    lemma_mul_nonneg(x as int, y as int);
    if idx.len() == 0 {
        assert(idx.push(x).skip(1) =~= Seq::<usize>::empty());
        assert(strides.push(y).skip(1) =~= Seq::<usize>::empty());
        assert(idx.push(x)[0] == x);
        assert(strides.push(y)[0] == y);
        assert(offset_of(idx.push(x), strides.push(y))
            == (x * y + offset_of(Seq::<usize>::empty(), Seq::<usize>::empty())) as nat);
    } else {
        assert(idx.push(x).skip(1) =~= idx.skip(1).push(x));
        assert(strides.push(y).skip(1) =~= strides.skip(1).push(y));
        lemma_offset_push(idx.skip(1), strides.skip(1), x, y);
        assert(idx.push(x)[0] == idx[0]);
        assert(strides.push(y)[0] == strides[0]);
        lemma_mul_nonneg(idx[0] as int, strides[0] as int);
        assert(offset_of(idx.push(x), strides.push(y))
            == (idx[0] * strides[0]
                + offset_of(idx.skip(1).push(x), strides.skip(1).push(y))) as nat);
        assert(offset_of(idx, strides)
            == (idx[0] * strides[0] + offset_of(idx.skip(1), strides.skip(1))) as nat);
    }
}

/// Extending a prefix of the axes adds exactly that axis's contribution
/// to the offset.
pub proof fn lemma_offset_take_step(idx: Seq<usize>, strides: Seq<usize>, i: int)
    requires
        idx.len() == strides.len(),
        0 <= i < idx.len(),
    ensures
        offset_of(idx.take(i + 1), strides.take(i + 1))
            == offset_of(idx.take(i), strides.take(i)) + idx[i] * strides[i],
{
    assert(idx.take(i + 1) =~= idx.take(i).push(idx[i]));
    assert(strides.take(i + 1) =~= strides.take(i).push(strides[i]));
    lemma_offset_push(idx.take(i), strides.take(i), idx[i], strides[i]);
}

/// An offset only grows as more axes are taken into account.
pub proof fn lemma_offset_prefix_le(idx: Seq<usize>, strides: Seq<usize>, i: int)
    requires
        idx.len() == strides.len(),
        0 <= i <= idx.len(),
    ensures
        offset_of(idx.take(i), strides.take(i)) <= offset_of(idx, strides),
    decreases idx.len() - i,
{
    if i == idx.len() {
        assert(idx.take(i) =~= idx);
        assert(strides.take(i) =~= strides);
    } else {
        lemma_offset_take_step(idx, strides, i);
        lemma_offset_prefix_le(idx, strides, i + 1);
        lemma_mul_nonneg(idx[i] as int, strides[i] as int);
    }
}

/// The layout safety theorem for row-major strides: under the canonical
/// strides of a shape, every multi-index that is in bounds on every axis
/// maps to a flat offset strictly below the shape's element count.
pub proof fn lemma_row_major_offset_bound(s: Seq<usize>, idx: Seq<usize>, strides: Seq<usize>)
    requires
        idx.len() == s.len(),
        strides.len() == s.len(),
        forall|i: int| 0 <= i < s.len() ==> #[trigger] idx[i] < s[i],
        forall|i: int| 0 <= i < s.len()
            ==> #[trigger] strides[i] == stride_of(s, Order::RowMajor, i),
    ensures
        offset_of(idx, strides) < size_of(s),
    decreases s.len(),
{
    if s.len() == 0 {
    } else {
        assert forall|i: int| 0 <= i < s.skip(1).len()
            implies #[trigger] strides.skip(1)[i] == stride_of(s.skip(1), Order::RowMajor, i) by {
            assert(strides[i + 1] == stride_of(s, Order::RowMajor, i + 1));
            assert(s.skip(1).skip(i + 1) =~= s.skip(i + 2));
        }
        lemma_row_major_offset_bound(s.skip(1), idx.skip(1), strides.skip(1));
        lemma_size_of_skip(s, 0);
        assert(strides[0] == size_of(s.skip(1)));
        let z = size_of(s.skip(1)) as int;
        let rest = offset_of(idx.skip(1), strides.skip(1)) as int;
        assert(idx[0] * strides[0] + rest < s[0] * z) by (nonlinear_arith)
            requires
                strides[0] == z,
                idx[0] < s[0],
                0 <= idx[0],
                rest < z,
                0 <= rest,
        ;
        lemma_mul_nonneg(idx[0] as int, strides[0] as int);
        assert(size_of(s) == (s[0] * size_of(s.skip(1))) as nat);
    }
}

/// The layout safety theorem for column-major strides: under the
/// canonical strides of a shape, every multi-index that is in bounds on
/// every axis maps to a flat offset strictly below the shape's element
/// count.
pub proof fn lemma_col_major_offset_bound(s: Seq<usize>, idx: Seq<usize>, strides: Seq<usize>)
    requires
        idx.len() == s.len(),
        strides.len() == s.len(),
        forall|i: int| 0 <= i < s.len() ==> #[trigger] idx[i] < s[i],
        forall|i: int| 0 <= i < s.len()
            ==> #[trigger] strides[i] == stride_of(s, Order::ColumnMajor, i),
    ensures
        offset_of(idx, strides) < size_of(s),
    decreases s.len(),
{
    if s.len() == 0 {
    } else {
        let n = s.len() as int;
        let sd = s.take(n - 1);
        let idxd = idx.take(n - 1);
        let strd = strides.take(n - 1);
        assert forall|i: int| 0 <= i < sd.len()
            implies #[trigger] strd[i] == stride_of(sd, Order::ColumnMajor, i) by {
            assert(strides[i] == stride_of(s, Order::ColumnMajor, i));
            assert(sd.take(i) =~= s.take(i));
        }
        lemma_col_major_offset_bound(sd, idxd, strd);
        assert(idx =~= idxd.push(idx[n - 1]));
        assert(strides =~= strd.push(strides[n - 1]));
        lemma_offset_push(idxd, strd, idx[n - 1], strides[n - 1]);
        assert(s =~= sd.push(s[n - 1]));
        lemma_size_of_push(sd, s[n - 1]);
        assert(strides[n - 1] == size_of(s.take(n - 1)));
        let z = size_of(sd) as int;
        let rest = offset_of(idxd, strd) as int;
        assert(rest + idx[n - 1] * strides[n - 1] < z * s[n - 1]) by (nonlinear_arith)
            requires
                strides[n - 1] == z,
                idx[n - 1] < s[n - 1],
                0 <= idx[n - 1],
                rest < z,
                0 <= rest,
        ;
    }
}

/// Compute the canonical strides of `dim` under `o`. The result has the
/// same rank as `dim`, and each entry is the cumulative product the order
/// prescribes.
pub fn strides_for(dim: &Dim, o: Order) -> (r: Dim)
    requires
        strides_fit(dim@, o),
    ensures
        r@.len() == dim@.len(),
        forall|i: int| 0 <= i < dim@.len() ==> #[trigger] r@[i] == stride_of(dim@, o, i),
{
    let n = dim.ndim();
    let mut out = Dim::zeros(n);
    match o {
        Order::RowMajor => {
            let mut acc: usize = 1;
            let mut i: usize = n;
            proof {
                assert(dim@.skip(n as int) =~= Seq::<usize>::empty());
            }
            while i > 0
                invariant
                    i <= n,
                    n == dim@.len(),
                    out@.len() == n,
                    strides_fit(dim@, Order::RowMajor),
                    i > 0 ==> acc == size_of(dim@.skip(i as int)),
                    forall|j: int| i <= j < n ==> #[trigger] out@[j]
                        == stride_of(dim@, Order::RowMajor, j),
                decreases i,
            {
                i = i - 1;
                proof {
                    assert(stride_of(dim@, Order::RowMajor, i as int) <= isize::MAX);
                    assert(acc == stride_of(dim@, Order::RowMajor, i as int));
                }
                out.set_axis(i, acc);
                if i > 0 {
                    let a = dim.axis(i);
                    proof {
                        lemma_size_of_skip(dim@, i as int);
                        assert(stride_of(dim@, Order::RowMajor, i - 1)
                            == size_of(dim@.skip(i as int)));
                        assert(stride_of(dim@, Order::RowMajor, i - 1) <= isize::MAX);
                    }
                    acc = a * acc;
                }
            }
        },
        Order::ColumnMajor => {
            let mut acc: usize = 1;
            let mut i: usize = 0;
            proof {
                assert(dim@.take(0) =~= Seq::<usize>::empty());
            }
            while i < n
                invariant
                    i <= n,
                    n == dim@.len(),
                    out@.len() == n,
                    strides_fit(dim@, Order::ColumnMajor),
                    i < n ==> acc == size_of(dim@.take(i as int)),
                    forall|j: int| 0 <= j < i ==> #[trigger] out@[j]
                        == stride_of(dim@, Order::ColumnMajor, j),
                decreases n - i,
            {
                proof {
                    assert(stride_of(dim@, Order::ColumnMajor, i as int) <= isize::MAX);
                }
                out.set_axis(i, acc);
                if i < n - 1 {
                    let a = dim.axis(i);
                    proof {
                        lemma_size_of_take_step(dim@, i as int);
                        assert(stride_of(dim@, Order::ColumnMajor, i as int + 1)
                            == size_of(dim@.take(i as int)) * dim@[i as int]);
                        assert(stride_of(dim@, Order::ColumnMajor, i as int + 1) <= isize::MAX);
                    }
                    acc = acc * a;
                }
                i = i + 1;
            }
        },
    }
    out
}

} // verus!
