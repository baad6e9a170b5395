//! Shape of an array: an ordered sequence of non-negative axis lengths.

use vstd::prelude::*;
use vstd::pervasive::VecAdditionalExecFns;

verus! {

/// Product of all axis lengths of a shape; the element count of an array
/// with that shape. The empty shape has size 1 (a zero-rank array holds
/// exactly one element).
pub open spec fn size_of(s: Seq<usize>) -> nat
    decreases s.len(),
{
    if s.len() == 0 {
        1
    } else {
        (s[0] * size_of(s.skip(1))) as nat
    }
}

/// The product of two non-negative integers is non-negative.
pub proof fn lemma_mul_nonneg(a: int, b: int)
    requires
        0 <= a,
        0 <= b,
    ensures
        0 <= a * b,
{
    assert(0 <= a * b) by (nonlinear_arith)
        requires
            0 <= a,
            0 <= b,
    ;
}

/// Peeling one axis off the front of a suffix multiplies the remaining sizes.
pub proof fn lemma_size_of_skip(s: Seq<usize>, i: int)
    requires
        0 <= i < s.len(),
    ensures
        size_of(s.skip(i)) == s[i] * size_of(s.skip(i + 1)),
{
    assert(s.skip(i).len() > 0);
    assert(s.skip(i)[0] == s[i]);
    assert(s.skip(i).skip(1) =~= s.skip(i + 1));
    lemma_mul_nonneg(s[i] as int, size_of(s.skip(i + 1)) as int);
    assert(size_of(s.skip(i)) == (s[i] * size_of(s.skip(i + 1))) as nat);
}

/// Appending an axis length multiplies the size.
pub proof fn lemma_size_of_push(s: Seq<usize>, x: usize)
    ensures
        size_of(s.push(x)) == size_of(s) * x,
    decreases s.len(),
{
    let p = s.push(x);
    if s.len() == 0 {
        assert(p[0] == x);
        assert(p.skip(1) =~= Seq::<usize>::empty());
        assert(size_of(p) == (x * size_of(p.skip(1))) as nat);
        assert(size_of(p) == size_of(s) * x) by (nonlinear_arith)
            requires
                size_of(p) == (x * size_of(p.skip(1))) as nat,
                size_of(p.skip(1)) == 1,
                size_of(s) == 1,
        ;
    } else {
        assert(p.skip(1) =~= s.skip(1).push(x));
        lemma_size_of_push(s.skip(1), x);
        assert(p[0] == s[0]);
        assert(size_of(p) == (s[0] * size_of(p.skip(1))) as nat);
        assert(size_of(s) == (s[0] * size_of(s.skip(1))) as nat);
        assert(size_of(p) == size_of(s) * x) by (nonlinear_arith)
            requires
                size_of(p) == (s[0] * size_of(p.skip(1))) as nat,
                size_of(p.skip(1)) == size_of(s.skip(1)) * x,
                size_of(s) == (s[0] * size_of(s.skip(1))) as nat,
        ;
    }
}

/// A one-axis shape has the size of its only axis.
pub proof fn lemma_size_of_singleton(x: usize)
    ensures
        size_of(seq![x]) == x,
{
    let s = seq![x];
    assert(s.skip(1) =~= Seq::<usize>::empty());
    assert(size_of(s.skip(1)) == 1);
    assert(size_of(s) == (x * size_of(s.skip(1))) as nat);
    assert(x * size_of(s.skip(1)) == x) by (nonlinear_arith)
        requires
            size_of(s.skip(1)) == 1,
    ;
}

/// Extending a prefix by one axis multiplies its size by that axis length.
pub proof fn lemma_size_of_take_step(s: Seq<usize>, i: int)
    requires
        0 <= i < s.len(),
    ensures
        size_of(s.take(i + 1)) == size_of(s.take(i)) * s[i],
{
    assert(s.take(i + 1) =~= s.take(i).push(s[i]));
    lemma_size_of_push(s.take(i), s[i]);
}

/// A shape with a zero-length axis has size 0.
pub proof fn lemma_size_of_zero_axis(s: Seq<usize>, i: int)
    requires
        0 <= i < s.len(),
        s[i] == 0,
    ensures
        size_of(s) == 0,
    decreases i,
{
    if i == 0 {
        assert(size_of(s) == (s[0] * size_of(s.skip(1))) as nat);
        assert(s[0] * size_of(s.skip(1)) == 0) by (nonlinear_arith)
            requires
                s[0] == 0,
        ;
    } else {
        assert(s.skip(1)[i - 1] == s[i]);
        lemma_size_of_zero_axis(s.skip(1), i - 1);
        assert(size_of(s) == (s[0] * size_of(s.skip(1))) as nat);
        assert(s[0] * size_of(s.skip(1)) == 0) by (nonlinear_arith)
            requires
                size_of(s.skip(1)) == 0,
        ;
    }
}

/// When every axis length is positive, the full size dominates the size of
/// every prefix of the shape.
pub proof fn lemma_size_of_pos_prefix(s: Seq<usize>, i: int)
    requires
        0 <= i <= s.len(),
        forall|j: int| 0 <= j < s.len() ==> s[j] >= 1,
    ensures
        size_of(s) >= size_of(s.take(i)),
    decreases s.len() - i,
{
    if i == s.len() {
        assert(s.take(i) =~= s);
    } else {
        lemma_size_of_take_step(s, i);
        lemma_size_of_pos_prefix(s, i + 1);
        assert(size_of(s.take(i)) * s[i] >= size_of(s.take(i))) by (nonlinear_arith)
            requires
                s[i] >= 1,
                size_of(s.take(i)) >= 0,
        ;
    }
}

/// An array shape: one non-negative length per axis. The rank (`ndim`) is
/// the number of axes and never changes after creation. Equality and
/// ordering are structural: axis by axis, lexicographically.
#[derive(Debug, PartialOrd, Ord, Hash)]
pub struct Dim {
    axes: Vec<usize>,
}

impl View for Dim {
    type V = Seq<usize>;

    closed spec fn view(&self) -> Seq<usize> {
        self.axes@
    }
}

impl Dim {
    /// Normalize a plain list of axis lengths into a shape.
    pub fn from_vec(axes: Vec<usize>) -> (r: Dim)
        ensures
            r@ == axes@,
    {
        Dim { axes }
    }

    /// A shape of rank `n` with every axis length zero.
    pub fn zeros(n: usize) -> (r: Dim)
        ensures
            r@.len() == n,
            forall|i: int| 0 <= i < n ==> r@[i] == 0,
    {
        let mut axes: Vec<usize> = Vec::new();
        let mut i: usize = 0;
        while i < n
            invariant
                i <= n,
                axes@.len() == i,
                forall|j: int| 0 <= j < i ==> axes@[j] == 0,
            decreases n - i,
        {
            axes.push(0);
            i = i + 1;
        }
        Dim { axes }
    }

    /// Rank: the number of axes.
    pub fn ndim(&self) -> (r: usize)
        ensures
            r == self@.len(),
    {
        self.axes.len()
    }

    /// Length of axis `i`; asking for an axis at or beyond the rank is a
    /// caller error and is excluded by contract.
    pub fn axis(&self, i: usize) -> (r: usize)
        requires
            i < self@.len(),
        ensures
            r == self@[i as int],
    {
        self.axes[i]
    }

    /// Set the length of axis `i`; the rank stays the same.
    pub fn set_axis(&mut self, i: usize, len: usize)
        requires
            i < old(self)@.len(),
        ensures
            final(self)@ == old(self)@.update(i as int, len),
    {
        self.axes.set(i, len);
    }

    /// The axis lengths as a plain vector.
    pub fn as_vec(&self) -> (r: &Vec<usize>)
        ensures
            r@ == self@,
    {
        &self.axes
    }

    /// Element count of the shape, or `None` when the product of the axis
    /// lengths does not fit in `usize`.
    pub fn size_checked(&self) -> (r: Option<usize>)
        ensures
            r is Some <==> size_of(self@) <= usize::MAX,
            r is Some ==> r.unwrap() == size_of(self@),
    {
        let n = self.axes.len();
        let mut i: usize = 0;
        while i < n
            invariant
                i <= n,
                n == self@.len(),
                forall|j: int| 0 <= j < i ==> self@[j] >= 1,
            decreases n - i,
        {
            if self.axes[i] == 0 {
                proof {
                    lemma_size_of_zero_axis(self@, i as int);
                }
                return Some(0);
            }
            i = i + 1;
        }
        let mut acc: usize = 1;
        let mut k: usize = 0;
        while k < n
            invariant
                k <= n,
                n == self@.len(),
                forall|j: int| 0 <= j < n ==> self@[j] >= 1,
                acc == size_of(self@.take(k as int)),
            decreases n - k,
        {
            let a = self.axes[k];
            proof {
                lemma_size_of_take_step(self@, k as int);
            }
            match acc.checked_mul(a) {
                Some(x) => {
                    acc = x;
                },
                None => {
                    proof {
                        lemma_size_of_pos_prefix(self@, k as int + 1);
                    }
                    return None;
                },
            }
            k = k + 1;
        }
        proof {
            assert(self@.take(n as int) =~= self@);
        }
        Some(acc)
    }

    /// Element count of the shape. Overflow of the product is a hard
    /// failure and is excluded by contract; use `size_checked` where the
    /// shape is not known to be small enough.
    pub fn size(&self) -> (r: usize)
        requires
            size_of(self@) <= usize::MAX,
        ensures
            r == size_of(self@),
    {
        match self.size_checked() {
            Some(s) => s,
            None => {
                proof {
                    assert(false);
                }
                0
            },
        }
    }
}

/// Shapes compare structurally: equal exactly when every axis length agrees.
impl PartialEq for Dim {
    fn eq(&self, other: &Dim) -> (r: bool)
    {
        let n = self.axes.len();
        if n != other.axes.len() {
            return false;
        }
        let mut i: usize = 0;
        while i < n
            invariant
                i <= n,
                n == self@.len(),
                n == other@.len(),
                forall|j: int| 0 <= j < i ==> self@[j] == other@[j],
            decreases n - i,
        {
            if self.axes[i] != other.axes[i] {
                return false;
            }
            i = i + 1;
        }
        proof {
            assert(self@ =~= other@);
        }
        true
    }
}

impl Eq for Dim {

}

impl vstd::std_specs::cmp::PartialEqSpecImpl for Dim {
    open spec fn obeys_eq_spec() -> bool {
        true
    }

    open spec fn eq_spec(&self, other: &Dim) -> bool {
        self@ == other@
    }
}

} // verus!
