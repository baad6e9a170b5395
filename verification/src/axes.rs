//! Bidirectional iteration over the (length, stride) description of each
//! axis of a shape/strides pair.

use vstd::prelude::*;
use crate::dimension::Dim;

verus! {

/// An axis identifier: its index among the axes of an array.
#[derive(Clone, Copy, Debug, PartialEq, Eq, Structural)]
pub struct Axis(pub usize);

/// Description of one axis: its identifier, its length and its stride.
#[derive(Clone, Copy, Debug, PartialEq, Eq, Structural)]
pub struct AxisDescription {
    /// Axis identifier (index)
    pub axis: Axis,
    /// Length in count of elements of the current axis
    pub len: usize,
    /// Stride in count of elements of the current axis
    pub stride: isize,
}

/// The description of axis `i` of the pair `(dims, strides)`.
pub open spec fn axis_desc(dims: Seq<usize>, strides: Seq<usize>, i: int) -> AxisDescription {
    AxisDescription { axis: Axis(i as usize), len: dims[i], stride: strides[i] as isize }
}

/// The descriptions of axes `start .. end`, in increasing axis order: what
/// forward iteration yields.
pub open spec fn forward_descs(dims: Seq<usize>, strides: Seq<usize>, start: int, end: int)
    -> Seq<AxisDescription> {
    Seq::new((end - start) as nat, |k: int| axis_desc(dims, strides, start + k))
}

/// The descriptions of axes `start .. end` in decreasing axis order: what
/// backward iteration yields.
pub open spec fn backward_descs(dims: Seq<usize>, strides: Seq<usize>, start: int, end: int)
    -> Seq<AxisDescription> {
    Seq::new((end - start) as nat, |k: int| axis_desc(dims, strides, end - 1 - k))
}

/// The sequence of descriptions produced forward, reversed, is exactly the
/// sequence produced backward.
pub proof fn lemma_forward_reverse(dims: Seq<usize>, strides: Seq<usize>, start: int, end: int)
    requires
        0 <= start <= end,
    ensures
        forward_descs(dims, strides, start, end).reverse()
            == backward_descs(dims, strides, start, end),
{
    let f = forward_descs(dims, strides, start, end);
    let b = backward_descs(dims, strides, start, end);
    assert(f.reverse() =~= b);
}

/// An iterator over the length and stride of each axis of an array.
///
/// The cursor is the pair of bounds `start` and `end`: a forward step reads
/// axis `start` and increments it, a backward step decrements `end` and
/// reads that axis; the axes are exhausted when the bounds meet. It borrows
/// the shape and the strides of its array and never copies or changes them.
#[derive(Clone, Copy, Debug)]
pub struct Axes<'a> {
    /// The shape whose axes are described.
    pub dim: &'a Dim,
    /// The strides paired with `dim`, one per axis.
    pub strides: &'a Dim,
    /// The first axis not yet yielded in front.
    pub start: usize,
    /// One past the last axis not yet yielded in back.
    pub end: usize,
}

impl<'a> Axes<'a> {
    /// The cursor stays inside the rank, and every stride both exists and
    /// fits the signed index type.
    pub open spec fn wf(self) -> bool {
        &&& self.start <= self.end <= self.dim@.len()
        &&& self.strides@.len() == self.dim@.len()
        &&& forall|i: int| 0 <= i < self.strides@.len()
            ==> #[trigger] self.strides@[i] <= isize::MAX
    }

    /// The descriptions this iterator has still to yield, in forward order.
    pub open spec fn remaining(self) -> Seq<AxisDescription> {
        forward_descs(self.dim@, self.strides@, self.start as int, self.end as int)
    }

    /// Yield the next axis description from the front, `None` once the
    /// bounds have met.
    pub fn next(&mut self) -> (r: Option<AxisDescription>)
        requires
            old(self).wf(),
        ensures
            final(self).wf(),
            final(self).dim == old(self).dim,
            final(self).strides == old(self).strides,
            final(self).end == old(self).end,
            old(self).start < old(self).end ==> {
                &&& r == Some(axis_desc(old(self).dim@, old(self).strides@,
                    old(self).start as int))
                &&& final(self).start == old(self).start + 1
            },
            old(self).start >= old(self).end ==> {
                &&& r is None
                &&& final(self).start == old(self).start
            },
    {
        if self.start < self.end {
            let i = self.start;
            self.start = i + 1;
            Some(AxisDescription {
                axis: Axis(i),
                len: self.dim.axis(i),
                stride: self.strides.axis(i) as isize,
            })
        } else {
            None
        }
    }

    /// Yield the next axis description from the back, `None` once the
    /// bounds have met.
    pub fn next_back(&mut self) -> (r: Option<AxisDescription>)
        requires
            old(self).wf(),
        ensures
            final(self).wf(),
            final(self).dim == old(self).dim,
            final(self).strides == old(self).strides,
            final(self).start == old(self).start,
            old(self).start < old(self).end ==> {
                &&& r == Some(axis_desc(old(self).dim@, old(self).strides@,
                    old(self).end - 1))
                &&& final(self).end == old(self).end - 1
            },
            old(self).start >= old(self).end ==> {
                &&& r is None
                &&& final(self).end == old(self).end
            },
    {
        if self.start < self.end {
            let i = self.end - 1;
            self.end = i;
            Some(AxisDescription {
                axis: Axis(i),
                len: self.dim.axis(i),
                stride: self.strides.axis(i) as isize,
            })
        } else {
            None
        }
    }

    /// Exact count of the descriptions still to come, as a lower and upper
    /// bound: the engine always knows it without consuming anything.
    pub fn size_hint(&self) -> (r: (usize, Option<usize>))
        requires
            self.wf(),
        ensures
            r.0 == self.remaining().len(),
            r.1 == Some(r.0),
    {
        let len = self.end - self.start;
        (len, Some(len))
    }

    /// Number of axes still to be yielded; on a fresh iterator this is the
    /// rank of the shape.
    pub fn count(self) -> (r: usize)
        requires
            self.wf(),
        ensures
            r == self.remaining().len(),
    {
        self.end - self.start
    }
}

/// Accumulator step that keeps the axis of greatest length seen so far,
/// preferring the later axis when lengths tie.
pub open spec fn max_len_step(acc: Option<AxisDescription>, a: AxisDescription)
    -> Option<AxisDescription> {
    match acc {
        Option::None => Option::Some(a),
        Option::Some(m) => if a.len >= m.len {
            Option::Some(a)
        } else {
            Option::Some(m)
        },
    }
}

/// The max-length step as a fold function.
pub open spec fn max_len_fn() -> spec_fn(Option<AxisDescription>, AxisDescription)
    -> Option<AxisDescription> {
    |acc: Option<AxisDescription>, a: AxisDescription| max_len_step(acc, a)
}

/// Folding with `g` from the left, by peeling the front element first,
/// computes the same accumulator as the standard left fold: consuming the
/// descriptions one `next` at a time agrees with `fold`.
pub proof fn lemma_fold_matches_next(s: Seq<AxisDescription>, init: Option<AxisDescription>,
    g: spec_fn(Option<AxisDescription>, AxisDescription) -> Option<AxisDescription>)
    ensures
        s.fold_left_alt(init, g) == s.fold_left(init, g),
{
    s.lemma_fold_left_alt(init, g);
}

/// What the max-length fold computes: nothing on an empty run of axes;
/// otherwise an axis of the run (or the seed) whose length no axis of the
/// run exceeds.
pub proof fn lemma_fold_max_general(s: Seq<AxisDescription>, acc: Option<AxisDescription>)
    ensures
        s.fold_left_alt(acc, max_len_fn()) is None <==> (s.len() == 0 && acc is None),
        s.fold_left_alt(acc, max_len_fn()) matches Some(m) ==> {
            &&& ((exists|i: int| 0 <= i < s.len() && s[i] == m)
                || (acc matches Some(a0) && a0 == m))
            &&& forall|i: int| 0 <= i < s.len() ==> (#[trigger] s[i]).len <= m.len
            &&& (acc matches Some(a0) ==> a0.len <= m.len)
        },
    decreases s.len(),
{
    if s.len() == 0 {
    } else {
        let acc1 = max_len_step(acc, s[0]);
        let tail = s.subrange(1, s.len() as int);
        assert(s.fold_left_alt(acc, max_len_fn()) == tail.fold_left_alt(acc1, max_len_fn()));
        lemma_fold_max_general(tail, acc1);
        assert forall|i: int| 1 <= i < s.len() implies s[i] == tail[i - 1] by {}
    }
}

/// The max-length fold over the whole run of axes, started empty: `None`
/// exactly on a zero-rank shape, else an axis description of maximal
/// length drawn from the run.
pub proof fn lemma_fold_max_properties(s: Seq<AxisDescription>)
    ensures
        s.fold_left_alt(Option::<AxisDescription>::None, max_len_fn()) is None <==> s.len() == 0,
        s.fold_left_alt(Option::<AxisDescription>::None, max_len_fn()) matches Some(m) ==> {
            &&& exists|i: int| 0 <= i < s.len() && s[i] == m
            &&& forall|i: int| 0 <= i < s.len() ==> (#[trigger] s[i]).len <= m.len
        },
{
    lemma_fold_max_general(s, Option::<AxisDescription>::None);
}

impl<'a> Axes<'a> {
    /// Fold every remaining axis description into an accumulator, front to
    /// back, without allocating. `g` is the functional meaning of `f`: the
    /// result is exactly the fold of `g` over the remaining descriptions,
    /// the same sequence and accumulator repeated calls of `next` give.
    pub fn fold<B, F: Fn(B, AxisDescription) -> B>(self, init: B, f: F,
        Ghost(g): Ghost<spec_fn(B, AxisDescription) -> B>) -> (r: B)
        requires
            self.wf(),
            forall|b: B, a: AxisDescription| #[trigger] call_requires(f, (b, a)),
            forall|b: B, a: AxisDescription, out: B|
                call_ensures(f, (b, a), out) ==> out == g(b, a),
        ensures
            r == self.remaining().fold_left_alt(init, g),
    {
        let ghost full = self.remaining();
        let mut it = self;
        let mut acc = init;
        while it.start < it.end
            invariant
                it.wf(),
                it.dim@ == self.dim@,
                it.strides@ == self.strides@,
                forall|b: B, a: AxisDescription| #[trigger] call_requires(f, (b, a)),
                forall|b: B, a: AxisDescription, out: B|
                    call_ensures(f, (b, a), out) ==> out == g(b, a),
                full.fold_left_alt(init, g) == it.remaining().fold_left_alt(acc, g),
                full == self.remaining(),
            decreases it.end - it.start,
        {
            let ghost before = it.remaining();
            if let Some(a) = it.next() {
                proof {
                    assert(before.len() > 0);
                    assert(before[0] == a);
                    assert(before.subrange(1, before.len() as int) =~= it.remaining());
                    assert(before.fold_left_alt(acc, g)
                        == it.remaining().fold_left_alt(g(acc, a), g));
                }
                acc = f(acc, a);
            } else {
                proof {
                    assert(false);
                }
            }
        }
        proof {
            assert(it.remaining().len() == 0);
        }
        acc
    }

    /// The description of the longest remaining axis (the later one on
    /// ties), found by folding without an intermediate collection; `None`
    /// when no axis remains.
    pub fn max_by_len(self) -> (r: Option<AxisDescription>)
        requires
            self.wf(),
        ensures
            r == self.remaining().fold_left_alt(Option::<AxisDescription>::None, max_len_fn()),
    {
        let step = |acc: Option<AxisDescription>, a: AxisDescription|
            -> (out: Option<AxisDescription>)
            ensures
                out == max_len_step(acc, a),
            {
                match acc {
                    Option::None => Option::Some(a),
                    Option::Some(m) => if a.len >= m.len {
                        Option::Some(a)
                    } else {
                        Option::Some(m)
                    },
                }
            };
        self.fold(Option::None, step, Ghost(max_len_fn()))
    }

    /// The same search as `max_by_len`, done by calling `next` repeatedly
    /// and tracking the best axis seen: it lands on the same result.
    pub fn max_by_len_stepwise(self) -> (r: Option<AxisDescription>)
        requires
            self.wf(),
        ensures
            r == self.remaining().fold_left_alt(Option::<AxisDescription>::None, max_len_fn()),
    {
        let ghost full = self.remaining();
        let mut it = self;
        let mut best: Option<AxisDescription> = Option::None;
        while it.start < it.end
            invariant
                it.wf(),
                it.dim@ == self.dim@,
                it.strides@ == self.strides@,
                full.fold_left_alt(Option::<AxisDescription>::None, max_len_fn())
                    == it.remaining().fold_left_alt(best, max_len_fn()),
                full == self.remaining(),
            decreases it.end - it.start,
        {
            let ghost before = it.remaining();
            if let Some(a) = it.next() {
                proof {
                    assert(before.len() > 0);
                    assert(before[0] == a);
                    assert(before.subrange(1, before.len() as int) =~= it.remaining());
                    assert(before.fold_left_alt(best, max_len_fn())
                        == it.remaining().fold_left_alt(max_len_step(best, a), max_len_fn()));
                }
                best = match best {
                    Option::None => Option::Some(a),
                    Option::Some(m) => if a.len >= m.len {
                        Option::Some(a)
                    } else {
                        Option::Some(m)
                    },
                };
            } else {
                proof {
                    assert(false);
                }
            }
        }
        best
    }
}

/// Create a new Axes iterator over all axes of the pair `(d, strides)`.
pub fn axes_of<'a>(d: &'a Dim, strides: &'a Dim) -> (r: Axes<'a>)
    requires
        strides@.len() == d@.len(),
        forall|i: int| 0 <= i < strides@.len() ==> #[trigger] strides@[i] <= isize::MAX,
    ensures
        r.wf(),
        r.dim == d,
        r.strides == strides,
        r.start == 0,
        r.end == d@.len(),
        r.remaining().len() == d@.len(),
{
    Axes { dim: d, strides, start: 0, end: d.ndim() }
}

} // verus!
