//! Dimension metadata of a tensor.

use crate::layout::{dims_ok, lemma_product_unfold, product};
use vstd::prelude::*;
use vstd::slice::slice_to_vec;

verus! {

/// True exactly when the machine can hold the element count of every
/// suffix of `dims` — the condition under which strides and element
/// counts can be computed without overflow.
///
/// A caller that receives dimensions from outside can establish the
/// precondition of the constructors by calling this first.
pub fn shape_fits(dims: &[usize]) -> (b: bool)
    ensures
        b <==> dims_ok(dims@),
{
    let n = dims.len();
    let mut acc: usize = 1;
    let mut j: usize = n;
    while j > 0
        invariant
            j <= n,
            n == dims@.len(),
            acc == product(dims@.skip(j as int)),
            forall|t: int| j <= t <= n ==> product(#[trigger] dims@.skip(t)) <= usize::MAX,
        decreases j,
    {
        proof {
            lemma_product_unfold(dims@, j - 1);
        }
        match dims[j - 1].checked_mul(acc) {
            Some(v) => {
                acc = v;
                j = j - 1;
            },
            None => {
                proof {
                    assert(product(dims@.skip(j - 1)) > usize::MAX);
                }
                return false;
            },
        }
    }
    proof {
        assert(dims_ok(dims@));
    }
    true
}

/// The dimensions of a tensor, outermost first.
///
/// For example, a 2x3 matrix has shape `[2, 3]`. A shape is immutable once
/// constructed; strides are always derived from the dimensions.
#[derive(Clone, Debug)]
pub struct Shape {
    dims: Vec<usize>,
}

impl View for Shape {
    type V = Seq<usize>;

    closed spec fn view(&self) -> Seq<usize> {
        self.dims@
    }
}

impl Shape {
    /// Create a new shape from a slice of dimension sizes.
    pub fn new(dims: &[usize]) -> (s: Shape)
        ensures
            s@ == dims@,
    {
        Shape { dims: slice_to_vec(dims) }
    }

    /// Number of dimensions (the rank): 0 for a scalar, 1 for a vector,
    /// 2 for a matrix, and so on.
    pub fn ndim(&self) -> (r: usize)
        ensures
            r == self@.len(),
    {
        self.dims.len()
    }

    /// Total number of elements: the product of all dimension sizes, with
    /// the empty product equal to 1 (scalar convention).
    pub fn nelems(&self) -> (r: usize)
        requires
            dims_ok(self@),
        ensures
            r == product(self@),
    {
        let n = self.dims.len();
        let mut acc: usize = 1;
        let mut j: usize = n;
        while j > 0
            invariant
                j <= n,
                n == self@.len(),
                dims_ok(self@),
                acc == product(self@.skip(j as int)),
            decreases j,
        {
            j = j - 1;
            proof {
                lemma_product_unfold(self@, j as int);
            }
            acc = self.dims[j] * acc;
        }
        proof {
            assert(self@.skip(0) =~= self@);
        }
        acc
    }

    /// The dimension sizes, outermost first.
    pub fn dims(&self) -> (r: &[usize])
        ensures
            r@ == self@,
    {
        self.dims.as_slice()
    }

    /// Row-major (C-order) strides: how many flat-buffer positions to skip
    /// to advance one step along each dimension.
    ///
    /// The stride of the last dimension is 1, and the stride of every
    /// earlier dimension is the stride of the next one times the size of
    /// the next one; equivalently, each stride is the element count of the
    /// dimensions after it. The empty shape has empty strides.
    pub fn strides(&self) -> (r: Vec<usize>)
        requires
            dims_ok(self@),
        ensures
            r@.len() == self@.len(),
            forall|i: int| 0 <= i < self@.len() ==> r@[i] == product(#[trigger] self@.skip(i + 1)),
            self@.len() > 0 ==> r@[self@.len() - 1] == 1,
            forall|i: int| 0 <= i < self@.len() - 1 ==> (#[trigger] r@[i]) == r@[i + 1] * self@[i
                + 1],
    {
        let n = self.dims.len();
        let mut r: Vec<usize> = Vec::new();
        let mut i: usize = 0;
        while i < n
            invariant
                i <= n,
                n == self@.len(),
                dims_ok(self@),
                r@.len() == i,
                forall|k: int| 0 <= k < i ==> r@[k] == product(#[trigger] self@.skip(k + 1)),
            decreases n - i,
        {
            let mut s: usize = 1;
            let mut j: usize = n;
            while j > i + 1
                invariant
                    i < n,
                    i + 1 <= j <= n,
                    n == self@.len(),
                    dims_ok(self@),
                    s == product(self@.skip(j as int)),
                decreases j,
            {
                j = j - 1;
                proof {
                    lemma_product_unfold(self@, j as int);
                }
                s = self.dims[j] * s;
            }
            r.push(s);
            i = i + 1;
        }
        proof {
            if self@.len() > 0 {
                let last = self@.len() - 1;
                assert(r@[last] == product(self@.skip(last + 1)));
                assert(self@.skip(last + 1).len() == 0);
            }
            assert forall|i2: int| 0 <= i2 < self@.len() - 1 implies (#[trigger] r@[i2]) == r@[i2 + 1]
                * self@[i2 + 1] by {
                lemma_product_unfold(self@, i2 + 1);
                assert(r@[i2] == product(self@.skip(i2 + 1)));
                assert(r@[i2 + 1] == product(self@.skip(i2 + 1 + 1)));
                assert((self@[i2 + 1] as nat) * product(self@.skip(i2 + 2)) == product(
                    self@.skip(i2 + 2),
                ) * (self@[i2 + 1] as nat)) by (nonlinear_arith);
            }
        }
        r
    }
}

} // verus!
