//! The tensor type: flat storage interpreted through a shape.

use crate::error::TensorError;
use crate::layout::{
    dims_ok, flat_of, lemma_flat_bound, lemma_product_unfold, lemma_valid_index_skip, product,
    valid_index,
};
use crate::shape::Shape;
use crate::storage::Storage;
use vstd::prelude::*;
use vstd::slice::slice_to_vec;
use vstd::string::StringExecFns;

verus! {

/// True exactly when two dimension lists are equal element for element.
fn dims_equal(a: &[usize], b: &[usize]) -> (r: bool)
    ensures
        r <==> a@ == b@,
{
    if a.len() != b.len() {
        proof {
            assert(a@ != b@);
        }
        return false;
    }
    let n = a.len();
    let mut i: usize = 0;
    while i < n
        invariant
            i <= n,
            n == a@.len(),
            n == b@.len(),
            forall|k: int| 0 <= k < i ==> a@[k] == b@[k],
        decreases n - i,
    {
        if a[i] != b[i] {
            proof {
                assert(a@[i as int] != b@[i as int]);
            }
            return false;
        }
        i = i + 1;
    }
    proof {
        assert(a@ =~= b@);
    }
    true
}

/// Combine two equally long buffers position by position with `f`.
fn combine_elems<T: Copy, F: Fn(T, T) -> T>(a: &Storage<T>, b: &Storage<T>, f: F) -> (r: Vec<T>)
    requires
        a@.len() == b@.len(),
        forall|x: (T, T)| #[trigger] call_requires(f, x),
    ensures
        r@.len() == a@.len(),
        forall|p: int| 0 <= p < a@.len() ==> call_ensures(f, (a@[p], b@[p]), #[trigger] r@[p]),
{
    let n = a.len();
    let mut out: Vec<T> = Vec::new();
    let mut p: usize = 0;
    while p < n
        invariant
            p <= n,
            n == a@.len(),
            n == b@.len(),
            out@.len() == p,
            forall|x: (T, T)| #[trigger] call_requires(f, x),
            forall|k: int| 0 <= k < p ==> call_ensures(f, (a@[k], b@[k]), #[trigger] out@[k]),
        decreases n - p,
    {
        out.push(f(a.get(p), b.get(p)));
        p = p + 1;
    }
    out
}

/// Apply `f` to every element of a buffer, passing `scalar` as the second
/// argument.
fn map_scalar<T: Copy, F: Fn(T, T) -> T>(a: &Storage<T>, scalar: T, f: F) -> (r: Vec<T>)
    requires
        forall|x: (T, T)| #[trigger] call_requires(f, x),
    ensures
        r@.len() == a@.len(),
        forall|p: int| 0 <= p < a@.len() ==> call_ensures(f, (a@[p], scalar), #[trigger] r@[p]),
{
    let n = a.len();
    let mut out: Vec<T> = Vec::new();
    let mut p: usize = 0;
    while p < n
        invariant
            p <= n,
            n == a@.len(),
            out@.len() == p,
            forall|x: (T, T)| #[trigger] call_requires(f, x),
            forall|k: int| 0 <= k < p ==> call_ensures(f, (a@[k], scalar), #[trigger] out@[k]),
        decreases n - p,
    {
        out.push(f(a.get(p), scalar));
        p = p + 1;
    }
    out
}

/// Apply a unary `f` to every element of a buffer.
fn map_unary<T: Copy, F: Fn(T) -> T>(a: &Storage<T>, f: F) -> (r: Vec<T>)
    requires
        forall|x: (T,)| #[trigger] call_requires(f, x),
    ensures
        r@.len() == a@.len(),
        forall|p: int| 0 <= p < a@.len() ==> call_ensures(f, (a@[p],), #[trigger] r@[p]),
{
    let n = a.len();
    let mut out: Vec<T> = Vec::new();
    let mut p: usize = 0;
    while p < n
        invariant
            p <= n,
            n == a@.len(),
            out@.len() == p,
            forall|x: (T,)| #[trigger] call_requires(f, x),
            forall|k: int| 0 <= k < p ==> call_ensures(f, (a@[k],), #[trigger] out@[k]),
        decreases n - p,
    {
        out.push(f(a.get(p)));
        p = p + 1;
    }
    out
}

/// Row `i` of a matrix stored row-major in `data` with `cols` columns.
pub open spec fn row_seq<T>(data: Seq<T>, cols: int, i: int) -> Seq<T> {
    Seq::new(cols as nat, |x: int| data[i * cols + x])
}

/// Column `j` of a matrix stored row-major in `data` with `width` columns
/// and `height` rows.
pub open spec fn col_seq<T>(data: Seq<T>, width: int, height: int, j: int) -> Seq<T> {
    Seq::new(height as nat, |x: int| data[x * width + j])
}

/// `r` is a possible left-to-right accumulation, starting from `acc`, of
/// the products of corresponding elements of `a` and `b`: at each step one
/// possible `mul_op` result of the pair is folded in with one possible
/// `add_op` result.
///
/// This is the specification of one matrix-multiplication entry: the dot
/// product of a row and a column under the caller's scalar operations.
pub open spec fn dot_rel<T, FA: Fn(T, T) -> T, FM: Fn(T, T) -> T>(
    add_op: FA,
    mul_op: FM,
    acc: T,
    a: Seq<T>,
    b: Seq<T>,
    r: T,
) -> bool
    decreases a.len(),
{
    if a.len() == 0 {
        r == acc
    } else {
        exists|p: T, acc2: T|
            {
                &&& #[trigger] call_ensures(mul_op, (a[0], b[0]), p)
                &&& #[trigger] call_ensures(add_op, (acc, p), acc2)
                &&& dot_rel(add_op, mul_op, acc2, a.skip(1), b.skip(1), r)
            }
    }
}

/// Folding one more product into an accumulation extends the dot-product
/// relation by one element on the right.
proof fn lemma_dot_rel_push<T, FA: Fn(T, T) -> T, FM: Fn(T, T) -> T>(
    add_op: FA,
    mul_op: FM,
    start: T,
    acc: T,
    a: Seq<T>,
    b: Seq<T>,
    x: T,
    y: T,
    p: T,
    acc2: T,
)
    requires
        a.len() == b.len(),
        dot_rel(add_op, mul_op, start, a, b, acc),
        call_ensures(mul_op, (x, y), p),
        call_ensures(add_op, (acc, p), acc2),
    ensures
        dot_rel(add_op, mul_op, start, a.push(x), b.push(y), acc2),
    decreases a.len(),
{
    if a.len() == 0 {
        assert(acc == start);
        assert(a.push(x)[0] == x);
        assert(b.push(y)[0] == y);
        assert(a.push(x).skip(1) =~= Seq::<T>::empty());
        assert(b.push(y).skip(1) =~= Seq::<T>::empty());
        assert(dot_rel(add_op, mul_op, acc2, a.push(x).skip(1), b.push(y).skip(1), acc2));
    } else {
        let (p0, acc1) = choose|p0: T, acc1: T|
            {
                &&& #[trigger] call_ensures(mul_op, (a[0], b[0]), p0)
                &&& #[trigger] call_ensures(add_op, (start, p0), acc1)
                &&& dot_rel(add_op, mul_op, acc1, a.skip(1), b.skip(1), acc)
            };
        lemma_dot_rel_push(add_op, mul_op, acc1, acc, a.skip(1), b.skip(1), x, y, p, acc2);
        assert(a.push(x).skip(1) =~= a.skip(1).push(x));
        assert(b.push(y).skip(1) =~= b.skip(1).push(y));
        assert(a.push(x)[0] == a[0]);
        assert(b.push(y)[0] == b[0]);
        assert(dot_rel(add_op, mul_op, acc1, a.push(x).skip(1), b.push(y).skip(1), acc2));
    }
}

/// Law: when the scalar operations are deterministic — each argument pair
/// admits only one result — the dot-product relation admits only one
/// result as well, so every matrix-multiplication entry is uniquely
/// determined by the operands.
pub proof fn lemma_dot_rel_functional<T, FA: Fn(T, T) -> T, FM: Fn(T, T) -> T>(
    add_op: FA,
    mul_op: FM,
    acc: T,
    a: Seq<T>,
    b: Seq<T>,
    r1: T,
    r2: T,
)
    requires
        forall|x: T, y: T, u: T, v: T|
            call_ensures(add_op, (x, y), u) && call_ensures(add_op, (x, y), v) ==> u == v,
        forall|x: T, y: T, u: T, v: T|
            call_ensures(mul_op, (x, y), u) && call_ensures(mul_op, (x, y), v) ==> u == v,
        dot_rel(add_op, mul_op, acc, a, b, r1),
        dot_rel(add_op, mul_op, acc, a, b, r2),
    ensures
        r1 == r2,
    decreases a.len(),
{
    if a.len() > 0 {
        let (p1, acc1) = choose|p1: T, acc1: T|
            {
                &&& #[trigger] call_ensures(mul_op, (a[0], b[0]), p1)
                &&& #[trigger] call_ensures(add_op, (acc, p1), acc1)
                &&& dot_rel(add_op, mul_op, acc1, a.skip(1), b.skip(1), r1)
            };
        let (p2, acc2) = choose|p2: T, acc2: T|
            {
                &&& #[trigger] call_ensures(mul_op, (a[0], b[0]), p2)
                &&& #[trigger] call_ensures(add_op, (acc, p2), acc2)
                &&& dot_rel(add_op, mul_op, acc2, a.skip(1), b.skip(1), r2)
            };
        assert(p1 == p2);
        assert(acc1 == acc2);
        lemma_dot_rel_functional(add_op, mul_op, acc1, a.skip(1), b.skip(1), r1, r2);
    }
}

/// Law: an element-wise combination whose second operand is everywhere `z`,
/// under an operation for which `z` is a right identity, reproduces the
/// first operand exactly.
///
/// Instantiated with addition and a zero-filled tensor this says
/// `t + zeros_like(t) == t`; instantiated with multiplication and a unit
/// scalar it says `t * 1 == t`.
pub proof fn lemma_right_identity_pointwise<T, F: Fn(T, T) -> T>(
    a: Seq<T>,
    out: Seq<T>,
    f: F,
    z: T,
)
    requires
        out.len() == a.len(),
        forall|x: T, r: T| call_ensures(f, (x, z), r) ==> r == x,
        forall|p: int| 0 <= p < a.len() ==> call_ensures(f, (a[p], z), #[trigger] out[p]),
    ensures
        out == a,
{
    assert(out =~= a);
}

/// Law: applying an involutive unary operation twice, element by element,
/// reproduces the original buffer: `t.neg().neg() == t` whenever the
/// operation undoes itself.
pub proof fn lemma_involution_pointwise<T, F: Fn(T) -> T>(a: Seq<T>, mid: Seq<T>, out: Seq<T>, f: F)
    requires
        mid.len() == a.len(),
        out.len() == a.len(),
        forall|x: T, r: T, r2: T| call_ensures(f, (x,), r) && call_ensures(f, (r,), r2) ==> r2 == x,
        forall|p: int| 0 <= p < a.len() ==> call_ensures(f, (a[p],), #[trigger] mid[p]),
        forall|p: int| 0 <= p < a.len() ==> call_ensures(f, (mid[p],), #[trigger] out[p]),
    ensures
        out == a,
{
    assert(out =~= a);
}

/// A dense multi-dimensional array.
///
/// A tensor combines flat [`Storage`], a [`Shape`], a redundant copy of the
/// shape's row-major strides (derived once at construction and never
/// mutated independently), and a base offset into storage. No current
/// constructor produces a non-zero offset; the field is reserved for
/// future view support.
///
/// The storage length always equals the shape's element count, and every
/// indexing operation maps a multi-index to the position
/// `offset + sum(index[i] * stride[i])` in storage.
#[derive(Clone, Debug)]
pub struct Tensor<T> {
    storage: Storage<T>,
    shape: Shape,
    strides: Vec<usize>,
    offset: usize,
}

impl<T: Copy> Tensor<T> {
    /// The dimension sizes, as a mathematical sequence.
    pub closed spec fn spec_dims(&self) -> Seq<usize> {
        self.shape@
    }

    /// The flat element buffer, as a mathematical sequence.
    pub closed spec fn spec_data(&self) -> Seq<T> {
        self.storage@
    }

    /// Well-formedness: the stored strides are the row-major strides of
    /// the shape, the storage length is the shape's element count (and
    /// every suffix count fits the machine), and the base offset is 0.
    ///
    /// Every constructor establishes this and every operation preserves
    /// it.
    pub closed spec fn wf(&self) -> bool {
        &&& dims_ok(self.shape@)
        &&& self.storage@.len() == product(self.shape@)
        &&& self.strides@.len() == self.shape@.len()
        &&& forall|i: int|
            0 <= i < self.shape@.len() ==> self.strides@[i] == product(
                #[trigger] self.shape@.skip(i + 1),
            )
        &&& self.offset == 0
    }

    /// Assemble a tensor from storage whose length is already known to
    /// match the shape's element count.
    fn assemble(storage: Storage<T>, shape: Shape) -> (t: Tensor<T>)
        requires
            dims_ok(shape@),
            storage@.len() == product(shape@),
        ensures
            t.wf(),
            t.spec_dims() == shape@,
            t.spec_data() == storage@,
    {
        let strides = shape.strides();
        Tensor { storage, shape, strides, offset: 0 }
    }

    /// Create a tensor of the given dimensions with every element equal to
    /// `zero` (the zero of the element type).
    pub fn zeros(dims: &[usize], zero: T) -> (t: Tensor<T>)
        requires
            dims_ok(dims@),
        ensures
            t.wf(),
            t.spec_dims() == dims@,
            t.spec_data().len() == product(dims@),
            forall|p: int| 0 <= p < t.spec_data().len() ==> t.spec_data()[p] == zero,
    {
        let shape = Shape::new(dims);
        let n = shape.nelems();
        let storage = Storage::zeros(n, zero);
        Self::assemble(storage, shape)
    }

    /// Create a tensor from a flat vector of data in row-major order,
    /// taking ownership of the buffer without copying.
    ///
    /// Fails, reporting the expected and actual element counts, exactly
    /// when the buffer length differs from the shape's element count.
    pub fn from_vec(data: Vec<T>, dims: &[usize]) -> (r: Result<Tensor<T>, TensorError>)
        requires
            dims_ok(dims@),
        ensures
            r is Ok <==> data@.len() == product(dims@),
            r matches Ok(t) ==> t.wf() && t.spec_dims() == dims@ && t.spec_data() == data@,
            r matches Err(e) ==> e matches TensorError::LengthMismatch { expected, actual }
                && expected == product(dims@) && actual == data@.len(),
    {
        let shape = Shape::new(dims);
        let expected = shape.nelems();
        if data.len() != expected {
            return Err(TensorError::LengthMismatch { expected, actual: data.len() });
        }
        Ok(Self::assemble(Storage::from_vec(data), shape))
    }

    /// The flat element buffer in row-major order.
    pub fn as_slice(&self) -> (r: &[T])
        ensures
            r@ == self.spec_data(),
    {
        self.storage.as_slice()
    }

    /// The dimension sizes.
    pub fn shape(&self) -> (r: &[usize])
        ensures
            r@ == self.spec_dims(),
    {
        self.shape.dims()
    }

    /// Number of dimensions (the rank).
    pub fn ndim(&self) -> (r: usize)
        ensures
            r == self.spec_dims().len(),
    {
        self.shape.ndim()
    }

    /// Total number of elements.
    pub fn nelems(&self) -> (r: usize)
        requires
            self.wf(),
        ensures
            r == product(self.spec_dims()),
            r == self.spec_data().len(),
    {
        self.shape.nelems()
    }

    /// Translate a multi-index into a flat storage position using the
    /// row-major strides: `offset + sum(indices[i] * strides[i])`.
    ///
    /// Fails with an arity error when the number of indices differs from
    /// the rank, and with an out-of-bounds error naming the first
    /// offending dimension when a coordinate reaches past its dimension's
    /// size; succeeds otherwise, and the position is then always within
    /// storage.
    pub fn linear_index(&self, indices: &[usize]) -> (r: Result<usize, TensorError>)
        requires
            self.wf(),
        ensures
            r is Ok <==> valid_index(self.spec_dims(), indices@),
            r matches Ok(p) ==> p == flat_of(self.spec_dims(), indices@) && p
                < self.spec_data().len(),
            r matches Err(e) ==> match e {
                TensorError::IndexArityError { expected, actual } => {
                    &&& expected == self.spec_dims().len()
                    &&& actual == indices@.len()
                    &&& indices@.len() != self.spec_dims().len()
                },
                TensorError::IndexOutOfBounds { dim, index, size } => {
                    &&& indices@.len() == self.spec_dims().len()
                    &&& dim < self.spec_dims().len()
                    &&& index == indices@[dim as int]
                    &&& size == self.spec_dims()[dim as int]
                    &&& index >= size
                    &&& forall|i: int| 0 <= i < dim ==> (#[trigger] indices@[i])
                        < self.spec_dims()[i]
                },
                _ => false,
            },
    {
        let n = self.shape.ndim();
        if indices.len() != n {
            return Err(TensorError::IndexArityError { expected: n, actual: indices.len() });
        }
        let dims = self.shape.dims();
        let mut i: usize = 0;
        while i < n
            invariant
                i <= n,
                n == self.spec_dims().len(),
                dims@ == self.spec_dims(),
                indices@.len() == n,
                forall|k: int| 0 <= k < i ==> (#[trigger] indices@[k]) < self.spec_dims()[k],
            decreases n - i,
        {
            if indices[i] >= dims[i] {
                return Err(TensorError::IndexOutOfBounds {
                    dim: i,
                    index: indices[i],
                    size: dims[i],
                });
            }
            i = i + 1;
        }
        let ghost gd = self.spec_dims();
        let ghost gi = indices@;
        proof {
            assert(valid_index(gd, gi));
        }
        let mut acc: usize = 0;
        let mut j: usize = n;
        while j > 0
            invariant
                j <= n,
                n == gd.len(),
                self.wf(),
                gd == self.spec_dims(),
                gi == indices@,
                indices@.len() == n,
                valid_index(gd, gi),
                acc == flat_of(gd.skip(j as int), gi.skip(j as int)),
            decreases j,
        {
            j = j - 1;
            proof {
                lemma_valid_index_skip(gd, gi, j as int);
                lemma_flat_bound(gd.skip(j as int), gi.skip(j as int));
                assert(gd.skip(j as int).skip(1) =~= gd.skip(j + 1));
                assert(gi.skip(j as int).skip(1) =~= gi.skip(j + 1));
                assert(gd.skip(j as int)[0] == gd[j as int]);
                assert(gi.skip(j as int)[0] == gi[j as int]);
                assert(flat_of(gd.skip(j as int), gi.skip(j as int)) == (gi[j as int] as nat)
                    * product(gd.skip(j + 1)) + flat_of(gd.skip(j + 1), gi.skip(j + 1)));
                assert(product(gd.skip(j as int)) <= usize::MAX);
            }
            acc = indices[j] * self.strides[j] + acc;
        }
        proof {
            assert(gd.skip(0) =~= gd);
            assert(gi.skip(0) =~= gi);
            lemma_flat_bound(gd, gi);
        }
        Ok(acc)
    }

    /// Read the element at the given multi-index.
    ///
    /// Succeeds exactly when the multi-index is valid for the shape, and
    /// then returns the element the index maps to; otherwise reports the
    /// same error `linear_index` does.
    pub fn get(&self, indices: &[usize]) -> (r: Result<T, TensorError>)
        requires
            self.wf(),
        ensures
            r is Ok <==> valid_index(self.spec_dims(), indices@),
            r matches Ok(v) ==> v == self.spec_data()[flat_of(self.spec_dims(), indices@) as int],
            r matches Err(e) ==> match e {
                TensorError::IndexArityError { expected, actual } => {
                    &&& expected == self.spec_dims().len()
                    &&& actual == indices@.len()
                    &&& indices@.len() != self.spec_dims().len()
                },
                TensorError::IndexOutOfBounds { dim, index, size } => {
                    &&& indices@.len() == self.spec_dims().len()
                    &&& dim < self.spec_dims().len()
                    &&& index == indices@[dim as int]
                    &&& size == self.spec_dims()[dim as int]
                    &&& index >= size
                    &&& forall|i: int| 0 <= i < dim ==> (#[trigger] indices@[i])
                        < self.spec_dims()[i]
                },
                _ => false,
            },
    {
        match self.linear_index(indices) {
            Ok(p) => Ok(self.storage.get(p)),
            Err(e) => Err(e),
        }
    }

    /// Overwrite the element at the given multi-index; the only operation
    /// that mutates an existing tensor.
    ///
    /// Succeeds exactly when the multi-index is valid for the shape, and
    /// then updates that one flat position and nothing else; on failure
    /// the tensor is left entirely unchanged.
    pub fn set(&mut self, indices: &[usize], value: T) -> (r: Result<(), TensorError>)
        requires
            old(self).wf(),
        ensures
            final(self).wf(),
            r is Ok <==> valid_index(old(self).spec_dims(), indices@),
            final(self).spec_dims() == old(self).spec_dims(),
            r is Ok ==> final(self).spec_data() == old(self).spec_data().update(
                flat_of(old(self).spec_dims(), indices@) as int,
                value,
            ),
            r is Err ==> *final(self) == *old(self),
            r matches Err(e) ==> match e {
                TensorError::IndexArityError { expected, actual } => {
                    &&& expected == old(self).spec_dims().len()
                    &&& actual == indices@.len()
                    &&& indices@.len() != old(self).spec_dims().len()
                },
                TensorError::IndexOutOfBounds { dim, index, size } => {
                    &&& indices@.len() == old(self).spec_dims().len()
                    &&& dim < old(self).spec_dims().len()
                    &&& index == indices@[dim as int]
                    &&& size == old(self).spec_dims()[dim as int]
                    &&& index >= size
                    &&& forall|i: int| 0 <= i < dim ==> (#[trigger] indices@[i]) < old(
                        self,
                    ).spec_dims()[i]
                },
                _ => false,
            },
    {
        match self.linear_index(indices) {
            Ok(p) => {
                self.storage.set(p, value);
                Ok(())
            },
            Err(e) => Err(e),
        }
    }

    /// Combine two tensors of identical shape position by position with
    /// `f`, producing a new tensor; the shared implementation of the
    /// element-wise binary operations.
    fn elementwise<F: Fn(T, T) -> T>(&self, other: &Tensor<T>, f: F) -> (r: Result<
        Tensor<T>,
        TensorError,
    >)
        requires
            self.wf(),
            other.wf(),
            forall|x: (T, T)| #[trigger] call_requires(f, x),
        ensures
            r is Ok <==> self.spec_dims() == other.spec_dims(),
            r matches Ok(t) ==> t.wf() && t.spec_dims() == self.spec_dims()
                && t.spec_data().len() == self.spec_data().len() && forall|p: int|
                0 <= p < self.spec_data().len() ==> call_ensures(
                    f,
                    (self.spec_data()[p], other.spec_data()[p]),
                    #[trigger] t.spec_data()[p],
                ),
            r matches Err(e) ==> e matches TensorError::ShapeMismatch { left, right } && left@
                == self.spec_dims() && right@ == other.spec_dims(),
    {
        if !dims_equal(self.shape.dims(), other.shape.dims()) {
            return Err(TensorError::ShapeMismatch {
                left: slice_to_vec(self.shape.dims()),
                right: slice_to_vec(other.shape.dims()),
            });
        }
        let data = combine_elems(&self.storage, &other.storage, f);
        let shape = Shape::new(self.shape.dims());
        Ok(Self::assemble(Storage::from_vec(data), shape))
    }

    /// Element-wise addition: combine `self` and `other` position by
    /// position with `add_op`, the caller's scalar addition.
    ///
    /// Defined only for identical shapes (no broadcasting): fails with a
    /// shape mismatch reporting both shapes exactly when they differ, and
    /// otherwise returns a new tensor whose every element is an `add_op`
    /// result of the two operand elements at the same position.
    pub fn add<F: Fn(T, T) -> T>(&self, other: &Tensor<T>, add_op: F) -> (r: Result<
        Tensor<T>,
        TensorError,
    >)
        requires
            self.wf(),
            other.wf(),
            forall|x: (T, T)| #[trigger] call_requires(add_op, x),
        ensures
            r is Ok <==> self.spec_dims() == other.spec_dims(),
            r matches Ok(t) ==> t.wf() && t.spec_dims() == self.spec_dims()
                && t.spec_data().len() == self.spec_data().len() && forall|p: int|
                0 <= p < self.spec_data().len() ==> call_ensures(
                    add_op,
                    (self.spec_data()[p], other.spec_data()[p]),
                    #[trigger] t.spec_data()[p],
                ),
            r matches Err(e) ==> e matches TensorError::ShapeMismatch { left, right } && left@
                == self.spec_dims() && right@ == other.spec_dims(),
    {
        self.elementwise(other, add_op)
    }

    /// Element-wise subtraction: like `add`, with the caller's scalar
    /// subtraction combining the operands position by position.
    pub fn sub<F: Fn(T, T) -> T>(&self, other: &Tensor<T>, sub_op: F) -> (r: Result<
        Tensor<T>,
        TensorError,
    >)
        requires
            self.wf(),
            other.wf(),
            forall|x: (T, T)| #[trigger] call_requires(sub_op, x),
        ensures
            r is Ok <==> self.spec_dims() == other.spec_dims(),
            r matches Ok(t) ==> t.wf() && t.spec_dims() == self.spec_dims()
                && t.spec_data().len() == self.spec_data().len() && forall|p: int|
                0 <= p < self.spec_data().len() ==> call_ensures(
                    sub_op,
                    (self.spec_data()[p], other.spec_data()[p]),
                    #[trigger] t.spec_data()[p],
                ),
            r matches Err(e) ==> e matches TensorError::ShapeMismatch { left, right } && left@
                == self.spec_dims() && right@ == other.spec_dims(),
    {
        self.elementwise(other, sub_op)
    }

    /// Element-wise (Hadamard) multiplication: like `add`, with the
    /// caller's scalar multiplication combining the operands position by
    /// position.
    pub fn mul<F: Fn(T, T) -> T>(&self, other: &Tensor<T>, mul_op: F) -> (r: Result<
        Tensor<T>,
        TensorError,
    >)
        requires
            self.wf(),
            other.wf(),
            forall|x: (T, T)| #[trigger] call_requires(mul_op, x),
        ensures
            r is Ok <==> self.spec_dims() == other.spec_dims(),
            r matches Ok(t) ==> t.wf() && t.spec_dims() == self.spec_dims()
                && t.spec_data().len() == self.spec_data().len() && forall|p: int|
                0 <= p < self.spec_data().len() ==> call_ensures(
                    mul_op,
                    (self.spec_data()[p], other.spec_data()[p]),
                    #[trigger] t.spec_data()[p],
                ),
            r matches Err(e) ==> e matches TensorError::ShapeMismatch { left, right } && left@
                == self.spec_dims() && right@ == other.spec_dims(),
    {
        self.elementwise(other, mul_op)
    }

    /// Element-wise division: like `add`, with the caller's scalar
    /// division combining the operands position by position. No
    /// divide-by-zero guard is applied here; whatever the supplied
    /// operation returns (for numeric types, an infinity or NaN) is
    /// stored.
    pub fn div<F: Fn(T, T) -> T>(&self, other: &Tensor<T>, div_op: F) -> (r: Result<
        Tensor<T>,
        TensorError,
    >)
        requires
            self.wf(),
            other.wf(),
            forall|x: (T, T)| #[trigger] call_requires(div_op, x),
        ensures
            r is Ok <==> self.spec_dims() == other.spec_dims(),
            r matches Ok(t) ==> t.wf() && t.spec_dims() == self.spec_dims()
                && t.spec_data().len() == self.spec_data().len() && forall|p: int|
                0 <= p < self.spec_data().len() ==> call_ensures(
                    div_op,
                    (self.spec_data()[p], other.spec_data()[p]),
                    #[trigger] t.spec_data()[p],
                ),
            r matches Err(e) ==> e matches TensorError::ShapeMismatch { left, right } && left@
                == self.spec_dims() && right@ == other.spec_dims(),
    {
        self.elementwise(other, div_op)
    }

    /// Apply `add_op` with the scalar as second argument to every element,
    /// producing a new tensor of the same shape. Always succeeds.
    pub fn scalar_add<F: Fn(T, T) -> T>(&self, scalar: T, add_op: F) -> (t: Tensor<T>)
        requires
            self.wf(),
            forall|x: (T, T)| #[trigger] call_requires(add_op, x),
        ensures
            t.wf(),
            t.spec_dims() == self.spec_dims(),
            t.spec_data().len() == self.spec_data().len(),
            forall|p: int| 0 <= p < self.spec_data().len() ==> call_ensures(
                add_op,
                (self.spec_data()[p], scalar),
                #[trigger] t.spec_data()[p],
            ),
    {
        let data = map_scalar(&self.storage, scalar, add_op);
        let shape = Shape::new(self.shape.dims());
        Self::assemble(Storage::from_vec(data), shape)
    }

    /// Apply `mul_op` with the scalar as second argument to every element,
    /// producing a new tensor of the same shape. Always succeeds.
    pub fn scalar_mul<F: Fn(T, T) -> T>(&self, scalar: T, mul_op: F) -> (t: Tensor<T>)
        requires
            self.wf(),
            forall|x: (T, T)| #[trigger] call_requires(mul_op, x),
        ensures
            t.wf(),
            t.spec_dims() == self.spec_dims(),
            t.spec_data().len() == self.spec_data().len(),
            forall|p: int| 0 <= p < self.spec_data().len() ==> call_ensures(
                mul_op,
                (self.spec_data()[p], scalar),
                #[trigger] t.spec_data()[p],
            ),
    {
        let data = map_scalar(&self.storage, scalar, mul_op);
        let shape = Shape::new(self.shape.dims());
        Self::assemble(Storage::from_vec(data), shape)
    }

    /// Apply the unary `neg_op` (the caller's negation) to every element,
    /// producing a new tensor of the same shape. Always succeeds.
    pub fn neg<F: Fn(T) -> T>(&self, neg_op: F) -> (t: Tensor<T>)
        requires
            self.wf(),
            forall|x: (T,)| #[trigger] call_requires(neg_op, x),
        ensures
            t.wf(),
            t.spec_dims() == self.spec_dims(),
            t.spec_data().len() == self.spec_data().len(),
            forall|p: int| 0 <= p < self.spec_data().len() ==> call_ensures(
                neg_op,
                (self.spec_data()[p],),
                #[trigger] t.spec_data()[p],
            ),
    {
        let data = map_unary(&self.storage, neg_op);
        let shape = Shape::new(self.shape.dims());
        Self::assemble(Storage::from_vec(data), shape)
    }

    /// Matrix multiplication, with the caller's scalar addition,
    /// multiplication and zero.
    ///
    /// Both operands must have rank 2 (otherwise a rank error names the
    /// actual rank, checking `self` first) and agreeing inner dimensions
    /// (otherwise a dimension mismatch names all four dimensions). On
    /// success the result has shape `[m, n]`, and its entry at row `i`,
    /// column `j` is an accumulation, starting from `zero` and in
    /// increasing order of the shared dimension, of the products of row
    /// `i` of `self` with column `j` of `other` — the standard naive
    /// triple loop.
    #[verifier::loop_isolation(false)]
    pub fn matmul<FA: Fn(T, T) -> T, FM: Fn(T, T) -> T>(
        &self,
        other: &Tensor<T>,
        zero: T,
        add_op: FA,
        mul_op: FM,
    ) -> (r: Result<Tensor<T>, TensorError>)
        requires
            self.wf(),
            other.wf(),
            forall|x: (T, T)| #[trigger] call_requires(add_op, x),
            forall|x: (T, T)| #[trigger] call_requires(mul_op, x),
        ensures
            r is Ok <==> (self.spec_dims().len() == 2 && other.spec_dims().len() == 2
                && self.spec_dims()[1] == other.spec_dims()[0]),
            r matches Ok(t) ==> {
                &&& t.wf()
                &&& t.spec_dims() == seq![self.spec_dims()[0], other.spec_dims()[1]]
                &&& t.spec_data().len() == (self.spec_dims()[0] as int) * (
                other.spec_dims()[1] as int)
                &&& forall|i: int, j: int|
                    0 <= i < self.spec_dims()[0] && 0 <= j < other.spec_dims()[1] ==> dot_rel(
                        add_op,
                        mul_op,
                        zero,
                        #[trigger] row_seq(self.spec_data(), self.spec_dims()[1] as int, i),
                        #[trigger] col_seq(
                            other.spec_data(),
                            other.spec_dims()[1] as int,
                            other.spec_dims()[0] as int,
                            j,
                        ),
                        t.spec_data()[i * (other.spec_dims()[1] as int) + j],
                    )
            },
            r matches Err(e) ==> match e {
                TensorError::RankError { expected, actual } => {
                    &&& expected == 2
                    &&& if self.spec_dims().len() != 2 {
                        actual == self.spec_dims().len()
                    } else {
                        actual == other.spec_dims().len() && other.spec_dims().len() != 2
                    }
                },
                TensorError::DimensionMismatch { m, k_left, k_right, n } => {
                    &&& self.spec_dims().len() == 2
                    &&& other.spec_dims().len() == 2
                    &&& m == self.spec_dims()[0]
                    &&& k_left == self.spec_dims()[1]
                    &&& k_right == other.spec_dims()[0]
                    &&& n == other.spec_dims()[1]
                    &&& k_left != k_right
                },
                _ => false,
            },
    {
        if self.shape.ndim() != 2 {
            return Err(TensorError::RankError { expected: 2, actual: self.shape.ndim() });
        }
        if other.shape.ndim() != 2 {
            return Err(TensorError::RankError { expected: 2, actual: other.shape.ndim() });
        }
        let sd = self.shape.dims();
        let od = other.shape.dims();
        let m = sd[0];
        let kk = sd[1];
        let k2 = od[0];
        let n = od[1];
        if kk != k2 {
            return Err(TensorError::DimensionMismatch { m, k_left: kk, k_right: k2, n });
        }
        let ghost ad = self.spec_data();
        let ghost bd = other.spec_data();
        proof {
            crate::layout::lemma_product_pair(self.spec_dims());
            crate::layout::lemma_product_pair(other.spec_dims());
            assert(ad.len() == (m as int) * (kk as int));
            assert(bd.len() == (kk as int) * (n as int));
            assert(self.spec_dims().skip(0) =~= self.spec_dims());
            assert(product(self.spec_dims().skip(0)) <= usize::MAX);
            assert(ad.len() <= usize::MAX);
            assert(other.spec_dims().skip(0) =~= other.spec_dims());
            assert(product(other.spec_dims().skip(0)) <= usize::MAX);
            assert(bd.len() <= usize::MAX);
        }
        let mut data: Vec<T> = Vec::new();
        let mut i: usize = 0;
        while i < m
            invariant
                i <= m,
                data@.len() == (i as int) * (n as int),
                forall|a: int, b: int|
                    0 <= a < i && 0 <= b < n ==> dot_rel(
                        add_op,
                        mul_op,
                        zero,
                        #[trigger] row_seq(ad, kk as int, a),
                        #[trigger] col_seq(bd, n as int, kk as int, b),
                        data@[a * (n as int) + b],
                    ),
            decreases m - i,
        {
            let mut j: usize = 0;
            while j < n
                invariant
                    j <= n,
                    data@.len() == (i as int) * (n as int) + (j as int),
                    forall|a: int, b: int|
                        0 <= a < i && 0 <= b < n ==> dot_rel(
                            add_op,
                            mul_op,
                            zero,
                            #[trigger] row_seq(ad, kk as int, a),
                            #[trigger] col_seq(bd, n as int, kk as int, b),
                            data@[a * (n as int) + b],
                        ),
                    forall|b: int|
                        0 <= b < j ==> dot_rel(
                            add_op,
                            mul_op,
                            zero,
                            row_seq(ad, kk as int, i as int),
                            #[trigger] col_seq(bd, n as int, kk as int, b),
                            data@[(i as int) * (n as int) + b],
                        ),
                decreases n - j,
            {
                let ghost row = row_seq(ad, kk as int, i as int);
                let ghost col = col_seq(bd, n as int, kk as int, j as int);
                let mut acc: T = zero;
                let mut k: usize = 0;
                while k < kk
                    invariant
                        k <= kk,
                        dot_rel(
                            add_op,
                            mul_op,
                            zero,
                            row.take(k as int),
                            col.take(k as int),
                            acc,
                        ),
                    decreases kk - k,
                {
                    proof {
                        assert((i as int) * (kk as int) + (k as int) < (m as int) * (kk as int))
                            by (nonlinear_arith)
                            requires
                                0 <= i < m,
                                0 <= k < kk,
                        ;
                        assert((k as int) * (n as int) + (j as int) < (kk as int) * (n as int))
                            by (nonlinear_arith)
                            requires
                                0 <= k < kk,
                                0 <= j < n,
                        ;
                    }
                    let aval = self.storage.get(i * kk + k);
                    let bval = other.storage.get(k * n + j);
                    let pval = mul_op(aval, bval);
                    let acc2 = add_op(acc, pval);
                    proof {
                        assert(row[k as int] == ad[(i as int) * (kk as int) + (k as int)]);
                        assert(col[k as int] == bd[(k as int) * (n as int) + (j as int)]);
                        assert(row.take(k as int).len() == col.take(k as int).len());
                        lemma_dot_rel_push(
                            add_op,
                            mul_op,
                            zero,
                            acc,
                            row.take(k as int),
                            col.take(k as int),
                            aval,
                            bval,
                            pval,
                            acc2,
                        );
                        assert(row.take(k as int).push(row[k as int]) =~= row.take(k + 1));
                        assert(col.take(k as int).push(col[k as int]) =~= col.take(k + 1));
                    }
                    acc = acc2;
                    k = k + 1;
                }
                proof {
                    assert(row.take(kk as int) =~= row);
                    assert(col.take(kk as int) =~= col);
                }
                let ghost pre = data@;
                data.push(acc);
                proof {
                    assert(data@ == pre.push(acc));
                    assert forall|a: int, b: int| 0 <= a < i && 0 <= b < n implies dot_rel(
                        add_op,
                        mul_op,
                        zero,
                        #[trigger] row_seq(ad, kk as int, a),
                        #[trigger] col_seq(bd, n as int, kk as int, b),
                        data@[a * (n as int) + b],
                    ) by {
                        assert(a * (n as int) + b < (i as int) * (n as int) + (j as int))
                            by (nonlinear_arith)
                            requires
                                0 <= a < i,
                                0 <= b < n,
                                0 <= j,
                        ;
                        assert(data@[a * (n as int) + b] == pre[a * (n as int) + b]);
                    }
                    assert(data@[(i as int) * (n as int) + (j as int)] == acc);
                }
                j = j + 1;
            }
            proof {
                assert((i as int) * (n as int) + (n as int) == ((i as int) + 1) * (n as int))
                    by (nonlinear_arith);
            }
            i = i + 1;
        }
        let total = data.len();
        let mut result_dims: Vec<usize> = Vec::new();
        result_dims.push(m);
        result_dims.push(n);
        proof {
            assert(result_dims@ =~= seq![m, n]);
            crate::layout::lemma_product_pair(result_dims@);
            assert(total == data@.len());
            assert(product(result_dims@) == data@.len());
            assert forall|jj: int| 0 <= jj <= result_dims@.len() implies product(
                #[trigger] result_dims@.skip(jj),
            ) <= usize::MAX by {
                if jj == 0 {
                    assert(result_dims@.skip(0) =~= result_dims@);
                    assert(product(result_dims@) == total);
                } else if jj == 1 {
                    assert(result_dims@.skip(1) =~= seq![n]);
                    assert(seq![n].skip(1) =~= Seq::<usize>::empty());
                    assert(product(seq![n].skip(1)) == 1);
                    assert(product(seq![n]) == (n as nat) * product(seq![n].skip(1)));
                } else {
                    assert(result_dims@.skip(2).len() == 0);
                    assert(product(result_dims@.skip(2)) == 1);
                }
            }
        }
        let shape = Shape::new(result_dims.as_slice());
        let t = Self::assemble(Storage::from_vec(data), shape);
        proof {
            assert(t.spec_dims() =~= seq![self.spec_dims()[0], other.spec_dims()[1]]);
        }
        Ok(t)
    }

    /// The human-readable rendering `Tensor(<nested>, shape=<dims>)`.
    ///
    /// `elem_strs` supplies the already formatted text of each element,
    /// one string per flat buffer position in row-major order; the nested
    /// bracket structure, separators, indentation and truncation are
    /// specified character for character by
    /// [`crate::render::display_text`].
    pub fn to_display_string(&self, elem_strs: &Vec<String>) -> (out: String)
        requires
            self.wf(),
            elem_strs@.len() == product(self.spec_dims()),
        ensures
            out@ == crate::render::display_text(self.spec_dims(), elem_strs.deep_view()),
    {
        let mut out = String::new();
        out.append("Tensor(");
        proof {
            assert(self.spec_dims().skip(0) =~= self.spec_dims());
        }
        crate::render::write_level(
            self.shape.dims(),
            self.strides.as_slice(),
            elem_strs,
            0,
            0,
            &mut out,
        );
        out.append(", shape=");
        crate::render::write_dims(self.shape.dims(), &mut out);
        out.append(")");
        proof {
            let ghost dv = elem_strs.deep_view();
            let ghost body = crate::render::level_text(self.spec_dims(), dv, 0, 0);
            let ghost ds = crate::render::dims_text(self.spec_dims());
            assert(out@ =~= "Tensor("@ + body + ", shape="@ + ds + ")"@);
        }
        out
    }
}

} // verus!
