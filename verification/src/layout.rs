//! Row-major layout arithmetic.
//!
//! A shape is a sequence of dimension sizes. This module defines, at the
//! specification level, the element count of a shape, the translation of a
//! multi-index into a flat buffer position, and the inverse translation,
//! together with the lemmas that make the pair a bijection between valid
//! multi-indices and positions below the element count.

use vstd::arithmetic::div_mod::{
    lemma_fundamental_div_mod, lemma_fundamental_div_mod_converse,
    lemma_mod_division_less_than_divisor, lemma_multiply_divide_lt,
};
use vstd::prelude::*;

verus! {

/// Number of elements held by a buffer of the given dimensions: the product
/// of all sizes, with the empty product equal to 1 (a scalar).
pub open spec fn product(dims: Seq<usize>) -> nat
    decreases dims.len(),
{
    if dims.len() == 0 {
        1
    } else {
        (dims[0] as nat) * product(dims.skip(1))
    }
}

/// The machine can hold the element count of every suffix of `dims`.
///
/// Every stride is the element count of a suffix, so this is exactly what
/// stride and element-count computations need to stay within `usize`.
pub open spec fn dims_ok(dims: Seq<usize>) -> bool {
    forall|j: int| 0 <= j <= dims.len() ==> product(#[trigger] dims.skip(j)) <= usize::MAX
}

/// `idx` is a well-formed multi-index for `dims`: one coordinate per
/// dimension, each strictly below its dimension size.
pub open spec fn valid_index(dims: Seq<usize>, idx: Seq<usize>) -> bool {
    &&& idx.len() == dims.len()
    &&& forall|i: int| 0 <= i < dims.len() ==> (#[trigger] idx[i]) < dims[i]
}

/// Row-major flat position of the multi-index `idx` within `dims`:
/// the sum of `idx[i]` times the element count of the dimensions after `i`.
pub open spec fn flat_of(dims: Seq<usize>, idx: Seq<usize>) -> nat
    decreases dims.len(),
{
    if dims.len() == 0 {
        0
    } else {
        (idx[0] as nat) * product(dims.skip(1)) + flat_of(dims.skip(1), idx.skip(1))
    }
}

/// The multi-index that the flat position `p` decodes to under `dims`:
/// the inverse of `flat_of` for positions below the element count.
pub open spec fn unflatten(dims: Seq<usize>, p: nat) -> Seq<usize>
    decreases dims.len(),
{
    if dims.len() == 0 {
        Seq::empty()
    } else {
        seq![((p / product(dims.skip(1))) as usize)] + unflatten(dims.skip(1), p % product(dims.skip(1)))
    }
}

/// Unfolding step for `product`: splitting off dimension `j` of a suffix.
pub proof fn lemma_product_unfold(dims: Seq<usize>, j: int)
    requires
        0 <= j < dims.len(),
    ensures
        product(dims.skip(j)) == (dims[j] as nat) * product(dims.skip(j + 1)),
{
    assert(dims.skip(j).skip(1) =~= dims.skip(j + 1));
    assert(dims.skip(j)[0] == dims[j]);
}

/// The element count of all-positive dimensions is positive.
pub proof fn lemma_product_pos(dims: Seq<usize>)
    requires
        forall|i: int| 0 <= i < dims.len() ==> (#[trigger] dims[i]) >= 1,
    ensures
        product(dims) >= 1,
    decreases dims.len(),
{
    if dims.len() > 0 {
        assert(forall|i: int|
            0 <= i < dims.skip(1).len() ==> (#[trigger] dims.skip(1)[i]) >= 1 && dims.skip(1)[i]
                == dims[i + 1]);
        lemma_product_pos(dims.skip(1));
        assert(product(dims) == (dims[0] as nat) * product(dims.skip(1)));
        assert((dims[0] as nat) * product(dims.skip(1)) >= 1) by (nonlinear_arith)
            requires
                dims[0] >= 1,
                product(dims.skip(1)) >= 1,
        ;
    }
}

/// A scalar shape (no dimensions) holds exactly one element.
///
/// Law: the element count of the empty dimension list is 1.
pub proof fn lemma_product_empty()
    ensures
        product(Seq::<usize>::empty()) == 1,
{
}

/// The element count of a two-dimensional shape is the product of its two
/// sizes.
pub proof fn lemma_product_pair(dims: Seq<usize>)
    requires
        dims.len() == 2,
    ensures
        product(dims) == (dims[0] as nat) * (dims[1] as nat),
{
    lemma_product_unfold(dims, 1);
    assert(dims.skip(0) =~= dims);
    assert(dims.skip(2).len() == 0);
    assert(product(dims.skip(2)) == 1);
    assert(product(dims.skip(1)) == (dims[1] as nat) * 1);
    assert(product(dims) == (dims[0] as nat) * product(dims.skip(1)));
    assert((dims[0] as nat) * ((dims[1] as nat) * 1) == (dims[0] as nat) * (dims[1] as nat))
        by (nonlinear_arith);
}

/// Restricting a valid multi-index to a suffix of the dimensions keeps it
/// valid for that suffix.
pub proof fn lemma_valid_index_skip(dims: Seq<usize>, idx: Seq<usize>, j: int)
    requires
        valid_index(dims, idx),
        0 <= j <= dims.len(),
    ensures
        valid_index(dims.skip(j), idx.skip(j)),
{
    assert forall|i: int| 0 <= i < dims.skip(j).len() implies (#[trigger] idx.skip(j)[i])
        < dims.skip(j)[i] by {
        assert(idx.skip(j)[i] == idx[i + j]);
        assert(dims.skip(j)[i] == dims[i + j]);
    }
}

/// Law: every valid multi-index maps to a flat position strictly below the
/// element count of its shape.
pub proof fn lemma_flat_bound(dims: Seq<usize>, idx: Seq<usize>)
    requires
        valid_index(dims, idx),
    ensures
        flat_of(dims, idx) < product(dims),
    decreases dims.len(),
{
    if dims.len() > 0 {
        lemma_valid_index_skip(dims, idx, 1);
        lemma_flat_bound(dims.skip(1), idx.skip(1));
        let s = product(dims.skip(1));
        let rest = flat_of(dims.skip(1), idx.skip(1));
        assert((idx[0] as nat) * s + rest < (dims[0] as nat) * s) by (nonlinear_arith)
            requires
                (idx[0] as nat) < (dims[0] as nat),
                rest < s,
        ;
    }
}

/// Law: decoding any flat position below the element count yields a valid
/// multi-index that encodes back to the same position.
///
/// Together with [`lemma_unflatten_flat`] this makes encoding and decoding
/// a bijection, so reading back every multi-index of a freshly constructed
/// tensor reproduces the flat buffer it was built from, element by element.
pub proof fn lemma_unflatten_props(dims: Seq<usize>, p: nat)
    requires
        p < product(dims),
    ensures
        unflatten(dims, p).len() == dims.len(),
        valid_index(dims, unflatten(dims, p)),
        flat_of(dims, unflatten(dims, p)) == p,
    decreases dims.len(),
{
    if dims.len() == 0 {
        assert(p == 0);
    } else {
        let s = product(dims.skip(1));
        assert(product(dims) == (dims[0] as nat) * s);
        assert(s >= 1 && dims[0] >= 1) by {
            if s == 0 || dims[0] == 0 {
                assert((dims[0] as nat) * s == 0) by (nonlinear_arith)
                    requires
                        dims[0] == 0 || s == 0,
                ;
            }
        }
        let q = p / s;
        let r = p % s;
        assert(q < dims[0]) by {
            assert((s as int) * (dims[0] as int) == (dims[0] as nat) * s) by (nonlinear_arith);
            lemma_multiply_divide_lt(p as int, s as int, dims[0] as int);
        }
        assert(r < s) by {
            lemma_mod_division_less_than_divisor(p as int, s as int);
        }
        lemma_unflatten_props(dims.skip(1), r);
        let u = unflatten(dims, p);
        let tail = unflatten(dims.skip(1), r);
        assert(u == seq![(q as usize)] + tail);
        assert(u.len() == dims.len());
        assert(u.skip(1) =~= tail);
        assert forall|i: int| 0 <= i < dims.len() implies (#[trigger] u[i]) < dims[i] by {
            if i == 0 {
                assert(u[0] == q as usize);
            } else {
                assert(u[i] == tail[i - 1]);
                assert(tail[i - 1] < dims.skip(1)[i - 1]);
                assert(dims.skip(1)[i - 1] == dims[i]);
            }
        }
        assert(flat_of(dims, u) == (u[0] as nat) * s + flat_of(dims.skip(1), u.skip(1)));
        assert(flat_of(dims.skip(1), tail) == r);
        assert(p == (q as nat) * s + r) by {
            lemma_fundamental_div_mod(p as int, s as int);
            assert((s as int) * ((p as int) / (s as int)) == (q as nat) * s) by (nonlinear_arith)
                requires
                    q == p / s,
                    s >= 1,
            ;
        }
    }
}

/// Law: encoding a valid multi-index and decoding the result gives the
/// multi-index back.
///
/// This is the other half of the round trip stated at
/// [`lemma_unflatten_props`], and it makes `flat_of` injective on valid
/// multi-indices.
pub proof fn lemma_unflatten_flat(dims: Seq<usize>, idx: Seq<usize>)
    requires
        valid_index(dims, idx),
    ensures
        unflatten(dims, flat_of(dims, idx)) == idx,
    decreases dims.len(),
{
    if dims.len() == 0 {
        assert(unflatten(dims, flat_of(dims, idx)) =~= idx);
    } else {
        lemma_valid_index_skip(dims, idx, 1);
        let s = product(dims.skip(1));
        assert(s >= 1) by {
            assert forall|i: int| 0 <= i < dims.skip(1).len() implies (#[trigger] dims.skip(1)[i])
                >= 1 by {
                assert(dims.skip(1)[i] == dims[i + 1]);
                assert(idx[i + 1] < dims[i + 1]);
            }
            lemma_product_pos(dims.skip(1));
        }
        let r = flat_of(dims.skip(1), idx.skip(1));
        lemma_flat_bound(dims.skip(1), idx.skip(1));
        let f = flat_of(dims, idx);
        assert(f == (idx[0] as nat) * s + r);
        assert(f / s == idx[0] && f % s == r) by {
            assert((f as int) == (idx[0] as int) * (s as int) + (r as int)) by (nonlinear_arith)
                requires
                    f == (idx[0] as nat) * s + r,
            ;
            lemma_fundamental_div_mod_converse(f as int, s as int, idx[0] as int, r as int);
        }
        lemma_unflatten_flat(dims.skip(1), idx.skip(1));
        assert(unflatten(dims, f) == seq![idx[0]] + unflatten(dims.skip(1), r));
        assert(seq![idx[0]] + idx.skip(1) =~= idx);
    }
}

/// Law: distinct valid multi-indices occupy distinct flat positions.
pub proof fn lemma_flat_injective(dims: Seq<usize>, a: Seq<usize>, b: Seq<usize>)
    requires
        valid_index(dims, a),
        valid_index(dims, b),
        flat_of(dims, a) == flat_of(dims, b),
    ensures
        a == b,
{
    lemma_unflatten_flat(dims, a);
    lemma_unflatten_flat(dims, b);
}

/// `a` comes strictly before `b` in lexicographic order (outermost
/// coordinate most significant).
pub open spec fn lex_less(a: Seq<usize>, b: Seq<usize>) -> bool
    decreases a.len(),
{
    if a.len() == 0 || b.len() == 0 {
        false
    } else if a[0] < b[0] {
        true
    } else if a[0] == b[0] {
        lex_less(a.skip(1), b.skip(1))
    } else {
        false
    }
}

/// A lexicographically smaller valid multi-index maps to a smaller flat
/// position.
proof fn lemma_lex_less_flat(dims: Seq<usize>, a: Seq<usize>, b: Seq<usize>)
    requires
        valid_index(dims, a),
        valid_index(dims, b),
        lex_less(a, b),
    ensures
        flat_of(dims, a) < flat_of(dims, b),
    decreases dims.len(),
{
    let s = product(dims.skip(1));
    lemma_valid_index_skip(dims, a, 1);
    lemma_valid_index_skip(dims, b, 1);
    lemma_flat_bound(dims.skip(1), a.skip(1));
    lemma_flat_bound(dims.skip(1), b.skip(1));
    let ra = flat_of(dims.skip(1), a.skip(1));
    let rb = flat_of(dims.skip(1), b.skip(1));
    if a[0] < b[0] {
        assert((a[0] as nat) * s + ra < (b[0] as nat) * s + rb) by (nonlinear_arith)
            requires
                (a[0] as nat) < (b[0] as nat),
                ra < s,
                0 <= rb,
        ;
    } else {
        lemma_lex_less_flat(dims.skip(1), a.skip(1), b.skip(1));
    }
}

/// Same-length multi-indices are equal or lexicographically ordered one
/// way or the other.
proof fn lemma_lex_trichotomy(a: Seq<usize>, b: Seq<usize>)
    requires
        a.len() == b.len(),
    ensures
        a == b || lex_less(a, b) || lex_less(b, a),
    decreases a.len(),
{
    if a.len() == 0 {
        assert(a =~= b);
    } else if a[0] == b[0] {
        lemma_lex_trichotomy(a.skip(1), b.skip(1));
        if a.skip(1) == b.skip(1) {
            assert forall|i: int| 0 <= i < a.len() implies a[i] == b[i] by {
                if i > 0 {
                    assert(a[i] == a.skip(1)[i - 1]);
                    assert(b[i] == b.skip(1)[i - 1]);
                }
            }
            assert(a =~= b);
        }
    }
}

/// Law: the flat positions of valid multi-indices are ordered exactly as
/// the multi-indices are ordered lexicographically.
///
/// Reading back every multi-index of a tensor in lexicographic order
/// therefore walks the flat buffer in increasing order of position; with
/// the round trip of [`lemma_unflatten_props`] it reproduces the buffer a
/// tensor was constructed from, in order.
pub proof fn lemma_flat_respects_lex_order(dims: Seq<usize>, a: Seq<usize>, b: Seq<usize>)
    requires
        valid_index(dims, a),
        valid_index(dims, b),
    ensures
        lex_less(a, b) <==> flat_of(dims, a) < flat_of(dims, b),
{
    if lex_less(a, b) {
        lemma_lex_less_flat(dims, a, b);
    } else {
        lemma_lex_trichotomy(a, b);
        if a == b {
        } else {
            lemma_lex_less_flat(dims, b, a);
        }
    }
}

/// Law: writing one multi-index of a buffer leaves the element read back at
/// every other valid multi-index unchanged.
pub proof fn lemma_set_is_local<T>(
    data: Seq<T>,
    dims: Seq<usize>,
    target: Seq<usize>,
    other: Seq<usize>,
    value: T,
)
    requires
        data.len() == product(dims),
        valid_index(dims, target),
        valid_index(dims, other),
        target != other,
    ensures
        data.update(flat_of(dims, target) as int, value)[flat_of(dims, other) as int] == data[flat_of(
            dims,
            other,
        ) as int],
{
    lemma_flat_bound(dims, target);
    lemma_flat_bound(dims, other);
    if flat_of(dims, target) == flat_of(dims, other) {
        lemma_flat_injective(dims, target, other);
    }
}

} // verus!
