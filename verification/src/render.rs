//! Structured textual rendering of a tensor.
//!
//! The output mirrors the dimensional structure: the innermost dimension
//! prints its elements separated by `", "`, every outer dimension wraps
//! its children in brackets, siblings of a non-innermost dimension are
//! separated by a newline and an indent of one space per nesting level,
//! and any dimension longer than six elements shows only its first three
//! and last three, with a literal `"..., "` marker in between. The whole
//! structure is wrapped as `Tensor(<nested>, shape=<dims>)`.
//!
//! Element values reach this module already formatted, as one string per
//! flat buffer position in row-major order; everything else about the
//! output is specified here, character for character.

use crate::layout::{dims_ok, lemma_product_unfold, product};
use vstd::prelude::*;
use vstd::string::StringExecFns;

verus! {

/// Threshold above which a dimension is rendered truncated.
pub open spec fn truncation_threshold() -> int {
    6
}

/// The decimal text of a digit.
pub open spec fn digit_text(d: nat) -> Seq<char> {
    if d == 0 {
        "0"@
    } else if d == 1 {
        "1"@
    } else if d == 2 {
        "2"@
    } else if d == 3 {
        "3"@
    } else if d == 4 {
        "4"@
    } else if d == 5 {
        "5"@
    } else if d == 6 {
        "6"@
    } else if d == 7 {
        "7"@
    } else if d == 8 {
        "8"@
    } else {
        "9"@
    }
}

/// The decimal text of a natural number, most significant digit first.
pub open spec fn dec_text(n: nat) -> Seq<char>
    decreases n,
{
    if n < 10 {
        digit_text(n)
    } else {
        dec_text(n / 10) + digit_text(n % 10)
    }
}

/// `k` spaces: the indent of nesting depth `k`.
pub open spec fn spaces_text(k: int) -> Seq<char>
    decreases k,
{
    if k <= 0 {
        Seq::empty()
    } else {
        spaces_text(k - 1) + " "@
    }
}

/// The comma-separated dimension sizes from position `i` on.
pub open spec fn dims_join_text(dims: Seq<usize>, i: int) -> Seq<char>
    decreases dims.len() - i,
{
    if i < 0 || i >= dims.len() {
        Seq::empty()
    } else if i + 1 < dims.len() {
        dec_text(dims[i] as nat) + ", "@ + dims_join_text(dims, i + 1)
    } else {
        dec_text(dims[i] as nat) + dims_join_text(dims, i + 1)
    }
}

/// The bracketed dimension list, as `Debug` prints a vector: `[2, 3]`.
pub open spec fn dims_text(dims: Seq<usize>) -> Seq<char> {
    "["@ + dims_join_text(dims, 0) + "]"@
}

/// The separator printed after the child at position `i` of dimension
/// `dim`: nothing after the last child; otherwise `", "`, plus a newline
/// and an indent of `dim + 1` spaces when the dimension is not the
/// innermost one.
pub open spec fn sep_text(dims: Seq<usize>, dim: int, i: int) -> Seq<char> {
    if i < (dims[dim] as int) - 1 {
        if dim < dims.len() - 1 {
            ", "@ + "\n"@ + spaces_text(dim + 1)
        } else {
            ", "@
        }
    } else {
        Seq::empty()
    }
}

/// The rendering of the block at nesting depth `dim` whose elements start
/// at flat position `off`: a single element string at the innermost level,
/// and otherwise the children of dimension `dim` wrapped in brackets.
pub open spec fn level_text(dims: Seq<usize>, elems: Seq<Seq<char>>, dim: int, off: int) -> Seq<
    char,
>
    decreases dims.len() - dim + 1, 0int,
{
    if dim < 0 || dim > dims.len() {
        Seq::empty()
    } else if dim == dims.len() {
        if 0 <= off < elems.len() {
            elems[off]
        } else {
            Seq::empty()
        }
    } else {
        "["@ + items_text(dims, elems, dim, 0, off) + "]"@
    }
}

/// The rendering of the children of dimension `dim` from position `i` on,
/// within the block starting at flat position `off`. When the dimension is
/// longer than the truncation threshold, position 3 renders the `"..., "`
/// marker instead of a child and everything strictly between the first
/// three and last three children renders nothing at all.
pub open spec fn items_text(dims: Seq<usize>, elems: Seq<Seq<char>>, dim: int, i: int, off: int) -> Seq<
    char,
>
    decreases dims.len() - dim, (dims[dim] as int) - i,
{
    if !(0 <= dim < dims.len()) {
        Seq::empty()
    } else {
        let size = dims[dim] as int;
        if i < 0 || i >= size {
            Seq::empty()
        } else if size > truncation_threshold() && i == 3 {
            "..., "@ + items_text(dims, elems, dim, i + 1, off)
        } else if size > truncation_threshold() && 3 < i && i < size - 3 {
            items_text(dims, elems, dim, i + 1, off)
        } else {
            level_text(dims, elems, dim + 1, off + i * product(dims.skip(dim + 1))) + sep_text(
                dims,
                dim,
                i,
            ) + items_text(dims, elems, dim, i + 1, off)
        }
    }
}

/// The complete rendering of a tensor whose elements, already formatted,
/// are `elems` in row-major order: `Tensor(<nested>, shape=<dims>)`.
pub open spec fn display_text(dims: Seq<usize>, elems: Seq<Seq<char>>) -> Seq<char> {
    "Tensor("@ + level_text(dims, elems, 0, 0) + ", shape="@ + dims_text(dims) + ")"@
}

/// Append one decimal digit.
fn write_digit(d: usize, out: &mut String)
    requires
        d < 10,
    ensures
        final(out)@ == old(out)@ + digit_text(d as nat),
{
    if d == 0 {
        out.append("0");
    } else if d == 1 {
        out.append("1");
    } else if d == 2 {
        out.append("2");
    } else if d == 3 {
        out.append("3");
    } else if d == 4 {
        out.append("4");
    } else if d == 5 {
        out.append("5");
    } else if d == 6 {
        out.append("6");
    } else if d == 7 {
        out.append("7");
    } else if d == 8 {
        out.append("8");
    } else {
        out.append("9");
    }
}

/// Append the decimal text of `n`.
fn write_dec(n: usize, out: &mut String)
    ensures
        final(out)@ == old(out)@ + dec_text(n as nat),
    decreases n,
{
    if n < 10 {
        write_digit(n, out);
    } else {
        write_dec(n / 10, out);
        write_digit(n % 10, out);
        proof {
            assert((old(out)@ + dec_text((n / 10) as nat)) + digit_text((n % 10) as nat) =~= old(
                out,
            )@ + (dec_text((n / 10) as nat) + digit_text((n % 10) as nat)));
        }
    }
}

/// Append `k` spaces.
fn write_spaces(k: usize, out: &mut String)
    ensures
        final(out)@ == old(out)@ + spaces_text(k as int),
    decreases k,
{
    if k > 0 {
        write_spaces(k - 1, out);
        out.append(" ");
        proof {
            assert((old(out)@ + spaces_text(k - 1)) + " "@ =~= old(out)@ + (spaces_text(k - 1)
                + " "@));
        }
    } else {
        proof {
            assert(old(out)@ + spaces_text(0) =~= old(out)@);
        }
    }
}

/// Append the comma-separated dimension sizes from position `i` on.
fn write_dims_join(dims: &[usize], i: usize, out: &mut String)
    requires
        i <= dims@.len(),
    ensures
        final(out)@ == old(out)@ + dims_join_text(dims@, i as int),
    decreases dims@.len() - i,
{
    if i < dims.len() {
        write_dec(dims[i], out);
        if i + 1 < dims.len() {
            out.append(", ");
            write_dims_join(dims, i + 1, out);
            proof {
                assert(((old(out)@ + dec_text(dims@[i as int] as nat)) + ", "@) + dims_join_text(
                    dims@,
                    i + 1,
                ) =~= old(out)@ + ((dec_text(dims@[i as int] as nat) + ", "@) + dims_join_text(
                    dims@,
                    i + 1,
                )));
            }
        } else {
            write_dims_join(dims, i + 1, out);
            proof {
                assert((old(out)@ + dec_text(dims@[i as int] as nat)) + dims_join_text(dims@, i + 1)
                    =~= old(out)@ + (dec_text(dims@[i as int] as nat) + dims_join_text(
                    dims@,
                    i + 1,
                )));
            }
        }
    } else {
        proof {
            assert(old(out)@ + dims_join_text(dims@, i as int) =~= old(out)@);
        }
    }
}

/// Append the bracketed dimension list.
pub(crate) fn write_dims(dims: &[usize], out: &mut String)
    ensures
        final(out)@ == old(out)@ + dims_text(dims@),
{
    out.append("[");
    write_dims_join(dims, 0, out);
    out.append("]");
    proof {
        assert(((old(out)@ + "["@) + dims_join_text(dims@, 0)) + "]"@ =~= old(out)@ + (("["@
            + dims_join_text(dims@, 0)) + "]"@));
    }
}

/// Append the rendering of the block at nesting depth `dim` starting at
/// flat position `off`.
pub(crate) fn write_level(
    dims: &[usize],
    strides: &[usize],
    elems: &Vec<String>,
    dim: usize,
    off: usize,
    out: &mut String,
)
    requires
        dims_ok(dims@),
        strides@.len() == dims@.len(),
        forall|t: int| 0 <= t < dims@.len() ==> strides@[t] == product(#[trigger] dims@.skip(t + 1)),
        elems@.len() == product(dims@),
        dim <= dims@.len(),
        off + product(dims@.skip(dim as int)) <= elems@.len(),
    ensures
        final(out)@ == old(out)@ + level_text(dims@, elems.deep_view(), dim as int, off as int),
    decreases dims@.len() - dim + 1, 0int,
{
    if dim == dims.len() {
        proof {
            assert(dims@.skip(dim as int).len() == 0);
            assert(product(dims@.skip(dim as int)) == 1);
            assert(elems.deep_view()[off as int] == elems@[off as int]@);
        }
        let s = &elems[off];
        out.append(s.as_str());
    } else {
        out.append("[");
        write_items(dims, strides, elems, dim, 0, off, out);
        out.append("]");
        proof {
            let ghost body = items_text(dims@, elems.deep_view(), dim as int, 0, off as int);
            assert(((old(out)@ + "["@) + body) + "]"@ =~= old(out)@ + (("["@ + body) + "]"@));
        }
    }
}

/// Append the rendering of the children of dimension `dim` from position
/// `i` on; `off` is the flat position where the whole block of dimension
/// `dim` starts.
pub(crate) fn write_items(
    dims: &[usize],
    strides: &[usize],
    elems: &Vec<String>,
    dim: usize,
    i: usize,
    off: usize,
    out: &mut String,
)
    requires
        dims_ok(dims@),
        strides@.len() == dims@.len(),
        forall|t: int| 0 <= t < dims@.len() ==> strides@[t] == product(#[trigger] dims@.skip(t + 1)),
        elems@.len() == product(dims@),
        dim < dims@.len(),
        i <= dims@[dim as int],
        off + product(dims@.skip(dim as int)) <= elems@.len(),
    ensures
        final(out)@ == old(out)@ + items_text(
            dims@,
            elems.deep_view(),
            dim as int,
            i as int,
            off as int,
        ),
    decreases dims@.len() - dim, dims@[dim as int] - i,
{
    let ghost dv = elems.deep_view();
    let size = dims[dim];
    if i >= size {
        proof {
            assert(old(out)@ + items_text(dims@, dv, dim as int, i as int, off as int) =~= old(
                out,
            )@);
        }
        return ;
    }
    let truncated = size > 6;
    if truncated && i == 3 {
        out.append("..., ");
        write_items(dims, strides, elems, dim, i + 1, off, out);
        proof {
            assert((old(out)@ + "..., "@) + items_text(dims@, dv, dim as int, i + 1, off as int)
                =~= old(out)@ + ("..., "@ + items_text(dims@, dv, dim as int, i + 1, off as int)));
        }
    } else if truncated && i > 3 && i < size - 3 {
        write_items(dims, strides, elems, dim, i + 1, off, out);
    } else {
        proof {
            lemma_product_unfold(dims@, dim as int);
            assert(dims@.skip(0) =~= dims@);
            assert(product(dims@.skip(0)) <= usize::MAX);
            assert(((i as int) + 1) * product(dims@.skip(dim + 1)) <= (size as int) * product(
                dims@.skip(dim + 1),
            )) by (nonlinear_arith)
                requires
                    0 <= i,
                    (i as int) + 1 <= size as int,
                    product(dims@.skip(dim + 1)) >= 0,
            ;
            assert((i as int) * product(dims@.skip(dim + 1)) + product(dims@.skip(dim + 1)) == ((
            i as int) + 1) * product(dims@.skip(dim + 1))) by (nonlinear_arith);
        }
        let child_off = off + i * strides[dim];
        write_level(dims, strides, elems, dim + 1, child_off, out);
        let ghost after_child = out@;
        let ghost child = level_text(dims@, dv, dim + 1, child_off as int);
        if i < size - 1 {
            out.append(", ");
            if dim + 1 < dims.len() {
                out.append("\n");
                write_spaces(dim + 1, out);
                proof {
                    assert(((after_child + ", "@) + "\n"@) + spaces_text(dim + 1) =~= after_child
                        + (", "@ + "\n"@ + spaces_text(dim + 1)));
                }
            }
        }
        let ghost after_sep = out@;
        proof {
            assert(after_sep =~= after_child + sep_text(dims@, dim as int, i as int));
        }
        write_items(dims, strides, elems, dim, i + 1, off, out);
        proof {
            let ghost rest = items_text(dims@, dv, dim as int, i + 1, off as int);
            assert(out@ =~= old(out)@ + (child + sep_text(dims@, dim as int, i as int) + rest));
        }
    }
}

} // verus!
