//! Error conditions reported by tensor operations.

use vstd::prelude::*;

verus! {

/// A failed tensor operation.
///
/// Every variant carries the concrete offending values, so a caller can
/// report exactly what was expected and what was found. A failing call
/// never leaves a partially updated tensor behind.
#[derive(Clone, Debug)]
pub enum TensorError {
    /// Operand shapes differ where element-wise equality is required.
    ShapeMismatch { left: Vec<usize>, right: Vec<usize> },
    /// A flat data buffer does not hold the element count its declared
    /// shape demands.
    LengthMismatch { expected: usize, actual: usize },
    /// The number of supplied indices differs from the tensor's rank.
    IndexArityError { expected: usize, actual: usize },
    /// An index coordinate reaches past its dimension's size. `dim` is the
    /// first offending dimension.
    IndexOutOfBounds { dim: usize, index: usize, size: usize },
    /// An operation requiring a specific rank (matrix multiplication
    /// requires rank 2) received an operand of a different rank.
    RankError { expected: usize, actual: usize },
    /// The inner dimensions of a matrix multiplication disagree; all four
    /// dimensions of the two operands are named.
    DimensionMismatch { m: usize, k_left: usize, k_right: usize, n: usize },
}

} // verus!
