//! Errors reported by the checked entry points.

use vstd::prelude::*;

verus! {

/// Why an operation refused its inputs.
#[derive(Clone, Copy, Debug, PartialEq, Eq, Structural)]
pub enum LinalgError {
    /// Operand shapes or sizes do not fit together.
    ShapeMismatch,
    /// A position lies outside the matrix or vector.
    IndexOutOfBounds,
    /// The operation needs a square matrix.
    NotSquare,
    /// No vectors were given, or not as many coefficients as vectors.
    EmptyOrMismatchedInput,
}

} // verus!
