//! The failures that the library reports to its callers.

use vstd::prelude::*;

verus! {

/// One of the two matrices of a constraint system that are held against
/// the first, `A`.
#[derive(Debug, Clone, Copy, PartialEq, Eq)]
pub enum ConstraintMatrix {
    B,
    C,
}

/// A failure that a caller is expected to branch on.
#[derive(Debug, Clone, Copy, PartialEq, Eq)]
pub enum Error {
    /// Matrices that must share one shape do not: the matrix that differs
    /// from `A`, the shape of `A`, as (rows, columns), and the shape that
    /// was found.
    DimensionMismatch { matrix: ConstraintMatrix, expected: (usize, usize), got: (usize, usize) },
    /// The secret that was offered does not open the commitment.
    CommitmentOpenFailure,
    /// The noise recovered while opening holds an entry whose distance
    /// from zero is `dist`, which is beyond the bound `bound`.
    ErrorBoundExceeded { dist: u128, bound: u128 },
    /// A draw landed outside every bucket of a cumulative table.
    InvariantViolation,
}

} // verus!
