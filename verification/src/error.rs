//! Why an operation was refused.

use vstd::prelude::*;

verus! {

/// The ways in which an accumulator refuses a request.
#[derive(Clone, Copy, Debug, PartialEq, Eq, Structural)]
pub enum CpaError {
    /// Sizes that are zero or too large, arrays whose dimensions do not
    /// agree with the accumulator's, or accumulators of different
    /// dimensions.
    ShapeMismatch,
    /// A result was asked of an accumulator that holds no trace, or that has
    /// never been finalised.
    EmptyAccumulator,
    /// A correlation was asked for where the samples or the hypotheses have
    /// no variance, so that none exists. A finalisation does not fail on
    /// this: it marks the entry as undefined and leaves it out of every
    /// comparison.
    DegenerateStatistics,
}

} // verus!
