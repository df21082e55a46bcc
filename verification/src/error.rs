//! What a fit run can fail with.

use vstd::prelude::*;

verus! {

/// Why an input was turned away before any work was done.
#[derive(Clone, Copy, Debug, PartialEq, Eq, Structural)]
pub enum InputFault {
    /// The two sample sequences differ in length.
    LengthMismatch { x_len: usize, y_len: usize },
    /// There are no samples.
    NoSamples,
    /// A search space has between one and three axes; this many were given.
    AxisCount { count: usize },
    /// The axis at this position has resolution zero.
    ZeroResolution { axis: usize },
    /// The offsets do not name a candidate of the search space.
    NotACandidate,
    /// A refinement window of half-width zero, or with no grid points.
    EmptyWindow,
    /// There is not one error per candidate: `expected` candidates, `actual`
    /// errors.
    ResultCount { expected: u32, actual: usize },
}

#[derive(Clone, Copy, Debug, PartialEq, Eq, Structural)]
pub enum FitError {
    /// The samples or the axes are malformed.
    InvalidInput(InputFault),
    /// The search space holds `total` candidates, more than `ceiling`.
    SearchSpaceTooLarge { total: u128, ceiling: u32 },
    /// No execution context could be acquired.
    ExecutorUnavailable,
    /// Completion was not observed within the bounded wait.
    DispatchTimeout { waited_ms: u64 },
}

impl FitError {
    /// Whether the error is found by validation, before anything is
    /// dispatched.
    pub open spec fn spec_before_dispatch(self) -> bool {
        self is InvalidInput || self is SearchSpaceTooLarge
    }

    pub fn before_dispatch(&self) -> (r: bool)
        ensures
            r == self.spec_before_dispatch(),
    {
        match self {
            FitError::InvalidInput(_) => true,
            FitError::SearchSpaceTooLarge { .. } => true,
            FitError::ExecutorUnavailable => false,
            FitError::DispatchTimeout { .. } => false,
        }
    }
}

} // verus!
