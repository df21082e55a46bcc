//! The report of a fit: the value that the fitted curve predicts for every
//! sample, beside the sample's `x`.

use vstd::prelude::*;
use crate::bits::F32;
use crate::error::{FitError, InputFault};
use crate::samples::SampleStore;

verus! {

/// The rows of a report: the `x` of every sample with the value predicted
/// for it, in the order of the samples.
pub open spec fn report_rows(xs: Seq<F32>, predicted: Seq<F32>) -> Seq<(F32, F32)> {
    Seq::new(xs.len(), |i: int| (xs[i], predicted[i]))
}

/// Pairs every sample's `x` with the value predicted for it. There is no
/// report unless there is one predicted value for each sample.
pub fn align(samples: &SampleStore, predicted: &Vec<F32>) -> (r: Result<Vec<(F32, F32)>, FitError>)
    ensures
        match r {
            Ok(rows) => {
                &&& predicted@.len() == samples@.len()
                &&& rows@ == report_rows(samples.xs(), predicted@)
            },
            Err(e) => {
                &&& predicted@.len() != samples@.len()
                &&& e == FitError::InvalidInput(
                    InputFault::LengthMismatch {
                        x_len: samples@.len() as usize,
                        y_len: predicted@.len() as usize,
                    },
                )
            },
        },
{
    let n = samples.len();
    if predicted.len() != n {
        return Err(
            FitError::InvalidInput(InputFault::LengthMismatch { x_len: n, y_len: predicted.len() }),
        );
    }
    let xs = samples.x_values();
    let mut rows: Vec<(F32, F32)> = Vec::new();
    let mut i: usize = 0;
    while i < n
        invariant
            i <= n,
            n == xs@.len(),
            n == predicted@.len(),
            rows@ == report_rows(xs@.take(i as int), predicted@),
        decreases n - i,
    {
        rows.push((xs[i], predicted[i]));
        proof {
            assert(rows@ =~= report_rows(xs@.take(i + 1), predicted@));
        }
        i += 1;
    }
    proof {
        assert(xs@.take(n as int) =~= xs@);
    }
    Ok(rows)
}

} // verus!
