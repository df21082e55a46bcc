//! The sample store: the paired measurements of one fit run, fixed once
//! built.

use vstd::prelude::*;
use crate::bits::F32;
use crate::error::{FitError, InputFault};

verus! {

/// Paired `(x, y)` samples; there is at least one pair.
pub struct SampleStore {
    xs: Vec<F32>,
    ys: Vec<F32>,
}

/// What is wrong with two sample sequences, or `None` if they can be stored.
/// A difference in length is reported before emptiness.
pub open spec fn sample_fault(xs: Seq<F32>, ys: Seq<F32>) -> Option<InputFault> {
    if xs.len() != ys.len() {
        Some(InputFault::LengthMismatch { x_len: xs.len() as usize, y_len: ys.len() as usize })
    } else if xs.len() == 0 {
        Some(InputFault::NoSamples)
    } else {
        None
    }
}

impl SampleStore {
    #[verifier::type_invariant]
    spec fn well_formed(self) -> bool {
        self.xs.len() == self.ys.len() && self.xs.len() >= 1
    }

    /// The independent values, in the order given.
    pub closed spec fn xs(self) -> Seq<F32> {
        self.xs@
    }

    /// The dependent values, in the order given.
    pub closed spec fn ys(self) -> Seq<F32> {
        self.ys@
    }

    /// The samples as pairs.
    pub open spec fn view(self) -> Seq<(F32, F32)> {
        Seq::new(self.xs().len(), |i: int| (self.xs()[i], self.ys()[i]))
    }

    /// What holds of every store.
    pub open spec fn valid(self) -> bool {
        self.xs().len() == self.ys().len() && self.xs().len() >= 1
    }

    /// Stores the samples, unless the sequences differ in length or are
    /// empty.
    pub fn new(xs: Vec<F32>, ys: Vec<F32>) -> (r: Result<SampleStore, FitError>)
        ensures
            match r {
                Ok(store) => {
                    &&& sample_fault(xs@, ys@) is None
                    &&& store.xs() == xs@
                    &&& store.ys() == ys@
                    &&& store.valid()
                },
                Err(e) => sample_fault(xs@, ys@) == Some(e->InvalidInput_0) && e is InvalidInput,
            },
    {
        if xs.len() != ys.len() {
            return Err(
                FitError::InvalidInput(
                    InputFault::LengthMismatch { x_len: xs.len(), y_len: ys.len() },
                ),
            );
        }
        if xs.len() == 0 {
            return Err(FitError::InvalidInput(InputFault::NoSamples));
        }
        Ok(SampleStore { xs, ys })
    }

    /// The number of samples.
    pub fn len(&self) -> (n: usize)
        ensures
            n == self@.len(),
            n >= 1,
            self.valid(),
    {
        proof {
            use_type_invariant(self);
        }
        self.xs.len()
    }

    /// The sample at position `i`, if there is one.
    pub fn get(&self, i: usize) -> (r: Option<(F32, F32)>)
        ensures
            r == if i < self@.len() {
                Some(self@[i as int])
            } else {
                None
            },
    {
        proof {
            use_type_invariant(self);
        }
        if i < self.xs.len() {
            Some((self.xs[i], self.ys[i]))
        } else {
            None
        }
    }

    /// The independent values.
    pub fn x_values(&self) -> (v: &Vec<F32>)
        ensures
            v@ == self.xs(),
    {
        &self.xs
    }

    /// The dependent values.
    pub fn y_values(&self) -> (v: &Vec<F32>)
        ensures
            v@ == self.ys(),
    {
        &self.ys
    }
}

} // verus!
