//! The search space: up to three parameter axes, the number of candidates,
//! and the bijection between a flat candidate index and one grid offset per
//! axis.
//!
//! An axis of resolution `n` has the `n` candidates `min + k * step` for
//! `k` in `0..n`, with `step = (max - min) / n`: `min` is a candidate, `max`
//! is not. The first axis varies slowest.

use vstd::prelude::*;
use crate::bits::F32;
use crate::error::{FitError, InputFault};
use crate::radix::{
    decode, digits_valid, encode, lemma_decode_encode, lemma_decode_valid, lemma_encode_bound,
    lemma_encode_decode, lemma_product_prefix, product, product_of, radices_of, radices_valid,
};

verus! {

/// The most axes a search space can have.
pub const MAX_AXES: usize = 3;

/// One parameter axis: its bounds and the number of grid points on it.
#[derive(Clone, Debug, PartialEq, Eq)]
pub struct ParameterAxis {
    pub name: String,
    pub min: F32,
    pub max: F32,
    pub resolution: u32,
}

/// An ordered sequence of one to three axes whose candidate count is within
/// the ceiling it was built with.
pub struct SearchSpace {
    axes: Vec<ParameterAxis>,
    total: u32,
}

/// The resolutions of a sequence of axes, in order.
pub open spec fn resolutions_of(axes: Seq<ParameterAxis>) -> Seq<int> {
    Seq::new(axes.len(), |k: int| axes[k].resolution as int)
}

/// The position of the first axis with resolution zero, if there is one.
pub open spec fn first_zero_resolution(axes: Seq<ParameterAxis>) -> Option<int> {
    if exists|k: int| 0 <= k < axes.len() && axes[k].resolution == 0 {
        Some(
            choose|k: int|
                0 <= k < axes.len() && axes[k].resolution == 0 && forall|j: int|
                    0 <= j < k ==> axes[j].resolution != 0,
        )
    } else {
        None
    }
}

/// Offsets as mathematical integers.
pub open spec fn offsets_of(offsets: Seq<u32>) -> Seq<int> {
    Seq::new(offsets.len(), |k: int| offsets[k] as int)
}

/// Why a sequence of axes cannot be a search space under `ceiling`, or `None`
/// if it can. The number of axes is looked at first, then the resolutions,
/// then the candidate count.
pub open spec fn rejection(axes: Seq<ParameterAxis>, ceiling: u32) -> Option<FitError> {
    if axes.len() < 1 || axes.len() > MAX_AXES {
        Some(FitError::InvalidInput(InputFault::AxisCount { count: axes.len() as usize }))
    } else if first_zero_resolution(axes) is Some {
        Some(
            FitError::InvalidInput(
                InputFault::ZeroResolution { axis: first_zero_resolution(axes).unwrap() as usize },
            ),
        )
    } else if product(resolutions_of(axes)) > ceiling {
        Some(
            FitError::SearchSpaceTooLarge {
                total: product(resolutions_of(axes)) as u128,
                ceiling,
            },
        )
    } else {
        None
    }
}

/// The position of the first axis with resolution zero.
fn find_zero_resolution(axes: &Vec<ParameterAxis>) -> (r: Option<usize>)
    ensures
        match r {
            Some(k) => first_zero_resolution(axes@) == Some(k as int),
            None => first_zero_resolution(axes@) is None && radices_valid(resolutions_of(axes@)),
        },
{
    let mut k: usize = 0;
    while k < axes.len()
        invariant
            k <= axes.len(),
            forall|j: int| 0 <= j < k ==> axes@[j].resolution != 0,
        decreases axes.len() - k,
    {
        if axes[k].resolution == 0 {
            return Some(k);
        }
        k += 1;
    }
    assert forall|j: int| 0 <= j < resolutions_of(axes@).len() implies #[trigger] resolutions_of(
        axes@,
    )[j] >= 1 by {
        assert(axes@[j].resolution != 0);
    }
    None
}

impl SearchSpace {
    #[verifier::type_invariant]
    spec fn well_formed(self) -> bool {
        &&& 1 <= self.axes.len() <= MAX_AXES
        &&& radices_valid(resolutions_of(self.axes@))
        &&& self.total == product(resolutions_of(self.axes@))
    }

    /// The axes, in order.
    pub closed spec fn axes(self) -> Seq<ParameterAxis> {
        self.axes@
    }

    /// The resolutions, in the order of the axes.
    pub open spec fn resolutions(self) -> Seq<int> {
        resolutions_of(self.axes())
    }

    /// The number of candidates.
    pub open spec fn total_spec(self) -> int {
        product(self.resolutions())
    }

    /// What holds of every search space.
    pub open spec fn valid(self) -> bool {
        &&& 1 <= self.axes().len() <= MAX_AXES
        &&& radices_valid(self.resolutions())
        &&& 1 <= self.total_spec() <= u32::MAX
    }

    /// Builds the search space over `axes`, unless there are no axes or more
    /// than three, an axis has resolution zero, or the candidates number more
    /// than `ceiling`.
    pub fn new(axes: Vec<ParameterAxis>, ceiling: u32) -> (r: Result<SearchSpace, FitError>)
        ensures
            match r {
                Ok(space) => {
                    &&& rejection(axes@, ceiling) is None
                    &&& space.axes() == axes@
                    &&& space.valid()
                    &&& space.total_spec() <= ceiling
                },
                Err(e) => rejection(axes@, ceiling) == Some(e),
            },
    {
        let n = axes.len();
        if n < 1 || n > MAX_AXES {
            return Err(FitError::InvalidInput(InputFault::AxisCount { count: n }));
        }
        if let Some(k) = find_zero_resolution(&axes) {
            return Err(FitError::InvalidInput(InputFault::ZeroResolution { axis: k }));
        }
        let ghost radices = resolutions_of(axes@);
        let mut sides: Vec<u64> = Vec::new();
        let mut k: usize = 0;
        while k < n
            invariant
                n == axes.len(),
                k <= n,
                sides.len() == k,
                forall|j: int| 0 <= j < k ==> #[trigger] sides[j] == axes@[j].resolution,
            decreases n - k,
        {
            sides.push(axes[k].resolution as u64);
            k += 1;
        }
        proof {
            assert(radices_of(sides@) =~= radices);
            lemma_product_prefix(radices, 0);
        }
        let acc = product_of(&sides);
        if acc > ceiling as u128 {
            return Err(FitError::SearchSpaceTooLarge { total: acc, ceiling });
        }
        Ok(SearchSpace { axes, total: acc as u32 })
    }

    /// The number of candidates.
    pub fn total(&self) -> (t: u32)
        ensures
            t == self.total_spec(),
            self.valid(),
    {
        proof {
            use_type_invariant(self);
            lemma_product_prefix(self.resolutions(), 0);
        }
        self.total
    }

    /// The number of axes.
    pub fn axis_count(&self) -> (n: usize)
        ensures
            n == self.axes().len(),
            self.valid(),
    {
        proof {
            use_type_invariant(self);
            lemma_product_prefix(self.resolutions(), 0);
        }
        self.axes.len()
    }

    /// The axis at position `k`, if there is one.
    pub fn axis(&self, k: usize) -> (r: Option<&ParameterAxis>)
        ensures
            match r {
                Some(axis) => k < self.axes().len() && *axis == self.axes()[k as int],
                None => k >= self.axes().len(),
            },
    {
        if k < self.axes.len() {
            Some(&self.axes[k])
        } else {
            None
        }
    }

    /// The grid offsets of the candidate with flat index `index`, one per
    /// axis; `None` when there is no such candidate.
    pub fn decode(&self, index: u32) -> (r: Option<Vec<u32>>)
        ensures
            match r {
                Some(offsets) => {
                    &&& index < self.total_spec()
                    &&& offsets_of(offsets@) == decode(self.resolutions(), index as int)
                    &&& digits_valid(self.resolutions(), offsets_of(offsets@))
                },
                None => index >= self.total_spec(),
            },
    {
        proof {
            use_type_invariant(self);
        }
        if index >= self.total {
            return None;
        }
        let n = self.axes.len();
        let ghost radices = self.resolutions();
        let ghost full = decode(radices, index as int);
        proof {
            lemma_decode_valid(radices, index as int);
            assert(radices.take(n as int) =~= radices);
            assert(full.take(n as int) =~= full);
        }
        let mut out: Vec<u32> = Vec::new();
        let mut j: usize = 0;
        while j < n
            invariant
                j <= n,
                out.len() == j,
            decreases n - j,
        {
            out.push(0);
            j += 1;
        }
        let mut rem: u32 = index;
        let mut k: usize = n;
        while k > 0
            invariant
                n == self.axes.len(),
                k <= n,
                out.len() == n,
                radices == self.resolutions(),
                radices_valid(radices),
                full == decode(radices, index as int),
                full.len() == n,
                decode(radices.take(k as int), rem as int) == full.take(k as int),
                forall|i: int| k <= i < n ==> out@[i] as int == full[i],
            decreases k,
        {
            let r = self.axes[k - 1].resolution;
            let digit: u32 = rem % r;
            let ghost prefix = radices.take(k as int);
            proof {
                assert(radices[k - 1] >= 1);
                assert(prefix.last() == r);
                assert(prefix.drop_last() =~= radices.take(k - 1));
                let shorter = decode(radices.take(k - 1), rem as int / r as int);
                assert(decode(prefix, rem as int) == shorter.push(rem as int % r as int));
                assert(shorter =~= full.take(k as int).drop_last());
                assert(full.take(k as int).drop_last() =~= full.take(k - 1));
                assert(full.take(k as int).last() == rem as int % r as int);
            }
            out.set(k - 1, digit);
            rem = rem / r;
            k -= 1;
        }
        proof {
            assert(offsets_of(out@) =~= full);
        }
        Some(out)
    }

    /// The flat index of the candidate at `offsets`; `None` unless there is
    /// one offset per axis, each below the resolution of its axis.
    pub fn encode(&self, offsets: &Vec<u32>) -> (r: Option<u32>)
        ensures
            match r {
                Some(index) => {
                    &&& digits_valid(self.resolutions(), offsets_of(offsets@))
                    &&& index == encode(self.resolutions(), offsets_of(offsets@))
                    &&& index < self.total_spec()
                },
                None => !digits_valid(self.resolutions(), offsets_of(offsets@)),
            },
    {
        proof {
            use_type_invariant(self);
        }
        let n = self.axes.len();
        if offsets.len() != n {
            return None;
        }
        let ghost radices = self.resolutions();
        let ghost digits = offsets_of(offsets@);
        let mut acc: u64 = 0;
        let mut k: usize = 0;
        while k < n
            invariant
                n == self.axes.len(),
                offsets.len() == n,
                k <= n,
                radices == self.resolutions(),
                radices_valid(radices),
                digits == offsets_of(offsets@),
                product(radices) == self.total,
                digits_valid(radices.take(k as int), digits.take(k as int)),
                acc == encode(radices.take(k as int), digits.take(k as int)),
            decreases n - k,
        {
            let r = self.axes[k].resolution;
            let o = offsets[k];
            if o >= r {
                proof {
                    assert(digits[k as int] == o);
                    assert(radices[k as int] == r);
                }
                return None;
            }
            proof {
                let rn = radices.take(k + 1);
                let dn = digits.take(k + 1);
                assert(rn.drop_last() =~= radices.take(k as int));
                assert(dn.drop_last() =~= digits.take(k as int));
                assert(rn.last() == r);
                assert(dn.last() == o);
                assert(radices_valid(rn)) by {
                    assert forall|i: int| 0 <= i < rn.len() implies #[trigger] rn[i] >= 1 by {
                        assert(rn[i] == radices[i]);
                    }
                }
                assert(digits_valid(rn, dn)) by {
                    assert forall|i: int| 0 <= i < dn.len() implies 0 <= #[trigger] dn[i]
                        < rn[i] by {
                        if i < k {
                            assert(dn[i] == digits.take(k as int)[i]);
                            assert(rn[i] == radices.take(k as int)[i]);
                        }
                    }
                }
                lemma_encode_bound(rn, dn);
                lemma_product_prefix(radices, k + 1);
                assert(encode(rn, dn) == acc * r + o);
            }
            acc = acc * (r as u64) + (o as u64);
            k += 1;
        }
        proof {
            assert(radices.take(n as int) =~= radices);
            assert(digits.take(n as int) =~= digits);
            lemma_encode_bound(radices, digits);
        }
        Some(acc as u32)
    }
}

/// Decoding a flat index of the space and encoding the offsets again gives
/// the index back.
pub proof fn lemma_index_round_trip(space: SearchSpace, index: int)
    requires
        space.valid(),
        0 <= index < space.total_spec(),
    ensures
        digits_valid(space.resolutions(), decode(space.resolutions(), index)),
        encode(space.resolutions(), decode(space.resolutions(), index)) == index,
{
    lemma_decode_valid(space.resolutions(), index);
    lemma_encode_decode(space.resolutions(), index);
}

/// Encoding the offsets of a candidate and decoding the index again gives
/// the offsets back; so every candidate has one flat index, and every flat
/// index one candidate.
pub proof fn lemma_offsets_round_trip(space: SearchSpace, offsets: Seq<int>)
    requires
        space.valid(),
        digits_valid(space.resolutions(), offsets),
    ensures
        0 <= encode(space.resolutions(), offsets) < space.total_spec(),
        decode(space.resolutions(), encode(space.resolutions(), offsets)) == offsets,
{
    lemma_encode_bound(space.resolutions(), offsets);
    lemma_decode_encode(space.resolutions(), offsets);
}

} // verus!
