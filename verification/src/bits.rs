//! IEEE-754 binary32 values as bit patterns: classification, the order of the
//! values, and saturation of the values that are not finite.

use vstd::prelude::*;

verus! {

/// The bit pattern of positive infinity; the magnitudes above it are NaNs.
pub const INFINITY_BITS: u32 = 0x7F80_0000;

/// The bit pattern of the largest finite value.
pub const MAX_FINITE_BITS: u32 = 0x7F7F_FFFF;

/// The weight of the sign bit.
pub const SIGN_BIT: u32 = 0x8000_0000;

/// A binary32 value, held as its bit pattern. Two values are equal when their
/// bits are, so a value can be hashed and found again.
#[derive(Clone, Copy, Debug, PartialEq, Eq, Structural, Hash)]
pub struct F32(pub u32);

impl F32 {
    /// The bits without the sign.
    pub open spec fn magnitude(self) -> int {
        if self.0 >= SIGN_BIT {
            self.0 - SIGN_BIT
        } else {
            self.0 as int
        }
    }

    /// Whether the sign bit is set.
    pub open spec fn negative(self) -> bool {
        self.0 >= SIGN_BIT
    }

    /// Whether the pattern encodes a NaN.
    pub open spec fn nan(self) -> bool {
        self.magnitude() > INFINITY_BITS
    }

    /// Whether the pattern encodes a finite value.
    pub open spec fn finite(self) -> bool {
        self.magnitude() < INFINITY_BITS
    }

    /// The place of the value in the numeric order: `a` is below `b` as a
    /// number exactly when `a.rank() < b.rank()`, for all patterns that are
    /// not NaN. Both zeros have rank 0.
    pub open spec fn rank(self) -> int {
        if self.negative() {
            -self.magnitude()
        } else {
            self.magnitude()
        }
    }

    /// What an error value counts as in a reduction: itself when finite, the
    /// largest finite value otherwise.
    pub open spec fn saturated(self) -> F32 {
        if self.finite() {
            self
        } else {
            F32(MAX_FINITE_BITS)
        }
    }

    pub fn is_nan(self) -> (r: bool)
        ensures
            r == self.nan(),
    {
        let m: u32 = if self.0 >= SIGN_BIT { self.0 - SIGN_BIT } else { self.0 };
        m > INFINITY_BITS
    }

    pub fn is_finite(self) -> (r: bool)
        ensures
            r == self.finite(),
    {
        let m: u32 = if self.0 >= SIGN_BIT { self.0 - SIGN_BIT } else { self.0 };
        m < INFINITY_BITS
    }

    /// The rank as a machine integer.
    pub fn key(self) -> (k: i64)
        ensures
            k == self.rank(),
    {
        if self.0 >= SIGN_BIT {
            let m: u32 = self.0 - SIGN_BIT;
            -(m as i64)
        } else {
            self.0 as i64
        }
    }

    /// Numeric less-than.
    pub fn lt(self, other: F32) -> (r: bool)
        ensures
            r == (self.rank() < other.rank()),
    {
        self.key() < other.key()
    }

    /// Replaces NaN and the infinities by the largest finite value.
    pub fn saturate(self) -> (r: F32)
        ensures
            r == self.saturated(),
            r.finite(),
            self.finite() ==> r == self,
    {
        if self.is_finite() {
            self
        } else {
            F32(MAX_FINITE_BITS)
        }
    }
}

/// Saturation leaves no NaN and no infinity, keeps every finite value as it
/// is, and changes nothing when applied again.
pub proof fn lemma_saturated_finite(value: F32)
    ensures
        value.saturated().finite(),
        !value.saturated().nan(),
        value.finite() ==> value.saturated() == value,
        value.saturated().saturated() == value.saturated(),
        0 <= value.saturated().magnitude() <= MAX_FINITE_BITS,
{
}

} // verus!
