use vstd::prelude::*;
use crate::error::AcsError;

verus! {

/// The encoding in which the sign bit is set and every other bit is clear.
pub const SIGN_BIT: u64 = 0x8000_0000_0000_0000;

/// The encoding of positive infinity: every exponent bit set, no fraction bit.
pub const INFINITY_BITS: u64 = 0x7FF0_0000_0000_0000;

/// A real number in its IEEE-754 binary64 encoding.
///
/// The engine never computes with such a number. It classifies it (zero,
/// negative, finite, not a number) and orders it against another, and both
/// can be read off the encoding.
#[derive(Clone, Copy, Debug, PartialEq, Eq, Structural)]
pub struct Scalar {
    pub bits: u64,
}

impl Scalar {
    /// The encoding without its sign bit.
    pub open spec fn magnitude(self) -> int {
        if self.bits >= SIGN_BIT {
            self.bits - SIGN_BIT
        } else {
            self.bits as int
        }
    }

    /// Whether the sign bit is set.
    pub open spec fn sign(self) -> bool {
        self.bits >= SIGN_BIT
    }

    /// Whether the encoding stands for no number at all.
    pub open spec fn nan(self) -> bool {
        self.magnitude() > INFINITY_BITS
    }

    /// Whether the encoding stands for a number other than an infinity.
    pub open spec fn finite(self) -> bool {
        self.magnitude() < INFINITY_BITS
    }

    /// Whether the encoding stands for zero, of either sign.
    pub open spec fn zero(self) -> bool {
        self.magnitude() == 0
    }

    /// The place of the number in the order of all numbers: binary64 orders
    /// its values as their magnitudes do, with the sign in front, and holds
    /// the two zeros equal. It says nothing of an encoding that is no number.
    pub open spec fn rank(self) -> int {
        if self.sign() {
            -self.magnitude()
        } else {
            self.magnitude()
        }
    }

    /// Whether the number is greater than zero (positive infinity included).
    pub open spec fn positive(self) -> bool {
        !self.nan() && self.rank() > 0
    }

    /// The number with the given encoding.
    pub fn from_bits(bits: u64) -> (s: Scalar)
        ensures
            s.bits == bits,
    {
        Scalar { bits }
    }

    /// The encoding of the number.
    pub fn to_bits(self) -> (bits: u64)
        ensures
            bits == self.bits,
    {
        self.bits
    }

    /// Positive zero, whose encoding has no bit set.
    pub fn zero_value() -> (s: Scalar)
        ensures
            s.bits == 0,
            s.zero(),
            !s.sign(),
    {
        Scalar { bits: 0 }
    }

    fn magnitude_bits(self) -> (m: u64)
        ensures
            m == self.magnitude(),
            m < SIGN_BIT,
    {
        if self.bits >= SIGN_BIT {
            self.bits - SIGN_BIT
        } else {
            self.bits
        }
    }

    /// The rank moved up by `SIGN_BIT`, so that it fits an unsigned word.
    fn raised_rank(self) -> (k: u64)
        ensures
            k == self.rank() + SIGN_BIT,
    {
        let m: u64 = self.magnitude_bits();
        if self.bits >= SIGN_BIT {
            SIGN_BIT - m
        } else {
            SIGN_BIT + m
        }
    }

    pub fn is_nan(self) -> (r: bool)
        ensures
            r == self.nan(),
    {
        self.magnitude_bits() > INFINITY_BITS
    }

    pub fn is_finite(self) -> (r: bool)
        ensures
            r == self.finite(),
    {
        self.magnitude_bits() < INFINITY_BITS
    }

    pub fn is_zero(self) -> (r: bool)
        ensures
            r == self.zero(),
    {
        self.magnitude_bits() == 0
    }

    pub fn is_positive(self) -> (r: bool)
        ensures
            r == self.positive(),
    {
        !self.is_nan() && self.bits < SIGN_BIT && self.bits != 0
    }

    /// Whether `self` is strictly less than `other`. Two numbers are needed:
    /// the comparison fails with `InvalidCost` exactly when one of the two is
    /// not a number.
    pub fn below(self, other: Scalar) -> (r: Result<bool, AcsError>)
        ensures
            (self.nan() || other.nan()) ==> r == Err::<bool, AcsError>(AcsError::InvalidCost),
            !(self.nan() || other.nan()) ==> r == Ok::<bool, AcsError>(self.rank() < other.rank()),
    {
        if self.is_nan() || other.is_nan() {
            Err(AcsError::InvalidCost)
        } else {
            Ok(self.raised_rank() < other.raised_rank())
        }
    }

    /// Whether `self` is less than or equal to `other`. It fails with
    /// `InvalidCost` exactly when one of the two is not a number.
    pub fn at_most(self, other: Scalar) -> (r: Result<bool, AcsError>)
        ensures
            (self.nan() || other.nan()) ==> r == Err::<bool, AcsError>(AcsError::InvalidCost),
            !(self.nan() || other.nan()) ==> r == Ok::<bool, AcsError>(self.rank() <= other.rank()),
    {
        if self.is_nan() || other.is_nan() {
            Err(AcsError::InvalidCost)
        } else {
            Ok(self.raised_rank() <= other.raised_rank())
        }
    }
}

} // verus!
