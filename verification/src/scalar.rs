//! Single-precision numbers as bit patterns, with the order that IEEE 754
//! gives them.

use vstd::prelude::*;

verus! {

/// The bit pattern with only the sign bit set.
pub const SIGN_BIT: u32 = 0x8000_0000;

/// The bit pattern of positive infinity; every larger magnitude is a NaN.
pub const INFINITY_BITS: u32 = 0x7f80_0000;

/// The bit pattern of the largest finite value.
pub const MAX_BITS: u32 = 0x7f7f_ffff;

/// The bit pattern of the smallest (most negative) finite value.
pub const MIN_BITS: u32 = 0xff7f_ffff;

/// The bit pattern of the margin, one millionth rounded to single precision,
/// by which a loss has to improve and below which a spread counts as nothing.
pub const MARGIN_BITS: u32 = 0x3586_37bd;

/// A single-precision IEEE 754 number, held by its bit pattern.
///
/// Two values with the same bits are the same `Scalar`; the numeric order is
/// given by [`Scalar::lt`] and its siblings, under which the two zeros are
/// equal and a NaN is unordered with everything.
#[derive(Clone, Copy, Debug, PartialEq, Eq, Structural)]
pub struct Scalar {
    pub bits: u32,
}

impl Scalar {
    /// The pattern without its sign bit.
    pub open spec fn magnitude(self) -> int {
        (self.bits % SIGN_BIT) as int
    }

    /// Whether the sign bit is set.
    pub open spec fn negative(self) -> bool {
        self.bits >= SIGN_BIT
    }

    /// Whether the pattern encodes no number.
    pub open spec fn spec_is_nan(self) -> bool {
        self.magnitude() > INFINITY_BITS
    }

    /// An integer that orders the numbers as their values do: for two
    /// patterns that are not NaN, the one with the smaller rank is the smaller
    /// number, and equal ranks are equal numbers.
    pub open spec fn spec_rank(self) -> int {
        if self.negative() {
            -self.magnitude()
        } else {
            self.magnitude()
        }
    }

    pub open spec fn spec_lt(self, other: Scalar) -> bool {
        !self.spec_is_nan() && !other.spec_is_nan() && self.spec_rank() < other.spec_rank()
    }

    pub open spec fn spec_le(self, other: Scalar) -> bool {
        !self.spec_is_nan() && !other.spec_is_nan() && self.spec_rank() <= other.spec_rank()
    }

    pub open spec fn spec_gt(self, other: Scalar) -> bool {
        other.spec_lt(self)
    }

    pub open spec fn spec_ge(self, other: Scalar) -> bool {
        other.spec_le(self)
    }

    pub open spec fn spec_from_bits(bits: u32) -> Scalar {
        Scalar { bits }
    }

    pub open spec fn spec_zero() -> Scalar {
        Scalar { bits: 0 }
    }

    pub open spec fn spec_max() -> Scalar {
        Scalar { bits: MAX_BITS }
    }

    pub open spec fn spec_min() -> Scalar {
        Scalar { bits: MIN_BITS }
    }

    pub open spec fn spec_infinity() -> Scalar {
        Scalar { bits: INFINITY_BITS }
    }

    pub open spec fn spec_margin() -> Scalar {
        Scalar { bits: MARGIN_BITS }
    }

    /// The number with the given bit pattern.
    #[verifier::when_used_as_spec(spec_from_bits)]
    pub fn from_bits(bits: u32) -> (r: Scalar)
        ensures
            r == Scalar::spec_from_bits(bits),
    {
        Scalar { bits }
    }

    /// The bit pattern of the number.
    pub fn to_bits(self) -> (r: u32)
        ensures
            r == self.bits,
    {
        self.bits
    }

    /// Positive zero.
    #[verifier::when_used_as_spec(spec_zero)]
    pub fn zero() -> (r: Scalar)
        ensures
            r == Scalar::spec_zero(),
    {
        Scalar { bits: 0 }
    }

    /// The largest finite number.
    #[verifier::when_used_as_spec(spec_max)]
    pub fn max() -> (r: Scalar)
        ensures
            r == Scalar::spec_max(),
    {
        Scalar { bits: MAX_BITS }
    }

    /// The smallest finite number.
    #[verifier::when_used_as_spec(spec_min)]
    pub fn min() -> (r: Scalar)
        ensures
            r == Scalar::spec_min(),
    {
        Scalar { bits: MIN_BITS }
    }

    /// Positive infinity.
    #[verifier::when_used_as_spec(spec_infinity)]
    pub fn infinity() -> (r: Scalar)
        ensures
            r == Scalar::spec_infinity(),
    {
        Scalar { bits: INFINITY_BITS }
    }

    /// The margin of one millionth.
    #[verifier::when_used_as_spec(spec_margin)]
    pub fn margin() -> (r: Scalar)
        ensures
            r == Scalar::spec_margin(),
    {
        Scalar { bits: MARGIN_BITS }
    }

    /// Whether the pattern encodes no number.
    #[verifier::when_used_as_spec(spec_is_nan)]
    pub fn is_nan(self) -> (r: bool)
        ensures
            r == self.spec_is_nan(),
    {
        self.bits % SIGN_BIT > INFINITY_BITS
    }

    /// The rank of the number in the numeric order.
    pub fn rank(self) -> (r: i64)
        ensures
            r == self.spec_rank(),
    {
        let magnitude: u32 = self.bits % SIGN_BIT;
        if self.bits >= SIGN_BIT {
            -(magnitude as i64)
        } else {
            magnitude as i64
        }
    }

    /// `self < other` as numbers; false if either is NaN.
    #[verifier::when_used_as_spec(spec_lt)]
    pub fn lt(self, other: Scalar) -> (r: bool)
        ensures
            r == self.spec_lt(other),
    {
        !self.is_nan() && !other.is_nan() && self.rank() < other.rank()
    }

    /// `self <= other` as numbers; false if either is NaN.
    #[verifier::when_used_as_spec(spec_le)]
    pub fn le(self, other: Scalar) -> (r: bool)
        ensures
            r == self.spec_le(other),
    {
        !self.is_nan() && !other.is_nan() && self.rank() <= other.rank()
    }

    /// `self > other` as numbers; false if either is NaN.
    #[verifier::when_used_as_spec(spec_gt)]
    pub fn gt(self, other: Scalar) -> (r: bool)
        ensures
            r == self.spec_gt(other),
    {
        other.lt(self)
    }

    /// `self >= other` as numbers; false if either is NaN.
    #[verifier::when_used_as_spec(spec_ge)]
    pub fn ge(self, other: Scalar) -> (r: bool)
        ensures
            r == self.spec_ge(other),
    {
        other.le(self)
    }
}

} // verus!
