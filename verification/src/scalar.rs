//! Single-precision numbers as bit patterns, with their numeric order.
use vstd::prelude::*;

verus! {

/// Bit pattern of the sign bit of a single-precision number.
pub const SIGN_BIT: u32 = 0x8000_0000;

/// Magnitude bits of an infinity: all exponent bits set, no fraction bit.
pub const INFINITY_MAGNITUDE: u32 = 0x7f80_0000;

/// An IEEE 754 single-precision number, held as its 32-bit pattern.
///
/// The derived `==` compares bit patterns. Numeric comparison, under which
/// the two zeros are equal and a NaN is unordered, is [`Scalar::lt`] and
/// [`Scalar::le`].
#[derive(Clone, Copy, Debug, PartialEq, Eq, Structural)]
pub struct Scalar {
    pub bits: u32,
}

impl Scalar {
    /// The pattern with the sign bit cleared.
    pub open spec fn magnitude(self) -> int {
        if self.bits >= SIGN_BIT {
            self.bits - SIGN_BIT
        } else {
            self.bits as int
        }
    }

    pub open spec fn is_negative(self) -> bool {
        self.bits >= SIGN_BIT
    }

    /// Not a number: the exponent is all ones and the fraction is not zero.
    pub open spec fn is_nan(self) -> bool {
        self.magnitude() > INFINITY_MAGNITUDE
    }

    /// Neither a NaN nor an infinity.
    pub open spec fn is_finite(self) -> bool {
        self.magnitude() < INFINITY_MAGNITUDE
    }

    /// Position on the number line: for two numbers that are not NaN, the
    /// one with the smaller rank is the smaller number, and equal ranks mean
    /// equal numbers. Both zeros have rank 0.
    pub open spec fn rank(self) -> int {
        if self.is_negative() {
            -self.magnitude()
        } else {
            self.magnitude()
        }
    }

    /// Numeric `<`. False whenever either side is a NaN.
    pub open spec fn lt(self, other: Scalar) -> bool {
        !self.is_nan() && !other.is_nan() && self.rank() < other.rank()
    }

    /// Numeric `<=`. False whenever either side is a NaN.
    pub open spec fn le(self, other: Scalar) -> bool {
        !self.is_nan() && !other.is_nan() && self.rank() <= other.rank()
    }

    /// The difference `other - self` is exactly zero. With gradual underflow
    /// that is the case precisely for two equal finite numbers: the
    /// difference of two equal infinities is a NaN.
    pub open spec fn no_span_to(self, other: Scalar) -> bool {
        self.is_finite() && other.is_finite() && self.rank() == other.rank()
    }

    pub fn from_bits(bits: u32) -> (r: Scalar)
        ensures
            r.bits == bits,
    {
        Scalar { bits }
    }

    pub fn to_bits(&self) -> (r: u32)
        ensures
            r == self.bits,
    {
        self.bits
    }

    fn magnitude_bits(&self) -> (r: u32)
        ensures
            r == self.magnitude(),
            r < SIGN_BIT,
    {
        if self.bits >= SIGN_BIT {
            self.bits - SIGN_BIT
        } else {
            self.bits
        }
    }

    fn rank_value(&self) -> (r: i64)
        ensures
            r == self.rank(),
    {
        let m: i64 = self.magnitude_bits() as i64;
        if self.bits >= SIGN_BIT {
            -m
        } else {
            m
        }
    }

    pub fn check_nan(&self) -> (r: bool)
        ensures
            r == self.is_nan(),
    {
        self.magnitude_bits() > INFINITY_MAGNITUDE
    }

    pub fn check_finite(&self) -> (r: bool)
        ensures
            r == self.is_finite(),
    {
        self.magnitude_bits() < INFINITY_MAGNITUDE
    }

    /// Numeric `<` on the bit patterns.
    pub fn less_than(&self, other: &Scalar) -> (r: bool)
        ensures
            r == self.lt(*other),
    {
        !self.check_nan() && !other.check_nan() && self.rank_value() < other.rank_value()
    }

    /// Whether `other - self` is exactly zero.
    pub fn spans_nothing_to(&self, other: &Scalar) -> (r: bool)
        ensures
            r == self.no_span_to(*other),
    {
        self.check_finite() && other.check_finite() && self.rank_value() == other.rank_value()
    }
}

/// Two numbers with a third strictly between them have a span that is not
/// zero.
pub proof fn lemma_strictly_between_has_span(a: Scalar, v: Scalar, b: Scalar)
    requires
        a.lt(v) && v.lt(b) || b.lt(v) && v.lt(a),
    ensures
        !a.no_span_to(b),
{
}

} // verus!
