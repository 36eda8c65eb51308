//! Real and complex numbers as binary64 bit patterns, with the operations that
//! are exact on the encoding: ordering, negation, absolute value, conjugation.

use vstd::prelude::*;

verus! {

/// Weight of the sign bit.
pub const SIGN_BIT: u64 = 0x8000_0000_0000_0000;

/// Magnitude bits of positive infinity; larger magnitudes are NaNs.
pub const INFINITY_BITS: u64 = 0x7ff0_0000_0000_0000;

/// Bit pattern of `1.0`.
pub const ONE_BITS: u64 = 0x3ff0_0000_0000_0000;

/// A real number in binary64 encoding: one sign bit, then the magnitude.
#[derive(Clone, Copy, Debug, PartialEq, Eq, Hash, Structural)]
pub struct Real {
    pub bits: u64,
}

/// A complex number: real and imaginary part.
#[derive(Clone, Copy, Debug, PartialEq, Eq, Hash, Structural)]
pub struct Complex {
    pub re: Real,
    pub im: Real,
}

impl Real {
    /// The encoding with the sign bit cleared.
    pub open spec fn magnitude(self) -> int {
        if self.bits >= SIGN_BIT {
            self.bits - SIGN_BIT
        } else {
            self.bits as int
        }
    }

    /// Whether the sign bit is set.
    pub open spec fn sign(self) -> bool {
        self.bits >= SIGN_BIT
    }

    /// Not a number: the magnitude lies above that of infinity.
    pub open spec fn nan(self) -> bool {
        self.magnitude() > INFINITY_BITS
    }

    /// Whether the encoding is that of a finite number: neither an infinity
    /// nor a NaN.
    pub open spec fn finite(self) -> bool {
        self.magnitude() < INFINITY_BITS
    }

    /// An integer that orders the numbers as their values are ordered; both
    /// zeros map to 0. Meaningful for every encoding that is not a NaN.
    pub open spec fn rank(self) -> int {
        if self.sign() {
            -self.magnitude()
        } else {
            self.magnitude()
        }
    }

    /// `self < other` as numbers: false whenever either is a NaN.
    pub open spec fn lt(self, other: Real) -> bool {
        !self.nan() && !other.nan() && self.rank() < other.rank()
    }

    /// `self <= other` as numbers: false whenever either is a NaN.
    pub open spec fn le(self, other: Real) -> bool {
        !self.nan() && !other.nan() && self.rank() <= other.rank()
    }

    /// Equality as numbers: the two zeros are equal, a NaN equals nothing.
    pub open spec fn same_value(self, other: Real) -> bool {
        !self.nan() && !other.nan() && self.rank() == other.rank()
    }

    /// The encoding with the sign bit flipped.
    pub open spec fn negated(self) -> Real {
        if self.bits >= SIGN_BIT {
            Real { bits: (self.bits - SIGN_BIT) as u64 }
        } else {
            Real { bits: (self.bits + SIGN_BIT) as u64 }
        }
    }

    /// The encoding with the sign bit cleared.
    pub open spec fn absolute(self) -> Real {
        Real { bits: self.magnitude() as u64 }
    }

    /// The larger of two numbers; a NaN loses against the other argument, and
    /// of two equal values the first is kept.
    pub open spec fn larger(self, other: Real) -> Real {
        if self.nan() {
            other
        } else if other.nan() {
            self
        } else if self.rank() < other.rank() {
            other
        } else {
            self
        }
    }

    /// The larger of two numbers, and a NaN where one of them is one: the
    /// first, where both are. Of two equal values the first is kept.
    pub open spec fn larger_or_nan(self, other: Real) -> Real {
        if self.nan() {
            self
        } else if other.nan() {
            other
        } else if self.rank() < other.rank() {
            other
        } else {
            self
        }
    }

    /// The smaller of two numbers, and a NaN where one of them is one: the
    /// first, where both are. Of two equal values the first is kept.
    pub open spec fn smaller_or_nan(self, other: Real) -> Real {
        if self.nan() {
            self
        } else if other.nan() {
            other
        } else if other.rank() < self.rank() {
            other
        } else {
            self
        }
    }

    /// The smaller of two numbers; a NaN loses against the other argument, and
    /// of two equal values the first is kept.
    pub open spec fn smaller(self, other: Real) -> Real {
        if self.nan() {
            other
        } else if other.nan() {
            self
        } else if other.rank() < self.rank() {
            other
        } else {
            self
        }
    }

    /// The number with the given encoding.
    pub fn from_bits(bits: u64) -> (r: Real)
        ensures
            r == (Real { bits }),
    {
        Real { bits }
    }

    /// The encoding of the number.
    pub fn to_bits(self) -> (b: u64)
        ensures
            b == self.bits,
    {
        self.bits
    }

    /// Positive zero.
    pub fn zero() -> (r: Real)
        ensures
            r == (Real { bits: 0 }),
    {
        Real { bits: 0 }
    }

    /// The number one.
    pub fn one() -> (r: Real)
        ensures
            r == (Real { bits: ONE_BITS }),
    {
        Real { bits: ONE_BITS }
    }

    fn magnitude_bits(self) -> (m: u64)
        ensures
            m == self.magnitude(),
    {
        if self.bits >= SIGN_BIT {
            self.bits - SIGN_BIT
        } else {
            self.bits
        }
    }

    /// Whether the encoding is that of no number.
    pub fn is_nan(self) -> (r: bool)
        ensures
            r == self.nan(),
    {
        self.magnitude_bits() > INFINITY_BITS
    }

    /// `self < other` as numbers.
    pub fn less_than(self, other: Real) -> (r: bool)
        ensures
            r == self.lt(other),
    {
        if self.is_nan() || other.is_nan() {
            return false;
        }
        let a: u64 = self.magnitude_bits();
        let b: u64 = other.magnitude_bits();
        if self.bits >= SIGN_BIT {
            if other.bits >= SIGN_BIT {
                b < a
            } else {
                a > 0 || b > 0
            }
        } else {
            if other.bits >= SIGN_BIT {
                false
            } else {
                a < b
            }
        }
    }

    /// `self <= other` as numbers.
    pub fn less_or_equal(self, other: Real) -> (r: bool)
        ensures
            r == self.le(other),
    {
        if self.is_nan() || other.is_nan() {
            return false;
        }
        !other.less_than(self)
    }

    /// `self > other` as numbers.
    pub fn greater_than(self, other: Real) -> (r: bool)
        ensures
            r == other.lt(self),
    {
        other.less_than(self)
    }

    /// `self == other` as numbers.
    pub fn equals(self, other: Real) -> (r: bool)
        ensures
            r == self.same_value(other),
    {
        if self.is_nan() || other.is_nan() {
            return false;
        }
        !self.less_than(other) && !other.less_than(self)
    }

    /// The number with the opposite sign.
    pub fn neg(self) -> (r: Real)
        ensures
            r == self.negated(),
    {
        if self.bits >= SIGN_BIT {
            Real { bits: self.bits - SIGN_BIT }
        } else {
            Real { bits: self.bits + SIGN_BIT }
        }
    }

    /// The absolute value.
    pub fn abs(self) -> (r: Real)
        ensures
            r == self.absolute(),
    {
        Real { bits: self.magnitude_bits() }
    }

    /// The larger of two numbers, a NaN being kept.
    pub fn max_or_nan(self, other: Real) -> (r: Real)
        ensures
            r == self.larger_or_nan(other),
    {
        if self.is_nan() {
            self
        } else if other.is_nan() {
            other
        } else if self.less_than(other) {
            other
        } else {
            self
        }
    }

    /// The smaller of two numbers, a NaN being kept.
    pub fn min_or_nan(self, other: Real) -> (r: Real)
        ensures
            r == self.smaller_or_nan(other),
    {
        if self.is_nan() {
            self
        } else if other.is_nan() {
            other
        } else if other.less_than(self) {
            other
        } else {
            self
        }
    }

    /// The larger of two numbers.
    pub fn max(self, other: Real) -> (r: Real)
        ensures
            r == self.larger(other),
    {
        if self.is_nan() {
            other
        } else if other.is_nan() {
            self
        } else if self.less_than(other) {
            other
        } else {
            self
        }
    }

    /// The smaller of two numbers.
    pub fn min(self, other: Real) -> (r: Real)
        ensures
            r == self.smaller(other),
    {
        if self.is_nan() {
            other
        } else if other.is_nan() {
            self
        } else if other.less_than(self) {
            other
        } else {
            self
        }
    }
}

impl Complex {
    /// The complex conjugate: the imaginary part negated.
    pub open spec fn conjugate(self) -> Complex {
        Complex { re: self.re, im: self.im.negated() }
    }

    /// The complex number with the given parts.
    pub fn new(re: Real, im: Real) -> (c: Complex)
        ensures
            c.re == re,
            c.im == im,
    {
        Complex { re, im }
    }

    /// A real number as a complex one, with imaginary part `+0`.
    pub fn from_real(re: Real) -> (c: Complex)
        ensures
            c == (Complex { re, im: Real { bits: 0 } }),
    {
        Complex { re, im: Real { bits: 0 } }
    }

    /// The number zero.
    pub fn zero() -> (c: Complex)
        ensures
            c == (Complex { re: Real { bits: 0 }, im: Real { bits: 0 } }),
    {
        Complex { re: Real { bits: 0 }, im: Real { bits: 0 } }
    }

    /// The number one.
    pub fn one() -> (c: Complex)
        ensures
            c == (Complex { re: Real { bits: ONE_BITS }, im: Real { bits: 0 } }),
    {
        Complex { re: Real { bits: ONE_BITS }, im: Real { bits: 0 } }
    }

    /// The complex conjugate.
    pub fn conj(self) -> (c: Complex)
        ensures
            c == self.conjugate(),
    {
        Complex { re: self.re, im: self.im.neg() }
    }
}

/// Negating twice gives the number back, bit for bit.
pub proof fn lemma_negated_twice(x: Real)
    ensures
        x.negated().negated() == x,
{
}

/// Conjugating twice gives the number back, bit for bit.
pub proof fn lemma_conjugate_twice(z: Complex)
    ensures
        z.conjugate().conjugate() == z,
{
    lemma_negated_twice(z.im);
}

/// On numbers that are not NaNs, `lt` is a strict order and `le` its
/// reflexive closure; exactly one of `a < b`, `a == b`, `b < a` holds.
pub proof fn lemma_order(a: Real, b: Real, c: Real)
    requires
        !a.nan(),
        !b.nan(),
        !c.nan(),
    ensures
        !a.lt(a),
        a.lt(b) && b.lt(c) ==> a.lt(c),
        a.le(b) <==> (a.lt(b) || a.same_value(b)),
        a.lt(b) || a.same_value(b) || b.lt(a),
        !(a.lt(b) && b.lt(a)),
{
}

/// The larger of two numbers is one of them and not below either.
pub proof fn lemma_larger(a: Real, b: Real)
    ensures
        a.larger(b) == a || a.larger(b) == b,
        !a.nan() && !b.nan() ==> a.le(a.larger(b)) && b.le(a.larger(b)),
        a.nan() && b.nan() ==> a.larger(b).nan(),
{
}

} // verus!
