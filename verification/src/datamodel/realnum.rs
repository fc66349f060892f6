use vstd::prelude::*;

verus! {

/// The bit that carries the sign of a [`Real`].
pub const SIGN_BIT: u64 = 0x8000_0000_0000_0000;

/// The magnitude of the infinities; every larger magnitude is a NaN.
pub const INFINITY_BITS: u64 = 0x7ff0_0000_0000_0000;

/// A 64-bit IEEE-754 number, held as its bit pattern.
///
/// The library never computes with the number itself. It orders, negates and
/// classifies reals, all of which IEEE-754 defines on the sign and the
/// magnitude of the pattern; arithmetic is left to the host.
#[derive(Clone, Copy, Debug, PartialEq, Eq, Structural)]
pub struct Real {
    pub bits: u64,
}

impl Real {
    /// The pattern without its sign bit.
    pub open spec fn magnitude(self) -> int {
        self.bits as int % 0x8000_0000_0000_0000
    }

    /// Whether the sign bit is set.
    pub open spec fn sign(self) -> bool {
        self.bits >= SIGN_BIT
    }

    /// Whether the pattern is one of the NaNs.
    pub open spec fn is_nan(self) -> bool {
        self.magnitude() > INFINITY_BITS
    }

    /// Whether the number is `0.0` or `-0.0`.
    pub open spec fn is_zero(self) -> bool {
        self.magnitude() == 0
    }

    /// An integer that orders the numbers as IEEE-754 orders them: for two
    /// patterns that are not NaN, the smaller number has the smaller rank and
    /// both zeros have rank 0.
    pub open spec fn rank(self) -> int {
        if self.sign() {
            -self.magnitude()
        } else {
            self.magnitude()
        }
    }

    /// Whether the number is less than zero. No NaN is.
    pub open spec fn is_negative(self) -> bool {
        !self.is_nan() && self.rank() < 0
    }

    /// The partial order of IEEE-754 as a sign: `-1`, `0` or `1`, and nothing
    /// where either side is a NaN.
    pub open spec fn order(self, other: Real) -> Option<i64> {
        if self.is_nan() || other.is_nan() {
            None
        } else if self.rank() < other.rank() {
            Some(-1i64)
        } else if self.rank() == other.rank() {
            Some(0i64)
        } else {
            Some(1i64)
        }
    }

    /// The pattern with its sign bit flipped.
    pub open spec fn negated(self) -> Real {
        if self.sign() {
            Real { bits: (self.bits - SIGN_BIT) as u64 }
        } else {
            Real { bits: (self.bits + SIGN_BIT) as u64 }
        }
    }

    pub fn from_bits(bits: u64) -> (r: Real)
        ensures
            r.bits == bits,
    {
        Real { bits }
    }

    pub fn to_bits(self) -> (bits: u64)
        ensures
            bits == self.bits,
    {
        self.bits
    }

    fn exec_magnitude(self) -> (m: u64)
        ensures
            m == self.magnitude(),
    {
        self.bits % SIGN_BIT
    }

    pub fn test_nan(self) -> (r: bool)
        ensures
            r == self.is_nan(),
    {
        self.exec_magnitude() > INFINITY_BITS
    }

    pub fn test_zero(self) -> (r: bool)
        ensures
            r == self.is_zero(),
    {
        self.exec_magnitude() == 0
    }

    pub fn test_negative(self) -> (r: bool)
        ensures
            r == self.is_negative(),
    {
        let m: u64 = self.exec_magnitude();
        self.bits >= SIGN_BIT && 0 < m && m <= INFINITY_BITS
    }

    /// Compares two reals by the partial order of IEEE-754.
    pub fn compare(self, other: Real) -> (r: Option<i64>)
        ensures
            r == self.order(other),
    {
        let a: u64 = self.exec_magnitude();
        let b: u64 = other.exec_magnitude();
        if a > INFINITY_BITS || b > INFINITY_BITS {
            return None;
        }
        let a_neg: bool = self.bits >= SIGN_BIT;
        let b_neg: bool = other.bits >= SIGN_BIT;
        let less: bool = if a_neg {
            if b_neg {
                b < a
            } else {
                a > 0 || b > 0
            }
        } else {
            if b_neg {
                false
            } else {
                a < b
            }
        };
        let same: bool = if a_neg == b_neg {
            a == b
        } else {
            a == 0 && b == 0
        };
        if less {
            Some(-1)
        } else if same {
            Some(0)
        } else {
            Some(1)
        }
    }

    /// Flips the sign, as IEEE-754 negation does for every pattern.
    pub fn negate(self) -> (r: Real)
        ensures
            r == self.negated(),
    {
        if self.bits >= SIGN_BIT {
            Real { bits: self.bits - SIGN_BIT }
        } else {
            Real { bits: self.bits + SIGN_BIT }
        }
    }
}

} // verus!
