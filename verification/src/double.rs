//! Binary64 floating-point numbers, held as their bit patterns.
//!
//! Arithmetic is that of IEEE 754 with rounding to nearest, ties to even: an
//! operation's result is the exact result rounded onto the scale of
//! `crate::scale`. Every operation that has no number for a result gives the
//! same quiet pattern, `NAN`.
use vstd::prelude::*;
use vstd::arithmetic::power2::pow2;

use crate::scale::{
    exponent,
    lemma_mag_next,
    lemma_mag_order,
    mag,
    nearest,
    one,
    significand,
    INF,
    P52,
    P53,
};

verus! {

/// The sign bit.
pub const SIGN: u64 = 0x8000_0000_0000_0000;

/// The pattern of a result that is not a number.
pub const NAN: u64 = 0x7ff8_0000_0000_0000;

/// A binary64 number.
#[derive(Clone, Copy, Debug)]
pub struct Double {
    pub bits: u64,
}

/// The number with the given sign and the magnitude with index `k`.
pub open spec fn signed(neg: bool, k: nat) -> Double {
    Double { bits: (k + if neg { SIGN as nat } else { 0 }) as u64 }
}

/// The number nearest to `num / den` units, with the given sign.
pub open spec fn rounded(neg: bool, num: nat, den: nat) -> Double {
    signed(neg, nearest(num, den))
}

/// The magnitude of an integer.
pub open spec fn magnitude(x: int) -> nat {
    if x < 0 {
        (-x) as nat
    } else {
        x as nat
    }
}

/// The result that is not a number.
pub open spec fn not_a_number() -> Double {
    Double { bits: NAN }
}

/// The integer `n` as a number.
pub open spec fn whole(n: int) -> Double {
    rounded(n < 0, magnitude(n) * one(), 1)
}

/// `x` with its sign flipped.
pub open spec fn negation(x: Double) -> Double {
    signed(!x.is_neg(), x.index())
}

/// `x` without its sign.
pub open spec fn absolute(x: Double) -> Double {
    signed(false, x.index())
}

/// The sum of two numbers. An exact zero is positive, unless both are
/// negative.
pub open spec fn sum(a: Double, b: Double) -> Double {
    if a.is_nan() || b.is_nan() {
        not_a_number()
    } else if a.is_infinite() && b.is_infinite() && a.is_neg() != b.is_neg() {
        not_a_number()
    } else if a.is_infinite() {
        a
    } else if b.is_infinite() {
        b
    } else {
        let v = a.value() + b.value();
        if v == 0 {
            signed(a.is_neg() && b.is_neg(), 0)
        } else {
            rounded(v < 0, magnitude(v), 1)
        }
    }
}

/// The difference of two numbers.
pub open spec fn difference(a: Double, b: Double) -> Double {
    sum(a, negation(b))
}

/// The product of two numbers.
pub open spec fn product(a: Double, b: Double) -> Double {
    let neg = a.is_neg() != b.is_neg();
    if a.is_nan() || b.is_nan() {
        not_a_number()
    } else if a.is_infinite() || b.is_infinite() {
        if a.index() == 0 || b.index() == 0 {
            not_a_number()
        } else {
            signed(neg, INF as nat)
        }
    } else {
        rounded(neg, mag(a.index()) * mag(b.index()), one())
    }
}

/// The quotient of two numbers.
pub open spec fn quotient(a: Double, b: Double) -> Double {
    let neg = a.is_neg() != b.is_neg();
    if a.is_nan() || b.is_nan() {
        not_a_number()
    } else if a.is_infinite() {
        if b.is_infinite() {
            not_a_number()
        } else {
            signed(neg, INF as nat)
        }
    } else if b.is_infinite() {
        signed(neg, 0)
    } else if b.index() == 0 {
        if a.index() == 0 {
            not_a_number()
        } else {
            signed(neg, INF as nat)
        }
    } else {
        rounded(neg, mag(a.index()) * one(), mag(b.index()))
    }
}

/// `a` is less than `b`. Nothing is less than what is not a number, nor is
/// that less than anything.
pub open spec fn less(a: Double, b: Double) -> bool {
    !a.is_nan() && !b.is_nan() && a.value() < b.value()
}

impl Double {
    /// Whether the sign bit is set.
    pub open spec fn is_neg(self) -> bool {
        self.bits >= SIGN
    }

    /// The index of the magnitude.
    pub open spec fn index(self) -> nat {
        (self.bits % SIGN) as nat
    }

    /// Whether this is not a number.
    pub open spec fn is_nan(self) -> bool {
        self.index() > INF
    }

    /// Whether this is an infinity.
    pub open spec fn is_infinite(self) -> bool {
        self.index() == INF
    }

    /// Whether this is a finite number.
    pub open spec fn finite(self) -> bool {
        self.index() < INF
    }

    /// The value of a number, in units.
    pub open spec fn value(self) -> int {
        if self.is_neg() {
            -(mag(self.index()) as int)
        } else {
            mag(self.index()) as int
        }
    }

    /// The number with the given bit pattern.
    pub fn from_bits(bits: u64) -> (r: Double)
        ensures
            r == (Double { bits }),
    {
        Double { bits }
    }

    /// The bit pattern.
    pub fn to_bits(self) -> (r: u64)
        ensures
            r == self.bits,
    {
        self.bits
    }

    pub(crate) fn negative(self) -> (r: bool)
        ensures
            r == self.is_neg(),
    {
        self.bits >= SIGN
    }

    pub(crate) fn place(self) -> (k: u64)
        ensures
            k == self.index(),
            k < SIGN,
    {
        self.bits % SIGN
    }

    pub(crate) fn make(neg: bool, k: u64) -> (r: Double)
        requires
            k < SIGN,
        ensures
            r == signed(neg, k as nat),
            r.index() == k,
            r.is_neg() == neg,
    {
        if neg {
            Double { bits: k + SIGN }
        } else {
            Double { bits: k }
        }
    }

    /// The significand and the exponent of the magnitude.
    pub(crate) fn parts(self) -> (r: (u64, u32))
        requires
            self.finite(),
        ensures
            r.0 == significand(self.index()),
            r.1 == exponent(self.index()),
            mag(self.index()) == r.0 * pow2(r.1 as nat),
            r.0 < P53,
            r.1 <= 2045,
            r.1 > 0 ==> r.0 >= P52,
    {
        let k: u64 = self.place();
        proof {
            lemma_mag_next(k as nat);
        }
        if k < P52 {
            (k, 0)
        } else {
            (P52 + k % P52, (k / P52 - 1) as u32)
        }
    }

    /// Whether this is neither infinite nor not a number.
    pub fn is_finite(self) -> (r: bool)
        ensures
            r == self.finite(),
    {
        self.place() < INF
    }

    /// The number with the sign flipped.
    pub fn negate(self) -> (r: Double)
        ensures
            r == negation(self),
            r.index() == self.index(),
            r.is_neg() == !self.is_neg(),
    {
        Double::make(!self.negative(), self.place())
    }

    /// The number without its sign.
    pub fn abs(self) -> (r: Double)
        ensures
            r == absolute(self),
            r.index() == self.index(),
            !r.is_neg(),
    {
        Double::make(false, self.place())
    }

    /// Whether this number is less than another.
    pub fn less_than(self, other: Double) -> (r: bool)
        ensures
            r == less(self, other),
    {
        let a: u64 = self.place();
        let b: u64 = other.place();
        let x: i64 = if self.negative() {
            -(a as i64)
        } else {
            a as i64
        };
        let y: i64 = if other.negative() {
            -(b as i64)
        } else {
            b as i64
        };
        proof {
            lemma_mag_order(b as nat, a as nat);
            lemma_mag_order(0, b as nat);
        }
        a <= INF && b <= INF && x < y
    }
}

} // verus!
