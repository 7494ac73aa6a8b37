//! Binary64 numbers and integers.
use vstd::prelude::*;
use vstd::arithmetic::div_mod::{lemma_fundamental_div_mod, lemma_fundamental_div_mod_converse};
use vstd::arithmetic::power2::{
    pow2,
    lemma2_to64,
    lemma2_to64_rest,
    lemma_pow2_adds,
    lemma_pow2_pos,
    lemma_pow2_strictly_increases,
    lemma_pow2_unfold,
};

use crate::double::{rounded, whole, Double, SIGN};
use crate::rounding::{power_of_two, raise, round_exact};
use crate::scale::{lemma_nearest_exact, mag, nearest, one, INF, P52, P53};

verus! {

/// The largest integer that is not above `x`.
pub open spec fn floored(x: Double) -> Double {
    if !x.finite() || x.value() % (one() as int) == 0 {
        x
    } else {
        whole(x.value() / (one() as int))
    }
}

/// The integer nearest to `x`, halves away from zero, with the sign of `x`.
pub open spec fn rounded_off(x: Double) -> Double {
    if !x.finite() {
        x
    } else {
        rounded(x.is_neg(), ((2 * mag(x.index()) + one()) as nat / (2 * one())) * one(), 1)
    }
}

/// The integer part of `x`, held to the range of 64-bit integers; 0 for what
/// is not a number.
pub open spec fn as_integer(x: Double) -> int {
    let n = (mag(x.index()) / one()) as int;
    if x.is_nan() {
        0
    } else if x.is_neg() {
        if n > SIGN {
            -(SIGN as int)
        } else {
            -n
        }
    } else if n >= SIGN {
        SIGN - 1
    } else {
        n
    }
}

/// What a number splits into: the integer part of its magnitude, whether that
/// is all of it, and whether the rest is at least a half.
struct Split {
    whole: u64,
    exact: bool,
    half: bool,
}

impl Double {
    /// The number nearest to an integer.
    pub fn from_u64(n: u64) -> (r: Double)
        ensures
            r == whole(n as int),
            r == rounded(false, (n * one()) as nat, 1),
            r.index() == nearest((n * one()) as nat, 1),
            r.index() <= INF,
            !r.is_neg(),
    {
        proof {
            assert(1 * raise(1074) * n == (n * one()) * raise(-1074)) by (nonlinear_arith)
                requires
                    raise(1074) == one(),
                    raise(-1074) == 1,
            ;
        }
        let k: u64 = round_exact(n as u128, 1074, Ghost((n * one()) as nat), Ghost(1));
        Double::make(false, k)
    }

    fn split(self) -> (r: Split)
        requires
            self.finite(),
            crate::scale::exponent(self.index()) < 1074,
        ensures
            r.whole == mag(self.index()) / one(),
            r.exact == (mag(self.index()) % one() == 0),
            r.half == (2 * (mag(self.index()) % one()) >= one()),
            r.whole < P53,
    {
        let (m, e): (u64, u32) = self.parts();
        let d: u32 = 1074 - e;
        let ghost g = mag(self.index());
        let ghost u = pow2(e as nat);
        proof {
            lemma_pow2_pos(e as nat);
            lemma_pow2_pos(d as nat);
            lemma_pow2_adds(e as nat, d as nat);
            lemma2_to64_rest();
        }
        if d >= 64 {
            proof {
                if d > 64 {
                    lemma_pow2_strictly_increases(64, d as nat);
                }
                assert(2 * (m * u) < u * pow2(d as nat)) by (nonlinear_arith)
                    requires
                        2 * m < pow2(d as nat),
                        u > 0,
                ;
                lemma_fundamental_div_mod_converse(g as int, one() as int, 0, g as int);
                assert(g == 0 <==> m == 0) by (nonlinear_arith)
                    requires
                        g == m * u,
                        u > 0,
                ;
            }
            return Split { whole: 0, exact: m == 0, half: false };
        }
        let p: u128 = power_of_two(d);
        let q: u128 = m as u128 / p;
        let rem: u128 = m as u128 % p;
        proof {
            lemma_fundamental_div_mod(m as int, p as int);
            assert(g == one() * q + rem * u) by (nonlinear_arith)
                requires
                    g == m * u,
                    m == p * q + rem,
                    one() == u * p,
            ;
            assert(0 <= rem * u < one()) by (nonlinear_arith)
                requires
                    0 <= rem < p,
                    one() == u * p,
                    u > 0,
            ;
            lemma_fundamental_div_mod_converse(g as int, one() as int, q as int, rem * u);
            assert(rem * u == 0 <==> rem == 0) by (nonlinear_arith)
                requires
                    u > 0,
            ;
            assert(2 * (rem * u) >= one() <==> 2 * rem >= p) by (nonlinear_arith)
                requires
                    one() == u * p,
                    u > 0,
            ;
            lemma_pow2_unfold(d as nat);
            assert(q <= m) by (nonlinear_arith)
                requires
                    m == p * q + rem,
                    p > 0,
                    rem >= 0,
            ;
        }
        Split { whole: q as u64, exact: rem == 0, half: rem >= p / 2 }
    }

    /// The largest integer that is not above this number.
    pub fn floor(self) -> (r: Double)
        ensures
            r == floored(self),
    {
        if !self.is_finite() {
            return self;
        }
        let (m, e): (u64, u32) = self.parts();
        proof {
            lemma_pow2_pos(1074);
        }
        if e >= 1074 {
            proof {
                lemma_integral(m, e);
                lemma_signed_multiple(self);
            }
            return self;
        }
        let s: Split = self.split();
        let ghost g = mag(self.index());
        proof {
            lemma_fundamental_div_mod(g as int, one() as int);
            assert(one() * (g / one()) == (g / one()) * one()) by (nonlinear_arith);
        }
        if s.exact {
            proof {
                lemma_signed_multiple(self);
            }
            return self;
        }
        if self.negative() {
            proof {
                let n = s.whole as int;
                let rest = one() - g % one();
                assert(-(g as int) == one() * (-n - 1) + rest) by (nonlinear_arith)
                    requires
                        g == one() * n + g % one(),
                        rest == one() - g % one(),
                ;
                lemma_fundamental_div_mod_converse(-(g as int), one() as int, -n - 1, rest);
            }
            let up: Double = Double::from_u64(s.whole + 1);
            up.negate()
        } else {
            Double::from_u64(s.whole)
        }
    }

    /// The integer nearest to this number, halves away from zero.
    pub fn round(self) -> (r: Double)
        ensures
            r == rounded_off(self),
    {
        if !self.is_finite() {
            return self;
        }
        let (m, e): (u64, u32) = self.parts();
        let ghost g = mag(self.index());
        let ghost n = ((2 * g + one()) as nat / (2 * one())) as int;
        proof {
            lemma_pow2_pos(1074);
            lemma_fundamental_div_mod(g as int, one() as int);
        }
        if e >= 1074 {
            proof {
                lemma_integral(m, e);
                let q = (g / one()) as int;
                assert(2 * g + one() == (2 * one()) * q + one()) by (nonlinear_arith)
                    requires
                        g == one() * q,
                ;
                lemma_fundamental_div_mod_converse(
                    (2 * g + one()) as int,
                    (2 * one()) as int,
                    q,
                    one() as int,
                );
                assert(n * one() == g) by (nonlinear_arith)
                    requires
                        n == q,
                        g == one() * q,
                ;
                lemma_nearest_exact(mag(self.index()), 1, self.index());
            }
            return self;
        }
        let s: Split = self.split();
        let w: u64 = if s.half {
            s.whole + 1
        } else {
            s.whole
        };
        proof {
            let rem = (g % one()) as int;
            if s.half {
                assert(2 * g + one() == (s.whole + 1) * (2 * one()) + (2 * rem - one()))
                    by (nonlinear_arith)
                    requires
                        g == one() * s.whole + rem,
                ;
                lemma_fundamental_div_mod_converse(
                    (2 * g + one()) as int,
                    (2 * one()) as int,
                    s.whole + 1,
                    2 * rem - one(),
                );
            } else {
                assert(2 * g + one() == (2 * one()) * s.whole + (2 * rem + one()))
                    by (nonlinear_arith)
                    requires
                        g == one() * s.whole + rem,
                ;
                lemma_fundamental_div_mod_converse(
                    (2 * g + one()) as int,
                    (2 * one()) as int,
                    s.whole as int,
                    2 * rem + one(),
                );
            }
        }
        let r: Double = Double::from_u64(w);
        if self.negative() {
            r.negate()
        } else {
            r
        }
    }

    /// The integer part, held to the range of 64-bit integers.
    pub fn to_i64(self) -> (r: i64)
        ensures
            r == as_integer(self),
    {
        let k: u64 = self.place();
        if k > INF {
            return 0;
        }
        proof {
            lemma_pow2_pos(1074);
            assert(mag(k as nat) >= 0);
        }
        let n: u128 = if k == INF {
            proof {
                lemma_huge(P52, 2046);
            }
            0x8000_0000_0000_0001
        } else {
            let (m, e): (u64, u32) = self.parts();
            if e < 1074 {
                self.split().whole as u128
            } else {
                proof {
                    lemma_integral(m, e);
                }
                if e >= 1086 {
                    proof {
                        lemma_huge(m, e);
                    }
                    0x8000_0000_0000_0001
                } else {
                    let p: u128 = power_of_two(e - 1074);
                    proof {
                        lemma2_to64();
                        assert(m * p <= P53 * 2048) by (nonlinear_arith)
                            requires
                                m < P53,
                                p <= 2048,
                        ;
                        assert(p * m == m * p) by (nonlinear_arith);
                    }
                    m as u128 * p
                }
            }
        };
        if self.negative() {
            if n >= 0x8000_0000_0000_0000 {
                i64::MIN
            } else {
                -(n as i64)
            }
        } else if n >= 0x8000_0000_0000_0000 {
            i64::MAX
        } else {
            n as i64
        }
    }
}

/// A magnitude without places after the point.
proof fn lemma_integral(m: u64, e: u32)
    requires
        e >= 1074,
    ensures
        ({
            let g = (m * pow2(e as nat)) as nat;
            &&& g % one() == 0
            &&& g / one() == m * pow2((e - 1074) as nat)
        }),
{
    let g = (m * pow2(e as nat)) as nat;
    let q = m * pow2((e - 1074) as nat);
    lemma_pow2_adds(1074, (e - 1074) as nat);
    lemma_pow2_pos(1074);
    assert(g == q * one() + 0) by (nonlinear_arith)
        requires
            g == m * (one() * pow2((e - 1074) as nat)),
            q == m * pow2((e - 1074) as nat),
    ;
    lemma_fundamental_div_mod_converse(g as int, one() as int, q, 0);
}

/// Magnitudes beyond the range of 64-bit integers.
proof fn lemma_huge(m: u64, e: u32)
    requires
        m >= P52,
        e >= 1086,
    ensures
        (m * pow2(e as nat)) as nat / one() > SIGN,
{
    lemma_integral(m, e);
    lemma2_to64();
    if e > 1086 {
        lemma_pow2_strictly_increases(12, (e - 1074) as nat);
    }
    assert(m * pow2((e - 1074) as nat) > SIGN) by (nonlinear_arith)
        requires
            m >= P52,
            pow2((e - 1074) as nat) >= 4096,
    ;
}

/// Divisibility does not depend on the sign.
proof fn lemma_signed_multiple(x: Double)
    requires
        mag(x.index()) % one() == 0,
    ensures
        x.value() % (one() as int) == 0,
{
    let g = mag(x.index()) as int;
    let u = one() as int;
    lemma_pow2_pos(1074);
    lemma_fundamental_div_mod(g, u);
    assert(-g == u * (-(g / u)) + 0) by (nonlinear_arith)
        requires
            g == u * (g / u),
    ;
    lemma_fundamental_div_mod_converse(-g, u, -(g / u), 0);
}

} // verus!
