//! The four operations on binary64 numbers.
use vstd::prelude::*;
use vstd::arithmetic::power2::{
    pow2,
    lemma2_to64,
    lemma2_to64_rest,
    lemma_pow2_adds,
    lemma_pow2_pos,
    lemma_pow2_strictly_increases,
    lemma_pow2_unfold,
};

use crate::double::{difference, magnitude, product, quotient, rounded, signed, sum, Double, NAN};
use crate::rounding::{brackets, power_of_two, raise, round_bracketed, round_exact, P54};
use crate::scale::{mag, one, INF, P52, P53};

verus! {

/// Powers of two on both sides of a balance of exponents.
proof fn lemma_balance(a: nat, b: nat, e: int)
    requires
        a == b + e,
    ensures
        pow2(a) * raise(-e) == pow2(b) * raise(e),
{
    if e >= 0 {
        lemma_pow2_adds(b, e as nat);
    } else {
        lemma_pow2_adds(a, (-e) as nat);
    }
}

impl Double {
    /// The product with another number.
    pub fn times(self, other: Double) -> (r: Double)
        ensures
            r == product(self, other),
    {
        let neg: bool = self.negative() != other.negative();
        let a: u64 = self.place();
        let b: u64 = other.place();
        if a > INF || b > INF {
            return Double { bits: NAN };
        }
        if a == INF || b == INF {
            if a == 0 || b == 0 {
                return Double { bits: NAN };
            }
            return Double::make(neg, INF);
        }
        let (m1, e1): (u64, u32) = self.parts();
        let (m2, e2): (u64, u32) = other.parts();
        proof {
            assert(m1 * m2 < P53 * P53) by (nonlinear_arith)
                requires
                    m1 < P53,
                    m2 < P53,
            ;
        }
        let m: u128 = m1 as u128 * m2 as u128;
        let e: i64 = e1 as i64 + e2 as i64 - 1074;
        let ghost num = mag(a as nat) * mag(b as nat);
        proof {
            let p1 = pow2(e1 as nat);
            let p2 = pow2(e2 as nat);
            lemma_pow2_adds(e1 as nat, e2 as nat);
            lemma_balance((e1 + e2) as nat, 1074, e as int);
            lemma_pow2_pos(1074);
            assert(one() * raise(e as int) * m == num * raise(-e as int)) by (nonlinear_arith)
                requires
                    num == (m1 * p1) * (m2 * p2),
                    m == m1 * m2,
                    (p1 * p2) * raise(-e as int) == one() * raise(e as int),
            ;
        }
        let k: u64 = round_exact(m, e, Ghost(num), Ghost(one()));
        Double::make(neg, k)
    }

    /// The quotient by another number.
    pub fn over(self, other: Double) -> (r: Double)
        ensures
            r == quotient(self, other),
    {
        let neg: bool = self.negative() != other.negative();
        let a: u64 = self.place();
        let b: u64 = other.place();
        if a > INF || b > INF {
            return Double { bits: NAN };
        }
        if a == INF {
            if b == INF {
                return Double { bits: NAN };
            }
            return Double::make(neg, INF);
        }
        if b == INF {
            return Double::make(neg, 0);
        }
        if b == 0 {
            if a == 0 {
                return Double { bits: NAN };
            }
            return Double::make(neg, INF);
        }
        let (m1, e1): (u64, u32) = self.parts();
        let (m2, e2): (u64, u32) = other.parts();
        let ghost num = mag(a as nat) * one();
        let ghost den = mag(b as nat);
        proof {
            lemma_pow2_pos(e1 as nat);
            lemma_pow2_pos(e2 as nat);
            assert(m2 > 0);
            assert(den > 0) by (nonlinear_arith)
                requires
                    den == m2 * pow2(e2 as nat),
                    m2 > 0,
                    pow2(e2 as nat) > 0,
            ;
        }
        if a == 0 {
            proof {
                assert(num == 0) by (nonlinear_arith)
                    requires
                        num == 0 * one(),
                ;
                crate::scale::lemma_nearest_zero(den);
            }
            return Double::make(neg, 0);
        }
        let (k, j): (u128, u32) = normalize(m1);
        let q: u128 = k / m2 as u128;
        let r: u128 = k % m2 as u128;
        let e: i64 = e1 as i64 + 1074 - j as i64 - e2 as i64;
        proof {
            lemma_quotient(num, den, m1, e1, m2, e2, k, j, q, r, e);
        }
        let place: u64 = round_bracketed(q, e, r == 0, Ghost(num), Ghost(den));
        Double::make(neg, place)
    }
}

impl Double {
    /// The sum with another number.
    pub fn plus(self, other: Double) -> (r: Double)
        ensures
            r == sum(self, other),
    {
        let a: u64 = self.place();
        let b: u64 = other.place();
        if a > INF || b > INF {
            return Double { bits: NAN };
        }
        if a == INF && b == INF && self.negative() != other.negative() {
            return Double { bits: NAN };
        }
        if a == INF {
            return self;
        }
        if b == INF {
            return other;
        }
        let (m1, e1): (u64, u32) = self.parts();
        let (m2, e2): (u64, u32) = other.parts();
        if e1 >= e2 {
            add_parts(self.negative(), m1, e1, other.negative(), m2, e2)
        } else {
            add_parts(other.negative(), m2, e2, self.negative(), m1, e1)
        }
    }

    /// The difference from another number.
    pub fn minus(self, other: Double) -> (r: Double)
        ensures
            r == difference(self, other),
    {
        self.plus(other.negate())
    }
}

/// A signed number of units.
spec fn amount(neg: bool, m: u64, e: u32) -> int {
    if neg {
        -(m * pow2(e as nat))
    } else {
        m * pow2(e as nat)
    }
}

/// The sum of two finite numbers, the one with the larger exponent first.
fn add_parts(n1: bool, m1: u64, e1: u32, n2: bool, m2: u64, e2: u32) -> (r: Double)
    requires
        m1 < P53,
        m2 < P53,
        e2 <= e1 <= 2045,
        e1 > 0 ==> m1 >= P52,
    ensures
        ({
            let v = amount(n1, m1, e1) + amount(n2, m2, e2);
            r == if v == 0 {
                signed(n1 && n2, 0)
            } else {
                rounded(v < 0, magnitude(v), 1)
            }
        }),
{
    let ghost v = amount(n1, m1, e1) + amount(n2, m2, e2);
    let ghost p1 = pow2(e1 as nat);
    let ghost p2 = pow2(e2 as nat);
    let d: u32 = e1 - e2;
    proof {
        lemma_pow2_pos(e1 as nat);
        lemma_pow2_pos(e2 as nat);
        lemma_pow2_adds(e2 as nat, d as nat);
        lemma2_to64();
    }
    if d <= 70 {
        let p: u128 = power_of_two(d);
        proof {
            lemma2_to64_rest();
            lemma_pow2_adds(64, 6);
            if d < 70 {
                lemma_pow2_strictly_increases(d as nat, 70);
            }
            assert(m1 * p <= P53 * 0x40_0000_0000_0000_0000) by (nonlinear_arith)
                requires
                    m1 < P53,
                    p <= 0x40_0000_0000_0000_0000,
            ;
        }
        let x: u128 = m1 as u128 * p;
        let y: u128 = m2 as u128;
        proof {
            assert(m1 * p1 == x * p2) by (nonlinear_arith)
                requires
                    x == m1 * p,
                    p1 == p2 * p,
            ;
        }
        let (neg, z): (bool, u128) = if n1 == n2 {
            (n1, x + y)
        } else if x >= y {
            (n1, x - y)
        } else {
            (n2, y - x)
        };
        proof {
            assert(magnitude(v) == z * p2) by {
                assert((x + y) * p2 == x * p2 + y * p2) by (nonlinear_arith);
                assert((x - y) * p2 == x * p2 - y * p2) by (nonlinear_arith);
                assert((y - x) * p2 == y * p2 - x * p2) by (nonlinear_arith);
                assert(z * p2 >= 0) by (nonlinear_arith);
            }
        }
        if z == 0 {
            assert(v == 0) by (nonlinear_arith)
                requires
                    magnitude(v) == z * p2,
                    z == 0,
            ;
            assert(n1 == n2 ==> x == 0 && y == 0);
            return Double::make(n1 && n2, 0);
        }
        proof {
            assert(magnitude(v) > 0) by (nonlinear_arith)
                requires
                    magnitude(v) == z * p2,
                    z > 0,
                    p2 > 0,
            ;
            assert((v < 0) == neg) by {
                assert(x * p2 >= 0) by (nonlinear_arith);
                assert(y * p2 >= 0) by (nonlinear_arith);
                assert(x >= y ==> x * p2 >= y * p2) by (nonlinear_arith);
                assert(x < y ==> x * p2 < y * p2) by (nonlinear_arith)
                    requires
                        p2 > 0,
                ;
            }
            assert(1 * raise(e2 as int) * z == magnitude(v) * raise(-e2 as int)) by (nonlinear_arith)
                requires
                    raise(e2 as int) == p2,
                    raise(-e2 as int) == 1,
                    magnitude(v) == z * p2,
            ;
        }
        let k: u64 = round_exact(z, e2 as i64, Ghost(magnitude(v)), Ghost(1));
        Double::make(neg, k)
    } else {
        let ghost whole = m1 * p1;
        let ghost small = m2 * p2;
        let ghost unit = pow2((e1 - 3) as nat);
        proof {
            lemma_pow2_adds((e1 - 3) as nat, 3);
            lemma_pow2_pos((e1 - 3) as nat);
            assert(small < unit) by {
                lemma_pow2_adds(e2 as nat, 53);
                lemma2_to64_rest();
                assert(small < p2 * P53) by (nonlinear_arith)
                    requires
                        small == m2 * p2,
                        m2 < P53,
                        p2 > 0,
                ;
                if e2 + 53 < e1 - 3 {
                    lemma_pow2_strictly_increases((e2 + 53) as nat, (e1 - 3) as nat);
                }
            }
            assert(small >= 0) by (nonlinear_arith)
                requires
                    small == m2 * p2,
            ;
            assert(whole == unit * (8 * m1)) by (nonlinear_arith)
                requires
                    whole == m1 * p1,
                    p1 == unit * 8,
            ;
            assert(unit * (8 * m1) >= unit) by (nonlinear_arith)
                requires
                    m1 >= 1,
                    unit > 0,
            ;
            assert(unit * (8 * m1 + 1) == unit * (8 * m1) + unit) by (nonlinear_arith);
            assert(unit * (8 * m1 - 1) == unit * (8 * m1) - unit) by (nonlinear_arith);
            assert(small == 0 <==> m2 == 0) by (nonlinear_arith)
                requires
                    small == m2 * p2,
                    p2 > 0,
            ;
        }
        let same: bool = n1 == n2;
        let exact: bool = m2 == 0;
        let m: u128 = if same || exact {
            8 * m1 as u128
        } else {
            8 * m1 as u128 - 1
        };
        proof {
            let w = magnitude(v);
            assert((v < 0) == n1 && v != 0);
            assert(w == if same { whole + small } else { whole - small });
            assert(raise((e1 - 3) as int) == unit);
            assert(raise(-((e1 - 3) as int)) == 1);
            assert(1 * unit * m == unit * m) by (nonlinear_arith);
            assert(1 * unit * (m + 1) == unit * (m + 1)) by (nonlinear_arith);
            assert(w * 1 == w);
            assert(brackets(w, 1, m as nat, (e1 - 3) as int, exact));
        }
        let k: u64 = round_bracketed(
            m,
            e1 as i64 - 3,
            exact,
            Ghost(magnitude(v)),
            Ghost(1),
        );
        Double::make(n1, k)
    }
}

/// Fills a significand up to 127 binary digits.
fn normalize(m: u64) -> (r: (u128, u32))
    requires
        0 < m < P53,
    ensures
        r.0 == m * pow2(r.1 as nat),
        0x4000_0000_0000_0000_0000_0000_0000_0000 <= r.0,
        r.0 < 0x8000_0000_0000_0000_0000_0000_0000_0000,
        r.1 <= 126,
{
    let mut k: u128 = m as u128;
    let mut j: u32 = 0;
    proof {
        lemma2_to64();
        assert(m * 1 == m);
    }
    while k < 0x4000_0000_0000_0000_0000_0000_0000_0000
        invariant
            0 < m,
            k == m * pow2(j as nat),
            k < 0x8000_0000_0000_0000_0000_0000_0000_0000,
            j <= 126,
        decreases 126 - j,
    {
        proof {
            lemma_pow2_unfold((j + 1) as nat);
            assert(2 * (m * pow2(j as nat)) == m * (2 * pow2(j as nat))) by (nonlinear_arith);
            crate::rounding::lemma_pow2_127(0);
            lemma_pow2_unfold(127);
            if j >= 126 {
                assert(k >= pow2(126)) by (nonlinear_arith)
                    requires
                        k == m * pow2(126),
                        m > 0,
                ;
            }
        }
        k = k * 2;
        j = j + 1;
    }
    (k, j)
}

/// The integer quotient of the significands brackets the quotient.
proof fn lemma_quotient(
    num: nat,
    den: nat,
    m1: u64,
    e1: u32,
    m2: u64,
    e2: u32,
    k: u128,
    j: u32,
    q: u128,
    r: u128,
    e: i64,
)
    requires
        num == (m1 * pow2(e1 as nat)) * one(),
        den == m2 * pow2(e2 as nat),
        0 < m2 < P53,
        k == m1 * pow2(j as nat),
        0x4000_0000_0000_0000_0000_0000_0000_0000 <= k,
        k < 0x8000_0000_0000_0000_0000_0000_0000_0000,
        q == k / m2 as u128,
        r == k % m2 as u128,
        e == e1 + 1074 - j - e2,
    ensures
        brackets(num, den, q as nat, e as int, r == 0),
        P54 <= q < 0x8000_0000_0000_0000_0000_0000_0000_0000,
{
    let up = raise(e as int);
    let down = raise(-e as int);
    let p1 = pow2(e1 as nat);
    let p2 = pow2(e2 as nat);
    let pj = pow2(j as nat);
    lemma_pow2_pos(e1 as nat);
    lemma_pow2_pos(e2 as nat);
    lemma_pow2_pos(j as nat);
    lemma_pow2_pos(1074);
    lemma_pow2_adds(e1 as nat, 1074);
    lemma_pow2_adds(e2 as nat, j as nat);
    lemma_balance((e1 + 1074) as nat, (e2 + j) as nat, e as int);
    if e >= 0 {
        lemma_pow2_pos(e as nat);
    } else {
        lemma_pow2_pos((-e) as nat);
    }
    vstd::arithmetic::div_mod::lemma_fundamental_div_mod(k as int, m2 as int);
    assert(k == m2 * q + r);
    // Both sides of the bracket, scaled by `pj`, share the factor `f`.
    let f = (p2 * pj) * up;
    assert(f == (p1 * one()) * down);
    assert(f > 0) by (nonlinear_arith)
        requires
            f == (p2 * pj) * up,
            p2 > 0,
            pj > 0,
            up > 0,
    ;
    assert((num * down) * pj == k * f) by (nonlinear_arith)
        requires
            num == (m1 * p1) * one(),
            k == m1 * pj,
            f == (p1 * one()) * down,
    ;
    assert((den * up * q) * pj == (m2 * q) * f) by (nonlinear_arith)
        requires
            den == m2 * p2,
            f == (p2 * pj) * up,
    ;
    assert((den * up * (q + 1)) * pj == (m2 * (q + 1)) * f) by (nonlinear_arith)
        requires
            den == m2 * p2,
            f == (p2 * pj) * up,
    ;
    assert(m2 * (q + 1) == m2 * q + m2) by (nonlinear_arith);
    assert((m2 * q) * f <= k * f) by (nonlinear_arith)
        requires
            m2 * q <= k,
    ;
    assert(k * f < (m2 * (q + 1)) * f) by (nonlinear_arith)
        requires
            k < m2 * (q + 1),
            f > 0,
    ;
    assert(den * up * q <= num * down) by (nonlinear_arith)
        requires
            (den * up * q) * pj <= (num * down) * pj,
            pj > 0,
    ;
    assert(num * down < den * up * (q + 1)) by (nonlinear_arith)
        requires
            (num * down) * pj < (den * up * (q + 1)) * pj,
            pj > 0,
    ;
    if r == 0 {
        assert(den * up * q == num * down) by (nonlinear_arith)
            requires
                (den * up * q) * pj == (num * down) * pj,
                pj > 0,
        ;
    } else {
        assert((m2 * q) * f < k * f) by (nonlinear_arith)
            requires
                m2 * q < k,
                f > 0,
        ;
    }
    assert(P54 <= q) by (nonlinear_arith)
        requires
            0x4000_0000_0000_0000_0000_0000_0000_0000 <= k,
            k < m2 * (q + 1),
            0 < m2 < P53,
    ;
    assert(q <= k) by (nonlinear_arith)
        requires
            m2 * q <= k,
            m2 > 0,
    ;
}

} // verus!
