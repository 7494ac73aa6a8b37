//! Where rounding is exact, and how it keeps the order of numbers.
use vstd::prelude::*;
use vstd::arithmetic::div_mod::lemma_fundamental_div_mod_converse;
use vstd::arithmetic::power2::{
    lemma2_to64, lemma2_to64_rest, lemma_pow2_adds, lemma_pow2_pos, lemma_pow2_strictly_increases,
    pow2,
};

use crate::double::{magnitude, negation, product, signed, sum, whole, Double, SIGN};
use crate::rounding::lemma_settle;
use crate::scale::{
    exponent, is_nearest, lemma_mag_form, lemma_mag_next, lemma_mag_order, lemma_nearest_exact,
    lemma_nearest_zero, mag, nearest, one, significand, spacing, INF, P52, P53,
};

verus! {

/// Every quotient rounds to an index: one that is nearest to it, and the even
/// one of two that are equally near. By `lemma_nearest_unique` there is no
/// other.
pub proof fn law_every_quotient_rounds(num: nat, den: nat)
    requires
        den > 0,
    ensures
        is_nearest(num, den, nearest(num, den)),
        nearest(num, den) <= INF,
{
    let top = mag(INF as nat);
    if num >= den * top {
        lemma_mag_next((INF - 1) as nat);
        let below = mag((INF - 1) as nat);
        assert(den * (below + top) < 2 * num) by (nonlinear_arith)
            requires
                den > 0,
                below < top,
                num >= den * top,
        ;
        assert(is_nearest(num, den, INF as nat));
    } else {
        assert(den * mag(0) == 0) by (nonlinear_arith)
            requires
                mag(0) == 0,
        ;
        let k = lemma_between(num, den, INF as nat);
        let mid = den * (mag(k) + mag(k + 1));
        let up = 2 * num > mid || (2 * num == mid && k % 2 == 1);
        lemma_settle(num, den, k, up);
    }
}

/// A quotient below a magnitude lies between two neighbouring ones.
proof fn lemma_between(num: nat, den: nat, top: nat) -> (k: nat)
    requires
        num < den * mag(top),
    ensures
        k < top,
        den * mag(k) <= num < den * mag(k + 1),
    decreases top,
{
    if top == 0 {
        assert(den * mag(0) == 0) by (nonlinear_arith)
            requires
                mag(0) == 0,
        ;
    }
    let k = (top - 1) as nat;
    if den * mag(k) <= num {
        k
    } else {
        lemma_between(num, den, k)
    }
}

/// Rounding keeps the order of quotients.
pub proof fn law_rounding_is_monotone(num: nat, den: nat, num2: nat, den2: nat)
    requires
        den > 0,
        den2 > 0,
        num * den2 <= num2 * den,
    ensures
        nearest(num, den) <= nearest(num2, den2),
{
    law_every_quotient_rounds(num, den);
    law_every_quotient_rounds(num2, den2);
    let a = nearest(num, den);
    let b = nearest(num2, den2);
    if b < a {
        let lo = mag((a - 1) as nat) + mag(a);
        let hi = mag(b) + mag(b + 1);
        lemma_mag_order(b, (a - 1) as nat);
        lemma_mag_order(b + 1, a);
        // num / den >= lo / 2 >= hi / 2 >= num2 / den2
        assert(den2 * (den * lo) <= 2 * (num * den2)) by (nonlinear_arith)
            requires
                den * lo <= 2 * num,
                den2 > 0,
        ;
        assert(2 * (num2 * den) <= den * (den2 * hi)) by (nonlinear_arith)
            requires
                2 * num2 <= den2 * hi,
                den > 0,
        ;
        assert(den * (den2 * hi) <= den2 * (den * lo)) by (nonlinear_arith)
            requires
                hi <= lo,
                den > 0,
                den2 > 0,
        ;
        if hi < lo {
            assert(den * (den2 * hi) < den2 * (den * lo)) by (nonlinear_arith)
                requires
                    hi < lo,
                    den > 0,
                    den2 > 0,
            ;
        } else {
            // Both are halfway between b and b + 1 == a, and only one is even.
            if den * lo < 2 * num {
                assert(den2 * (den * lo) < 2 * (num * den2)) by (nonlinear_arith)
                    requires
                        den * lo < 2 * num,
                        den2 > 0,
                ;
            }
            if 2 * num2 < den2 * hi {
                assert(2 * (num2 * den) < den * (den2 * hi)) by (nonlinear_arith)
                    requires
                        2 * num2 < den2 * hi,
                        den > 0,
                ;
            }
            assert(den * (den2 * hi) == den2 * (den * lo)) by (nonlinear_arith)
                requires
                    hi == lo,
            ;
        }
    }
}

/// The sign and the index that a number is made of.
pub proof fn lemma_signed(neg: bool, k: nat)
    requires
        k < SIGN,
    ensures
        signed(neg, k).is_neg() == neg,
        signed(neg, k).index() == k,
{
}

/// An integer in the range of a significand becomes one by doubling.
proof fn lemma_normal(m: nat) -> (s: nat)
    requires
        0 < m <= P53,
    ensures
        P52 <= m * pow2(s) <= P53,
        s <= 53,
    decreases P53 - m,
{
    lemma2_to64();
    lemma2_to64_rest();
    if m >= P52 {
        0
    } else {
        let t = lemma_normal(2 * m);
        assert((2 * m) * pow2(t) == m * pow2(t + 1)) by (nonlinear_arith)
            requires
                pow2(t + 1) == 2 * pow2(t),
        ;
        if t + 1 > 53 {
            assert(m * pow2(t + 1) >= pow2(t + 1)) by (nonlinear_arith)
                requires
                    m >= 1,
                    pow2(t + 1) >= 0,
            ;
        }
        t + 1
    }
}

/// A number of at most 53 binary places is on the scale.
pub proof fn lemma_dyadic(m: nat, e: nat) -> (k: nat)
    requires
        0 < m <= P53,
        e <= 1900,
    ensures
        k < INF,
        mag(k) == m * pow2(e),
{
    let s = lemma_normal(m);
    if e < s {
        let v = m * pow2(e);
        lemma_pow2_strictly_increases(e, s);
        assert(v <= m * pow2(s)) by (nonlinear_arith)
            requires
                v == m * pow2(e),
                pow2(e) <= pow2(s),
        ;
        lemma_mag_form(0, v);
        lemma2_to64();
        v
    } else {
        let t = (e - s) as nat;
        let q = m * pow2(s);
        lemma_mag_form(t, q);
        lemma_pow2_adds(s, t);
        assert((m * pow2(s)) * pow2(t) == m * (pow2(s) * pow2(t))) by (nonlinear_arith);
        (t * P52 + q) as nat
    }
}

/// Rounding moves a quotient by at most half the distance of its result from
/// the next magnitude.
pub proof fn law_rounding_moves_by_half_a_step(num: nat, den: nat)
    requires
        den > 0,
        nearest(num, den) < INF,
    ensures
        2 * (den * mag(nearest(num, den))) <= 2 * num + den * spacing(nearest(num, den)),
        2 * num <= 2 * (den * mag(nearest(num, den))) + den * spacing(nearest(num, den)),
{
    law_every_quotient_rounds(num, den);
    let k = nearest(num, den);
    let x = mag(k);
    let s = spacing(k);
    lemma_mag_next(k);
    assert(den * (x + mag(k + 1)) == 2 * (den * x) + den * s) by (nonlinear_arith)
        requires
            mag(k + 1) == x + s,
    ;
    if k > 0 {
        let j = (k - 1) as nat;
        lemma_mag_next(j);
        lemma_spacing(j);
        let y = mag(j);
        assert(2 * (den * x) <= den * (y + x) + den * s) by (nonlinear_arith)
            requires
                x <= y + s,
                den > 0,
        ;
    } else {
        assert(den * x == 0) by (nonlinear_arith)
            requires
                x == 0,
        ;
    }
}

/// The magnitudes do not lie closer together further up.
proof fn lemma_spacing(j: nat)
    ensures
        spacing(j) <= spacing(j + 1),
{
    let a = exponent(j);
    let b = exponent(j + 1);
    assert(a <= b);
    if a < b {
        lemma_pow2_strictly_increases(a, b);
    }
}

/// An integer rounds to an integer.
pub proof fn lemma_integers_round_to_integers(n: nat)
    ensures
        ({
            let k = nearest(n * one(), 1);
            k < INF ==> mag(k) % one() == 0
        }),
{
    let u = one() as int;
    let k = nearest(n * one(), 1);
    lemma_pow2_pos(1074);
    if n <= P53 {
        let j = lemma_integer_index(n);
        lemma_nearest_exact(mag(j), 1, j);
        lemma_fundamental_div_mod_converse(n * u, u, n as int, 0);
    } else if k < INF {
        let j = (1074 * P52 + P53) as nat;
        lemma_mag_form(1074, P53 as nat);
        lemma_nearest_exact(mag(j), 1, j);
        assert(mag(j) * 1 <= (n * u) * 1) by (nonlinear_arith)
            requires
                mag(j) == P53 * u,
                n >= P53,
                u > 0,
        ;
        law_rounding_is_monotone(mag(j), 1, n * one(), 1);
        lemma_mag_next(k);
        let d = (exponent(k) - 1074) as nat;
        lemma_pow2_adds(1074, d);
        let m = significand(k) as int;
        assert(m * (u * pow2(d)) == (m * pow2(d)) * u + 0) by (nonlinear_arith);
        lemma_fundamental_div_mod_converse(mag(k) as int, u, m * pow2(d), 0);
    }
}

/// Integers of up to 53 binary places are held exactly.
pub proof fn law_integers_are_exact(n: int)
    requires
        -P53 <= n <= P53,
    ensures
        whole(n).finite(),
        whole(n).is_neg() == (n < 0),
        mag(whole(n).index()) == magnitude(n) * one(),
        whole(n).value() == n * one(),
{
    let m = magnitude(n);
    if m == 0 {
        assert(m * one() == 0) by (nonlinear_arith)
            requires
                m == 0,
        ;
        assert(n * one() == 0) by (nonlinear_arith)
            requires
                n == 0,
        ;
        lemma_nearest_zero(1);
    } else {
        let k = lemma_dyadic(m, 1074);
        lemma_nearest_exact(mag(k), 1, k);
        assert(-(m * one()) == n * one() || m * one() == n * one()) by (nonlinear_arith)
            requires
                m == n || m == -n,
        ;
        if n < 0 {
            assert(-(m * one()) == n * one()) by (nonlinear_arith)
                requires
                    m == -n,
            ;
        }
    }
}

/// Multiplying by one changes nothing, and multiplying by minus one changes
/// only the sign.
pub proof fn law_signs(x: Double)
    requires
        !x.is_nan(),
    ensures
        product(whole(1), x) == x,
        product(negation(whole(1)), x) == negation(x),
{
    law_integers_are_exact(1);
    let w = whole(1);
    let k = x.index();
    lemma_pow2_pos(1074);
    if x.finite() {
        assert(mag(w.index()) * mag(k) == one() * mag(k)) by (nonlinear_arith)
            requires
                mag(w.index()) == 1 * one(),
        ;
        lemma_nearest_exact(one() * mag(k), one(), k);
    }
}

/// `x` is `n` divided by two to the power of `s`.
pub open spec fn is_dyadic(x: Double, n: int, s: nat) -> bool {
    x.finite() && x.value() * pow2(s) == n * one()
}

/// The value of a number in units of its last binary place.
proof fn lemma_dyadic_value(x: Double, n: int, s: nat)
    requires
        x.finite(),
        s <= 1074,
    ensures
        is_dyadic(x, n, s) <==> x.value() == n * pow2((1074 - s) as nat),
{
    let p = pow2(s) as int;
    let r = pow2((1074 - s) as nat) as int;
    let v = x.value();
    lemma_pow2_adds(s, (1074 - s) as nat);
    lemma_pow2_pos(s);
    assert(v * p == n * (p * r) <==> v == n * r) by (nonlinear_arith)
        requires
            p > 0,
    ;
}

/// The magnitude of an integer is on the scale.
proof fn lemma_integer_index(m: nat) -> (k: nat)
    requires
        m <= P53,
    ensures
        k < INF,
        mag(k) == m * one(),
{
    lemma_index(m, 1074)
}

/// The magnitude of a number of at most 53 binary places is on the scale.
proof fn lemma_index(m: nat, e: nat) -> (k: nat)
    requires
        m <= P53,
        e <= 1900,
    ensures
        k < INF,
        mag(k) == m * pow2(e),
{
    if m == 0 {
        assert(m * pow2(e) == 0) by (nonlinear_arith)
            requires
                m == 0,
        ;
        0
    } else {
        lemma_dyadic(m, e)
    }
}

/// The magnitude and the sign of a number of so many units.
proof fn lemma_unit_magnitude(x: Double, n: int, u: int)
    requires
        u > 0,
        x.value() == n * u,
    ensures
        mag(x.index()) == magnitude(n) * u,
        x.is_neg() ==> n <= 0,
        !x.is_neg() ==> n >= 0,
{
    let g = mag(x.index()) as int;
    assert(n * u <= 0 ==> n <= 0) by (nonlinear_arith)
        requires
            u > 0,
    ;
    assert(n * u >= 0 ==> n >= 0) by (nonlinear_arith)
        requires
            u > 0,
    ;
    assert(g == magnitude(n) * u) by (nonlinear_arith)
        requires
            g >= 0,
            g == n * u || -g == n * u,
            u > 0,
            magnitude(n) == n || magnitude(n) == -n,
            magnitude(n) >= 0,
    ;
}

/// Sums are exact where numbers and sum need at most 53 binary places of the
/// same kind.
pub proof fn law_dyadic_sums_are_exact(a: Double, b: Double, m: int, n: int, s: nat)
    requires
        s <= 1074,
        is_dyadic(a, m, s),
        is_dyadic(b, n, s),
        -P53 <= m + n <= P53,
    ensures
        is_dyadic(sum(a, b), m + n, s),
{
    let e = (1074 - s) as nat;
    let u = pow2(e) as int;
    lemma_pow2_pos(e);
    lemma_dyadic_value(a, m, s);
    lemma_dyadic_value(b, n, s);
    let v = a.value() + b.value();
    assert(v == (m + n) * u) by (nonlinear_arith)
        requires
            v == m * u + n * u,
    ;
    if v != 0 {
        let k = lemma_index(magnitude(m + n), e);
        assert(magnitude(v) == magnitude(m + n) * u && (v < 0 <==> m + n < 0)) by (nonlinear_arith)
            requires
                v == (m + n) * u,
                u > 0,
                magnitude(v) == if v < 0 { -v } else { v },
                magnitude(m + n) == if m + n < 0 { -(m + n) } else { m + n },
        ;
        lemma_nearest_exact(mag(k), 1, k);
    }
    lemma_dyadic_value(sum(a, b), m + n, s);
}

/// Products are exact where they need at most 53 binary places.
pub proof fn law_dyadic_products_are_exact(
    a: Double,
    b: Double,
    m: int,
    n: int,
    s: nat,
    r: nat,
)
    requires
        s + r <= 1074,
        is_dyadic(a, m, s),
        is_dyadic(b, n, r),
        -P53 <= m * n <= P53,
    ensures
        is_dyadic(product(a, b), m * n, s + r),
{
    let u = pow2((1074 - s) as nat) as int;
    let w = pow2((1074 - r) as nat) as int;
    let e = (1074 - s - r) as nat;
    let x = pow2(e) as int;
    lemma_pow2_pos((1074 - s) as nat);
    lemma_pow2_pos((1074 - r) as nat);
    lemma_pow2_pos(e);
    lemma_pow2_pos(1074);
    lemma_dyadic_value(a, m, s);
    lemma_dyadic_value(b, n, r);
    lemma_unit_magnitude(a, m, u);
    lemma_unit_magnitude(b, n, w);
    lemma_pow2_adds((1074 - s) as nat, (1074 - r) as nat);
    lemma_pow2_adds(1074, e);
    assert(u * w == one() * x);
    let p = magnitude(m) as int;
    let q = magnitude(n) as int;
    assert(magnitude(m * n) == p * q) by (nonlinear_arith)
        requires
            p == if m < 0 { -m } else { m },
            q == if n < 0 { -n } else { n },
            magnitude(m * n) == if m * n < 0 { -(m * n) } else { m * n },
    ;
    let k = lemma_index(magnitude(m * n), e);
    assert((p * u) * (q * w) == one() * ((p * q) * x)) by (nonlinear_arith)
        requires
            u * w == one() * x,
    ;
    lemma_nearest_exact(mag(a.index()) * mag(b.index()), one(), k);
    let neg = a.is_neg() != b.is_neg();
    let g = mag(k) as int;
    assert((if neg {
        -g
    } else {
        g
    }) == (m * n) * x) by (nonlinear_arith)
        requires
            g == (p * q) * x,
            p == if m < 0 { -m } else { m },
            q == if n < 0 { -n } else { n },
            a.is_neg() ==> m <= 0,
            !a.is_neg() ==> m >= 0,
            b.is_neg() ==> n <= 0,
            !b.is_neg() ==> n >= 0,
            neg == (a.is_neg() != b.is_neg()),
    ;
    lemma_dyadic_value(product(a, b), m * n, s + r);
}

/// The negation of a number.
pub proof fn lemma_negated(x: Double, n: int, s: nat)
    requires
        is_dyadic(x, n, s),
    ensures
        is_dyadic(negation(x), -n, s),
{
    assert((-n) * one() == -(n * one())) by (nonlinear_arith);
    assert((-x.value()) * pow2(s) == -(x.value() * pow2(s))) by (nonlinear_arith);
}

/// What is an integer is the number that stands for it, but for the sign of
/// zero.
pub proof fn lemma_dyadic_whole(x: Double, n: int)
    requires
        -P53 <= n <= P53,
    ensures
        is_dyadic(whole(n), n, 0),
        is_dyadic(x, n, 0) && (n == 0 ==> !x.is_neg()) ==> x == whole(n),
{
    law_integers_are_exact(n);
    lemma2_to64();
    assert(whole(n).value() * 1 == whole(n).value());
    if is_dyadic(x, n, 0) && (n == 0 ==> !x.is_neg()) {
        assert(x.value() * 1 == x.value());
        lemma_pow2_pos(1074);
        lemma_unit_magnitude(x, n, one() as int);
        lemma_mag_order(x.index(), whole(n).index());
    }
}

} // verus!
