//! What small rationals look like.
use vstd::prelude::*;
use vstd::arithmetic::div_mod::{lemma_fundamental_div_mod, lemma_fundamental_div_mod_converse};
use vstd::arithmetic::power2::{
    lemma2_to64, lemma2_to64_rest, lemma_pow2_adds, lemma_pow2_pos, lemma_pow2_strictly_increases,
    pow2,
};

use crate::double::{
    absolute, difference, magnitude, negation, quotient, rounded, signed, whole, Double,
};
use crate::exact::{
    law_every_quotient_rounds, law_integers_are_exact, law_rounding_is_monotone,
    law_rounding_moves_by_half_a_step, lemma_dyadic, lemma_signed,
};
use crate::format::{
    fraction, fraction_text, integer_numerator, is_close, is_denominator, is_fraction, is_near_zero,
    lemma_numerator_is_integral, num_text, numerator, EPSILON, TOLERANCE,
};
use crate::options::RenderOpts;
use crate::scale::{
    exponent, lemma_mag_form, lemma_mag_next, lemma_mag_order, lemma_nearest_exact,
    lemma_nearest_zero, mag, nearest, one, significand, spacing, INF, P52, P53,
};
use crate::shown::{law_tolerances, lemma_close_to_itself, lemma_least, lemma_whole_parts};
use crate::text::{int_text, nat_text};

verus! {

/// A step that no number below `pow2(32)` is rounded by more than.
spec fn step() -> nat {
    pow2(1054)
}

/// How many steps one is.
proof fn lemma_step()
    ensures
        step() > 0,
        one() == 0x10_0000 * step(),
        pow2(1106) == 0x1_0000_0000 * one(),
{
    lemma2_to64();
    lemma_pow2_pos(1054);
    lemma_pow2_adds(20, 1054);
    lemma_pow2_adds(32, 1074);
}

/// Rounding moves a number by at most `pow2(e)` units if it is less than
/// `pow2(52)` times that.
proof fn lemma_error(num: nat, den: nat, e: nat)
    requires
        den > 0,
        53 <= e <= 1800,
        num < den * pow2(e + 52),
    ensures
        nearest(num, den) < INF,
        den * mag(nearest(num, den)) <= num + den * pow2(e),
        num <= den * mag(nearest(num, den)) + den * pow2(e),
{
    let u = pow2(e);
    lemma_pow2_pos(e);
    let k = nearest(num, den);
    lemma2_to64_rest();
    lemma_pow2_adds(52, e);
    let unit = den * u;
    assert(unit > 0) by (nonlinear_arith)
        requires
            den > 0,
            u > 0,
            unit == den * u,
    ;
    let g = (num as int / unit as int) as nat;
    lemma_fundamental_div_mod(num as int, unit as int);
    let rem = num as int % unit as int;
    assert(num as int / unit as int >= 0) by (nonlinear_arith)
        requires
            num == unit * (num as int / unit as int) + rem,
            0 <= rem < unit,
            num >= 0,
    ;
    assert(g < P52) by (nonlinear_arith)
        requires
            num == unit * g + rem,
            rem >= 0,
            num < den * (P52 * u),
            unit == den * u,
            unit > 0,
    ;
    assert(num == (g * u) * den + rem) by (nonlinear_arith)
        requires
            num == unit * g + rem,
            unit == den * u,
    ;
    let kh = lemma_dyadic(g + 1, e);
    assert(num * 1 <= ((g + 1) * u) * den) by (nonlinear_arith)
        requires
            num == (g * u) * den + rem,
            rem < den * u,
    ;
    law_rounding_is_monotone(num, den, mag(kh), 1);
    lemma_nearest_exact(mag(kh), 1, kh);
    lemma_mag_order(kh, k);
    if g > 0 {
        let kl = lemma_dyadic(g, e);
        law_rounding_is_monotone(mag(kl), 1, num, den);
        lemma_nearest_exact(mag(kl), 1, kl);
        lemma_mag_order(k, kl);
    }
    let x = mag(k);
    assert(g * u <= x <= (g + 1) * u) by {
        if g == 0 {
            assert(g * u == 0) by (nonlinear_arith)
                requires
                    g == 0,
            ;
        }
    }
    assert(den * x <= num + den * u) by (nonlinear_arith)
        requires
            x <= (g + 1) * u,
            num == (g * u) * den + rem,
            rem >= 0,
            den > 0,
    ;
    assert(num <= den * x + den * u) by (nonlinear_arith)
        requires
            g * u <= x,
            num == (g * u) * den + rem,
            rem < den * u,
            den > 0,
    ;
}

/// What is known of the number nearest to `m / q`: its magnitude `x`.
spec fn approximates(x: nat, m: nat, q: nat) -> bool {
    &&& q * x <= m * one() + q * step()
    &&& m * one() <= q * x + q * step()
}

/// The numerator that goes with the denominator `r`, for a magnitude.
spec fn best_numerator(k: nat, r: nat) -> nat {
    (2 * mag(nearest(mag(k) * (r * one()), one())) + one()) as nat / (2 * one())
}

/// How the numerator of a number is found.
proof fn lemma_numerator(neg: bool, k: nat, r: nat)
    requires
        k < INF,
        1 <= r <= 64,
        mag(k) <= 0x200_0001 * one(),
    ensures
        numerator(signed(neg, k), r as int) == rounded(neg, best_numerator(k, r) * one(), 1),
        best_numerator(k, r) <= 2_147_483_714,
        ({
            let n = best_numerator(k, r);
            let t = mag(nearest(mag(k) * (r * one()), one()));
            &&& n * (2 * one()) <= 2 * t + one() < (n + 1) * (2 * one())
            &&& t <= mag(k) * r + step()
            &&& mag(k) * r <= t + step()
        }),
{
    law_integers_are_exact(r as int);
    lemma_step();
    let u = one();
    let x = mag(k);
    let num = x * (r * u);
    assert(num == u * (x * r)) by (nonlinear_arith)
        requires
            num == x * (r * u),
    ;
    assert(x * r <= 2_147_483_712 * u) by (nonlinear_arith)
        requires
            x <= 0x200_0001 * u,
            r <= 64,
    ;
    assert(num < u * pow2(1106)) by (nonlinear_arith)
        requires
            num == u * (x * r),
            x * r <= 2_147_483_712 * u,
            pow2(1106) == 0x1_0000_0000 * u,
            u > 0,
    ;
    lemma_error(num, u, 1054);
    let kp = nearest(num, u);
    let t = mag(kp);
    assert(t <= x * r + step() && x * r <= t + step()) by (nonlinear_arith)
        requires
            u * t <= num + u * step(),
            num <= u * t + u * step(),
            num == u * (x * r),
            u > 0,
    ;
    let n = best_numerator(k, r);
    lemma_fundamental_div_mod((2 * t + u) as int, (2 * u) as int);
    assert((2 * u) * n == n * (2 * u)) by (nonlinear_arith);
    assert((n + 1) * (2 * u) == n * (2 * u) + 2 * u) by (nonlinear_arith);
    assert(n <= 2_147_483_714) by (nonlinear_arith)
        requires
            n * (2 * u) <= 2 * t + u,
            t <= x * r + step(),
            x * r <= 2_147_483_712 * u,
            step() <= u,
            u > 0,
    ;
}

/// The number nearest to `m / q` is a fraction with the denominator `q`, and
/// its numerator is `m`.
proof fn lemma_own_denominator(neg: bool, k: nat, m: nat, q: nat)
    requires
        k < INF,
        1 <= q <= 64,
        m <= 0x200_0000,
        k == nearest(m * one(), q),
        mag(k) <= 0x200_0001 * one(),
        approximates(mag(k), m, q),
    ensures
        best_numerator(k, q) == m,
        is_fraction(signed(neg, k), q as int),
{
    lemma_numerator(neg, k, q);
    lemma_step();
    let u = one();
    let x = mag(k);
    let n = best_numerator(k, q);
    let t = mag(nearest(x * (q * u), u));
    assert(x * q == q * x) by (nonlinear_arith);
    assert(q * step() <= 64 * step()) by (nonlinear_arith)
        requires
            q <= 64,
            step() > 0,
    ;
    assert(n == m) by (nonlinear_arith)
        requires
            n * (2 * u) <= 2 * t + u,
            2 * t + u < (n + 1) * (2 * u),
            t <= m * u + 65 * step(),
            m * u <= t + 65 * step(),
            u == 0x10_0000 * step(),
            step() > 0,
    ;
    // Dividing the numerator by the denominator gives the number back.
    lemma_quotient_back(neg, m, q);
    lemma_close_to_itself(signed(neg, k));
}

/// Dividing an integer by another gives the number nearest to the quotient.
proof fn lemma_quotient_back(neg: bool, m: nat, q: nat)
    requires
        m <= P53,
        1 <= q <= 64,
    ensures
        quotient(rounded(neg, m * one(), 1), whole(q as int)) == signed(
            neg,
            nearest(m * one(), q),
        ),
{
    let u = one();
    lemma_pow2_pos(1074);
    law_integers_are_exact(m as int);
    law_integers_are_exact(q as int);
    law_every_quotient_rounds(m * u, 1);
    lemma_signed(false, nearest(m * u, 1));
    let km = whole(m as int).index();
    lemma_signed(neg, km);
    assert(whole(q as int).index() != 0) by {
        if whole(q as int).index() == 0 {
            assert(q * u > 0) by (nonlinear_arith)
                requires
                    q >= 1,
                    u > 0,
            ;
        }
    }
    let num = (m * u) * u;
    let den = q * u;
    assert(den > 0) by (nonlinear_arith)
        requires
            den == q * u,
            q >= 1,
            u > 0,
    ;
    assert(num * q == (m * u) * den) by (nonlinear_arith)
        requires
            num == (m * u) * u,
            den == q * u,
    ;
    law_rounding_is_monotone(num, den, m * u, q);
    law_rounding_is_monotone(m * u, q, num, den);
}

/// Fractions with different denominators, one of them the least, are far
/// apart, and rounding does not bring them together.
proof fn lemma_other_denominator(neg: bool, k: nat, m: nat, q: nat, r: nat)
    requires
        k < INF,
        1 <= r < q <= 64,
        m <= 0x200_0000,
        mag(k) <= 0x200_0001 * one(),
        approximates(mag(k), m, q),
        (m * r) % q != 0,
    ensures
        !is_fraction(signed(neg, k), r as int),
{
    lemma_numerator(neg, k, r);
    lemma_step();
    let u = one();
    let s = step();
    let x = mag(k);
    let n = best_numerator(k, r);
    law_integers_are_exact(n as int);
    law_integers_are_exact(r as int);
    law_every_quotient_rounds(n * u, 1);
    lemma_signed(false, nearest(n * u, 1));
    let kn = whole(n as int).index();
    assert(whole(r as int).index() != 0) by {
        if whole(r as int).index() == 0 {
            assert(r * u > 0) by (nonlinear_arith)
                requires
                    r >= 1,
                    u > 0,
            ;
        }
    }
    let num = (n * u) * u;
    let den = r * u;
    assert(den > 0) by (nonlinear_arith)
        requires
            den == r * u,
            r >= 1,
            u > 0,
    ;
    assert(num < den * pow2(1106)) by (nonlinear_arith)
        requires
            num == (n * u) * u,
            den == r * u,
            pow2(1106) == 0x1_0000_0000 * u,
            n <= 2_147_483_714,
            r >= 1,
            u > 0,
    ;
    lemma_error(num, den, 1054);
    let kw = nearest(num, den);
    let y = mag(kw);
    let w = quotient(signed(neg, kn), whole(r as int));
    assert(w == signed(neg, kw));
    assert(r * y <= n * u + r * s && n * u <= r * y + r * s) by (nonlinear_arith)
        requires
            den * y <= num + den * s,
            num <= den * y + den * s,
            num == (n * u) * u,
            den == r * u,
            u > 0,
    ;
    // The two fractions differ.
    assert(n * q != m * r) by {
        if n * q == m * r {
            vstd::arithmetic::div_mod::lemma_mod_multiples_basic(n as int, q as int);
        }
    }
    lemma_apart(x, y, m, n, q, r);
    let d = if x > y {
        (x - y) as nat
    } else {
        (y - x) as nat
    };
    lemma_far(neg, k, kw, d);
}

/// Two approximations of different fractions are apart.
proof fn lemma_apart(x: nat, y: nat, m: nat, n: nat, q: nat, r: nat)
    requires
        1 <= r < q <= 64,
        approximates(x, m, q),
        approximates(y, n, r),
        n * q != m * r,
    ensures
        x >= y + 0x80 * step() || y >= x + 0x80 * step(),
{
    lemma_step();
    let u = one();
    let s = step();
    let qr = q * r;
    assert(0 < qr < 0x1000) by (nonlinear_arith)
        requires
            qr == q * r,
            1 <= r < q <= 64,
    ;
    assert(qr * x <= (m * r) * u + qr * s && (m * r) * u <= qr * x + qr * s) by (nonlinear_arith)
        requires
            qr == q * r,
            q * x <= m * u + q * s,
            m * u <= q * x + q * s,
            r >= 1,
    ;
    assert(qr * y <= (n * q) * u + qr * s && (n * q) * u <= qr * y + qr * s) by (nonlinear_arith)
        requires
            qr == q * r,
            r * y <= n * u + r * s,
            n * u <= r * y + r * s,
            q >= 1,
    ;
    if m * r > n * q {
        assert((m * r) * u >= (n * q) * u + u) by (nonlinear_arith)
            requires
                m * r >= n * q + 1,
                u > 0,
        ;
        assert(x >= y + 0x80 * s) by (nonlinear_arith)
            requires
                qr * x + qr * s >= qr * y - qr * s + u,
                u == 0x10_0000 * s,
                0 < qr < 0x1000,
                s > 0,
        ;
    } else {
        assert((n * q) * u >= (m * r) * u + u) by (nonlinear_arith)
            requires
                n * q >= m * r + 1,
                u > 0,
        ;
        assert(y >= x + 0x80 * s) by (nonlinear_arith)
            requires
                qr * y + qr * s >= qr * x - qr * s + u,
                u == 0x10_0000 * s,
                0 < qr < 0x1000,
                s > 0,
        ;
    }
}

/// Numbers that are apart are not close.
proof fn lemma_far(neg: bool, k: nat, kw: nat, d: nat)
    requires
        k < INF,
        kw < INF,
        d >= 0x80 * step(),
        mag(k) == mag(kw) + d || mag(kw) == mag(k) + d,
    ensures
        !is_close(signed(neg, k), signed(neg, kw)),
{
    lemma2_to64();
    lemma2_to64_rest();
    lemma_pow2_adds(7, 1054);
    lemma_pow2_adds(52, 1009);
    let kz = (1009 * P52 + P52) as nat;
    lemma_nearest_exact(mag(kz), 1, kz);
    law_rounding_is_monotone(mag(kz), 1, d, 1);
    law_every_quotient_rounds(d, 1);
    let kd = nearest(d, 1);
    lemma_mag_order(kd, TOLERANCE as nat);
    let a = signed(neg, k);
    let b = signed(neg, kw);
    lemma_signed(!neg, kw);
    let v = a.value() + negation(b).value();
    lemma_signed(false, kd);
    assert(difference(a, b) == signed(v < 0, kd));
    assert(absolute(difference(a, b)) == signed(false, kd));
}

/// A rational with a denominator of at most 64 is shown as a fraction in
/// lowest terms, although the number that stands for it is only near to it:
/// the number nearest to 8/3 is shown as `8/3`. No smaller denominator than `q`
/// gives `p / q`; the numerator is at most two to the power of 25.
pub proof fn law_small_rationals_are_shown(p: int, q: int, opts: RenderOpts)
    requires
        opts.fractions,
        1 <= q <= 64,
        -0x200_0000 <= p <= 0x200_0000,
        p != 0,
        forall|r: int| 1 <= r < q ==> #[trigger] (magnitude(p) as int * r) % q != 0,
    ensures
        num_text(rounded(p < 0, magnitude(p) * one(), q as nat), opts) == if q == 1 {
            int_text(p)
        } else {
            int_text(p) + "/"@ + nat_text(q as nat)
        },
{
    let neg = p < 0;
    let m = magnitude(p);
    let d = q as nat;
    let u = one();
    let k = nearest(m * u, d);
    let v = signed(neg, k);
    lemma_step();
    assert(m * u < d * pow2(1106)) by (nonlinear_arith)
        requires
            m <= 0x200_0000,
            pow2(1106) == 0x1_0000_0000 * u,
            d >= 1,
            u > 0,
    ;
    lemma_error(m * u, d, 1054);
    let x = mag(k);
    assert(x <= 0x200_0001 * u) by (nonlinear_arith)
        requires
            d * x <= m * u + d * step(),
            step() <= u,
            m <= 0x200_0000,
            d >= 1,
            u > 0,
    ;
    // Not near zero.
    lemma2_to64_rest();
    lemma_mag_form(1015, P52 as nat);
    lemma_pow2_adds(52, 1015);
    lemma_pow2_adds(7, 1067);
    lemma2_to64();
    let kz = (1015 * P52 + P52) as nat;
    assert(x >= mag(kz)) by (nonlinear_arith)
        requires
            m * u <= d * x + d * step(),
            m >= 1,
            d <= 64,
            u == 0x10_0000 * step(),
            128 * mag(kz) == u,
            step() > 0,
    ;
    lemma_mag_order(EPSILON as nat, kz);
    assert(!is_near_zero(v));
    // `q` is the least denominator.
    lemma_own_denominator(neg, k, m, d);
    assert forall|r: int| 1 <= r < q implies !is_fraction(v, r) by {
        lemma_other_denominator(neg, k, m, d, r as nat);
    }
    assert(is_denominator(v, q));
    lemma_least(v, q);
    lemma_numerator(neg, k, d);
    lemma_whole_parts(p);
}

/// `TOLERANCE` is within half a step of one billionth.
proof fn lemma_tolerance()
    ensures
        ({
            let t = TOLERANCE as nat;
            &&& 0 < t < INF
            &&& mag(t) == mag((t - 1) as nat) + spacing(t)
            &&& 2_000_000_000 * mag(t) <= 2 * one() + 1_000_000_000 * spacing(t)
            &&& 2 * one() <= 2_000_000_000 * mag((t - 1) as nat) + 3_000_000_000 * spacing(t)
        }),
{
    let t = TOLERANCE as nat;
    law_tolerances();
    law_every_quotient_rounds(one(), 1_000_000_000);
    lemma_signed(false, nearest(one(), 1_000_000_000));
    assert(nearest(one(), 1_000_000_000) == t);
    lemma_mag_next(t);
    lemma_mag_next((t - 1) as nat);
    assert(exponent((t - 1) as nat) == exponent(t));
}

/// The difference of two numbers of the same sign.
proof fn lemma_gap(neg: bool, k: nat, kw: nat, d: nat)
    requires
        k < INF,
        kw < INF,
        mag(k) == mag(kw) + d || mag(kw) == mag(k) + d,
    ensures
        absolute(difference(signed(neg, k), signed(neg, kw))) == signed(false, nearest(d, 1)),
        nearest(d, 1) <= INF,
{
    let a = signed(neg, k);
    let b = signed(neg, kw);
    lemma_signed(neg, k);
    lemma_signed(neg, kw);
    lemma_signed(!neg, kw);
    let v = a.value() + negation(b).value();
    law_every_quotient_rounds(d, 1);
    if d == 0 {
        lemma_nearest_zero(1);
    } else {
        lemma_signed(v < 0, nearest(d, 1));
        assert(difference(a, b) == signed(v < 0, nearest(d, 1)));
    }
}

/// Numbers that are close differ by less than `TOLERANCE`.
pub(crate) proof fn lemma_near(neg: bool, k: nat, kw: nat, d: nat)
    requires
        k < INF,
        kw < INF,
        mag(k) == mag(kw) + d || mag(kw) == mag(k) + d,
        is_close(signed(neg, k), signed(neg, kw)),
    ensures
        d < mag(TOLERANCE as nat),
{
    let t = TOLERANCE as nat;
    lemma_gap(neg, k, kw, d);
    if d >= mag(t) {
        lemma_nearest_exact(mag(t), 1, t);
        law_rounding_is_monotone(mag(t), 1, d, 1);
        lemma_mag_order(nearest(d, 1), t);
        lemma_signed(false, nearest(d, 1));
    }
}

/// Numbers that differ by clearly less than `TOLERANCE` are close.
pub(crate) proof fn lemma_within(neg: bool, k: nat, kw: nat, d: nat)
    requires
        k < INF,
        kw < INF,
        mag(k) == mag(kw) + d || mag(kw) == mag(k) + d,
        d <= mag((TOLERANCE - 1) as nat),
    ensures
        is_close(signed(neg, k), signed(neg, kw)),
{
    let t = (TOLERANCE - 1) as nat;
    lemma_gap(neg, k, kw, d);
    lemma_nearest_exact(mag(t), 1, t);
    law_rounding_is_monotone(d, 1, mag(t), 1);
    lemma_mag_order(nearest(d, 1), TOLERANCE as nat);
    lemma_signed(false, nearest(d, 1));
}

/// A number that is shown as the fraction `p / q` is within one billionth of
/// it, and half of the steps that the fraction and the tolerance are rounded
/// by.
pub proof fn law_fractions_are_close(v: Double, q: int)
    requires
        v.finite(),
        is_denominator(v, q),
    ensures
        fraction(v) == Some(fraction_text(v, q)),
        numerator(v, q).value() == integer_numerator(v, q) * one(),
        ({
            let p = integer_numerator(v, q);
            let w = quotient(numerator(v, q), whole(q));
            2_000_000_000 * magnitude(q * v.value() - p * one()) <= q * (2 * one() + 1_000_000_000
                * (spacing(w.index()) + spacing(TOLERANCE as nat)))
        }),
{
    lemma_least(v, q);
    assert(is_fraction(v, q));
    lemma_numerator_is_integral(v, q);
    lemma_integral_value(numerator(v, q));
    lemma_close_magnitude(v, q as nat);
    let m = mag(numerator(v, q).index());
    let x = mag(v.index());
    assert(q * -(x as int) - (-(m as int)) == -(q * x - m)) by (nonlinear_arith);
}

/// The value of an integer in units.
proof fn lemma_integral_value(x: Double)
    requires
        mag(x.index()) % one() == 0,
    ensures
        x.value() == (x.value() / (one() as int)) * one(),
{
    let u = one() as int;
    let g = mag(x.index()) as int;
    lemma_pow2_pos(1074);
    lemma_fundamental_div_mod(g, u);
    let n = g / u;
    assert(-g == (-n) * u + 0 && g == n * u + 0) by (nonlinear_arith)
        requires
            g == u * n,
    ;
    lemma_fundamental_div_mod_converse(-g, u, -n, 0);
    lemma_fundamental_div_mod_converse(g, u, n, 0);
}

/// How far a magnitude is from a fraction that it is close to.
proof fn lemma_close_magnitude(v: Double, d: nat)
    requires
        v.finite(),
        1 <= d <= 64,
        is_fraction(v, d as int),
        numerator(v, d as int).finite(),
        numerator(v, d as int).is_neg() == v.is_neg(),
    ensures
        ({
            let m = mag(numerator(v, d as int).index());
            let w = quotient(numerator(v, d as int), whole(d as int));
            2_000_000_000 * magnitude(d * mag(v.index()) - m) <= d * (2 * one() + 1_000_000_000 * (
            spacing(w.index()) + spacing(TOLERANCE as nat)))
        }),
{
    let u = one();
    let neg = v.is_neg();
    let k = v.index();
    let x = mag(k);
    let p = numerator(v, d as int);
    let kn = p.index();
    let m = mag(kn);
    lemma_pow2_pos(1074);
    law_integers_are_exact(d as int);
    let num = m * u;
    let den = d * u;
    assert(den > 0 && m * u * 1 <= m * (d * u)) by (nonlinear_arith)
        requires
            den == d * u,
            d >= 1,
            u > 0,
    ;
    lemma_nearest_exact(m, 1, kn);
    law_rounding_is_monotone(num, den, m, 1);
    let kw = nearest(num, den);
    assert(whole(d as int).index() != 0);
    let w = quotient(p, whole(d as int));
    assert(w == signed(neg, kw));
    lemma_signed(neg, kw);
    law_rounding_moves_by_half_a_step(num, den);
    let y = mag(kw);
    let s = spacing(kw);
    assert(2 * (d * y) <= 2 * m + d * s && 2 * m <= 2 * (d * y) + d * s) by (nonlinear_arith)
        requires
            2 * (den * y) <= 2 * num + den * s,
            2 * num <= 2 * (den * y) + den * s,
            num == m * u,
            den == d * u,
            u > 0,
    ;
    let gap = if x > y {
        (x - y) as nat
    } else {
        (y - x) as nat
    };
    assert(v == signed(neg, k));
    lemma_near(neg, k, kw, gap);
    lemma_tolerance();
    lemma_off(d, m, x, y, gap, s, spacing(TOLERANCE as nat), u);
}

/// How far a number is from a fraction that rounds to one close to it.
proof fn lemma_off(d: nat, m: nat, x: nat, y: nat, gap: nat, s: nat, t: nat, u: nat)
    requires
        2 * (d * y) <= 2 * m + d * s,
        2 * m <= 2 * (d * y) + d * s,
        x == y + gap || y == x + gap,
        2_000_000_000 * gap <= 2 * u + 1_000_000_000 * t,
    ensures
        2_000_000_000 * magnitude(d * x - m) <= d * (2 * u + 1_000_000_000 * (s + t)),
{
    let off = magnitude(d * x - m) as int;
    assert(2 * off <= 2 * (d * gap) + d * s) by (nonlinear_arith)
        requires
            off == d * x - m || off == m - d * x,
            2 * (d * y) <= 2 * m + d * s,
            2 * m <= 2 * (d * y) + d * s,
            x == y + gap || y == x + gap,
            d >= 0,
            gap >= 0,
            s >= 0,
    ;
    assert(2_000_000_000 * (d * gap) <= d * (2 * u + 1_000_000_000 * t)) by (nonlinear_arith)
        requires
            2_000_000_000 * gap <= 2 * u + 1_000_000_000 * t,
            d >= 0,
    ;
    assert(d * (2 * u + 1_000_000_000 * (s + t)) == d * (2 * u + 1_000_000_000 * t) + 1_000_000_000
        * (d * s)) by (nonlinear_arith);
}

/// A number has a least denominator if it has any.
pub(crate) proof fn lemma_some_denominator(v: Double, q: int)
    requires
        1 <= q <= 64,
        is_fraction(v, q),
    ensures
        exists|r: int| is_denominator(v, r),
    decreases q,
{
    if exists|r: int| 1 <= r < q && is_fraction(v, r) {
        let r = choose|r: int| 1 <= r < q && is_fraction(v, r);
        lemma_some_denominator(v, r);
    } else {
        assert(is_denominator(v, q));
    }
}

/// A number that is nearer to a rational `p / q` than one billionth, less half
/// of the step that the rational is rounded by and three halves of the step of
/// the tolerance, is shown as a fraction. So where a number is not shown as a
/// fraction, no rational with a denominator of at most 64 is that near.
pub proof fn law_close_rationals_are_found(v: Double, p: int, q: int)
    requires
        v.finite(),
        1 <= q <= 64,
        2_000_000_000 * magnitude(q * v.value() - p * one()) + q * (1_000_000_000 * spacing(
            nearest(magnitude(p) * one(), q as nat),
        ) + 3_000_000_000 * spacing(TOLERANCE as nat)) <= 2 * q * one(),
    ensures
        is_fraction(v, q),
        fraction(v) is Some,
{
    let neg = v.is_neg();
    let k = v.index();
    let d = q as nat;
    let m = magnitude(p);
    let u = one();
    let x = mag(k);
    let kw = nearest(m * u, d);
    let sp = spacing(kw);
    let tt = spacing(TOLERANCE as nat);
    let a = magnitude(q * v.value() - p * u);
    lemma_pow2_pos(1074);
    assert(v == signed(neg, k));
    assert(d * (1_000_000_000 * sp + 3_000_000_000 * tt) >= 0 && 1_000_000_000 * sp <= 2 * u
        && 1_000_000_000 * a <= d * u) by (nonlinear_arith)
        requires
            2_000_000_000 * a + d * (1_000_000_000 * sp + 3_000_000_000 * tt) <= 2 * d * u,
            d >= 1,
            a >= 0,
            sp >= 0,
            tt >= 0,
    ;
    assert(a == magnitude(d * x - m * u)) by {
        lemma_same_sign(v.value(), p, x, m, d, u, a);
    }
    lemma_found_small(m, d, x, a);
    lemma_found_numerator(neg, k, d, m, a);
    lemma_quotient_back(neg, m, d);
    law_rounding_moves_by_half_a_step(m * u, d);
    lemma_tolerance();
    let y = mag(kw);
    let gap = if x > y {
        (x - y) as nat
    } else {
        (y - x) as nat
    };
    let below = mag((TOLERANCE - 1) as nat);
    assert(gap <= below) by (nonlinear_arith)
        requires
            2_000_000_000 * a + d * (1_000_000_000 * sp + 3_000_000_000 * tt) <= 2 * d * u,
            2 * (d * y) <= 2 * (m * u) + d * sp,
            2 * (m * u) <= 2 * (d * y) + d * sp,
            a >= d * x - m * u,
            a >= m * u - d * x,
            gap == x - y || gap == y - x,
            2 * u <= 2_000_000_000 * below + 3_000_000_000 * tt,
            d >= 1,
    ;
    lemma_within(neg, k, kw, gap);
    lemma_some_denominator(v, q);
}

/// A number and a rational next to it have the same sign.
proof fn lemma_same_sign(v: int, p: int, x: nat, m: nat, d: nat, u: nat, a: nat)
    requires
        v == x || v == -x,
        m == magnitude(p),
        a == magnitude(d * v - p * u),
        1 <= d <= 64,
        1_000_000_000 * a <= d * u,
        u > 0,
    ensures
        a == magnitude(d * x - m * u),
{
    assert(d * -(x as int) == -(d * x)) by (nonlinear_arith);
    assert((-(m as int)) * u == -(m * u)) by (nonlinear_arith);
    assert(d * x >= 0) by (nonlinear_arith);
    assert(m >= 1 ==> m * u >= u) by (nonlinear_arith)
        requires
            u > 0,
    ;
    assert(m == 0 ==> m * u == 0) by (nonlinear_arith);
    assert(d * u <= 64 * u) by (nonlinear_arith)
        requires
            d <= 64,
            u > 0,
    ;
}

/// A number next to a rational that is rounded by little is small.
proof fn lemma_found_small(m: nat, d: nat, x: nat, a: nat)
    requires
        1 <= d <= 64,
        a == magnitude(d * x - m * one()),
        1_000_000_000 * spacing(nearest(m * one(), d)) <= 2 * one(),
        1_000_000_000 * a <= d * one(),
    ensures
        nearest(m * one(), d) < INF,
        x <= 0x200_0000 * one(),
{
    let u = one();
    let k = nearest(m * u, d);
    law_every_quotient_rounds(m * u, d);
    lemma_small_spacing(k);
    law_rounding_moves_by_half_a_step(m * u, d);
    let y = mag(k);
    let sp = spacing(k);
    assert(x <= 0x200_0000 * u) by (nonlinear_arith)
        requires
            2 * (m * u) <= 2 * (d * y) + d * sp,
            a >= d * x - m * u,
            1_000_000_000 * a <= d * u,
            1_000_000_000 * sp <= 2 * u,
            y <= 0x100_0000 * u,
            d >= 1,
            u >= 0,
    ;
}

/// Magnitudes that lie close together are small.
proof fn lemma_small_spacing(k: nat)
    requires
        1_000_000_000 * spacing(k) <= 2 * one(),
    ensures
        k < INF,
        mag(k) <= 0x100_0000 * one(),
{
    let e = exponent(k);
    lemma_mag_next(k);
    lemma2_to64();
    lemma_pow2_adds(28, 1046);
    lemma_pow2_pos(1046);
    if e >= 1046 {
        if e > 1046 {
            lemma_pow2_strictly_increases(1046, e);
        }
    } else {
        if e < 1045 {
            lemma_pow2_strictly_increases(e, 1045);
        }
        lemma_pow2_adds(29, 1045);
        let m = significand(k);
        let s = pow2(e);
        let t = pow2(1045);
        assert(m * s <= P53 * t) by (nonlinear_arith)
            requires
                m <= P53,
                s <= t,
        ;
        assert(P53 * t == 0x100_0000 * (0x2000_0000 * t)) by (nonlinear_arith);
    }
}

/// The numerator of a number next to a rational is that of the rational.
proof fn lemma_found_numerator(neg: bool, k: nat, d: nat, m: nat, a: nat)
    requires
        k < INF,
        1 <= d <= 64,
        mag(k) <= 0x200_0000 * one(),
        a == magnitude(d * mag(k) - m * one()),
        1_000_000_000 * a <= d * one(),
    ensures
        numerator(signed(neg, k), d as int) == rounded(neg, m * one(), 1),
        m <= P53,
{
    lemma_numerator(neg, k, d);
    lemma_step();
    let u = one();
    let x = mag(k);
    let n = best_numerator(k, d);
    let t = mag(nearest(x * (d * u), u));
    assert(x * d == d * x) by (nonlinear_arith);
    assert(d * u <= 64 * u) by (nonlinear_arith)
        requires
            d <= 64,
            u > 0,
    ;
    assert(n == m) by (nonlinear_arith)
        requires
            n * (2 * u) <= 2 * t + u,
            2 * t + u < (n + 1) * (2 * u),
            t <= m * u + a + step(),
            m * u <= t + a + step(),
            1_000_000_000 * a <= 64 * u,
            u == 0x10_0000 * step(),
            step() > 0,
    ;
}

} // verus!
