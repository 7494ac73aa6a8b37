//! What numbers and strengths look like.
use vstd::prelude::*;
use vstd::arithmetic::div_mod::lemma_fundamental_div_mod_converse;
use vstd::arithmetic::power2::{
    lemma2_to64, lemma2_to64_rest, lemma_pow2_adds, lemma_pow2_pos, lemma_pow2_strictly_increases,
    pow2,
};

use crate::double::{
    absolute, difference, less, magnitude, negation, product, quotient, rounded, whole, Double,
};
use crate::exact::{
    law_dyadic_products_are_exact, law_dyadic_sums_are_exact, law_every_quotient_rounds,
    law_integers_are_exact, law_rounding_is_monotone, lemma_dyadic, lemma_dyadic_whole,
    lemma_negated, lemma_signed,
};
use crate::format::{
    band_text, below_strong, fraction, fraction_text, is_close, is_denominator, is_fraction,
    is_near_zero, medium_band, num_text, strength_text, strong_band, weak_band, EPSILON, LARGE,
    MEDIUM, REQUIRED, STRONG, TOLERANCE,
};
use crate::integral::{as_integer, floored, rounded_off};
use crate::options::RenderOpts;
use crate::scale::{
    exponent, lemma_mag_next, lemma_mag_order, lemma_nearest_exact, lemma_nearest_unique, mag,
    nearest, one, significand, INF, P52, P53,
};
use crate::text::{int_text, joined};

verus! {

/// The tolerances lie between zero and one.
proof fn lemma_tolerances()
    ensures
        0 < mag(EPSILON as nat) < one(),
        0 < mag(TOLERANCE as nat) < one(),
{
    lemma_pow2_adds(52, 1022);
    lemma2_to64_rest();
    lemma_mag_order(EPSILON as nat, (1022 * P52 + P52) as nat);
    lemma_mag_order(TOLERANCE as nat, (1022 * P52 + P52) as nat);
    lemma_mag_order(0, EPSILON as nat);
    lemma_mag_order(0, TOLERANCE as nat);
}

/// `EPSILON` is the number nearest to one hundred-millionth, and `TOLERANCE`
/// the one nearest to one billionth.
pub proof fn law_tolerances()
    ensures
        (Double { bits: EPSILON }) == rounded(false, one(), 100_000_000),
        (Double { bits: TOLERANCE }) == rounded(false, one(), 1_000_000_000),
{
    lemma2_to64();
    let k = EPSILON as nat;
    let u = pow2(995);
    lemma_pow2_pos(995);
    lemma_pow2_adds(15, 64);
    lemma_pow2_adds(79, 995);
    let m = significand(k);
    assert(0x8000 * 0x1_0000_0000_0000_0000 == 0x8000_0000_0000_0000_0000) by (nonlinear_arith);
    assert(100_000_000 * (mag((k - 1) as nat) + mag(k)) < 2 * one()) by (nonlinear_arith)
        requires
            mag((k - 1) as nat) == (m - 1) * u,
            mag(k) == m * u,
            m == 0x15_798e_e230_8c3a,
            one() == 0x8000_0000_0000_0000_0000 * u,
            u > 0,
    ;
    assert(2 * one() < 100_000_000 * (mag(k) + mag(k + 1))) by (nonlinear_arith)
        requires
            mag(k + 1) == (m + 1) * u,
            mag(k) == m * u,
            m == 0x15_798e_e230_8c3a,
            one() == 0x8000_0000_0000_0000_0000 * u,
            u > 0,
    ;
    lemma_nearest_unique(one(), 100_000_000, k);

    let j = TOLERANCE as nat;
    let w = pow2(992);
    lemma_pow2_adds(18, 64);
    lemma_pow2_adds(82, 992);
    let n = significand(j);
    assert(0x4_0000 * 0x1_0000_0000_0000_0000 == 0x4_0000_0000_0000_0000_0000) by (nonlinear_arith);
    assert(1_000_000_000 * (mag((j - 1) as nat) + mag(j)) < 2 * one()) by (nonlinear_arith)
        requires
            mag((j - 1) as nat) == (n - 1) * w,
            mag(j) == n * w,
            n == 0x11_2e0b_e826_d695,
            one() == 0x4_0000_0000_0000_0000_0000 * w,
            w > 0,
    ;
    assert(2 * one() < 1_000_000_000 * (mag(j) + mag(j + 1))) by (nonlinear_arith)
        requires
            mag(j + 1) == (n + 1) * w,
            mag(j) == n * w,
            n == 0x11_2e0b_e826_d695,
            one() == 0x4_0000_0000_0000_0000_0000 * w,
            w > 0,
    ;
    lemma_nearest_unique(one(), 1_000_000_000, j);
}

/// A number is close to itself.
pub(crate) proof fn lemma_close_to_itself(x: Double)
    requires
        x.finite(),
    ensures
        is_close(x, x),
{
    lemma_tolerances();
}

/// An integer is not changed by rounding to an integer, and is its own integer
/// part.
pub(crate) proof fn lemma_whole_parts(n: int)
    requires
        -P53 <= n <= P53,
    ensures
        rounded_off(whole(n)) == whole(n),
        as_integer(whole(n)) == n,
        whole(n).value() / (one() as int) == n,
{
    law_integers_are_exact(n);
    lemma_pow2_pos(1074);
    let m = magnitude(n);
    let g = mag(whole(n).index());
    let u = one();
    assert(2 * g + u == m * (2 * u) + u) by (nonlinear_arith)
        requires
            g == m * u,
    ;
    lemma_fundamental_div_mod_converse((2 * g + u) as int, (2 * u) as int, m as int, u as int);
    lemma_fundamental_div_mod_converse(g as int, u as int, m as int, 0);
    lemma_fundamental_div_mod_converse(n * u, u as int, n, 0);
}

/// Dividing an integer by one, or multiplying it by one, changes nothing.
proof fn lemma_whole_by_one(n: int)
    requires
        -P53 <= n <= P53,
    ensures
        product(whole(n), whole(1)) == whole(n),
        quotient(whole(n), whole(1)) == whole(n),
{
    law_integers_are_exact(n);
    law_integers_are_exact(1);
    lemma_pow2_pos(1074);
    let k = whole(n).index();
    let u = one();
    assert(mag(k) * u == u * mag(k)) by (nonlinear_arith);
    lemma_nearest_exact(mag(k) * u, u, k);
}

/// An integer other than zero is not near zero.
proof fn lemma_whole_not_near_zero(n: int)
    requires
        -P53 <= n <= P53,
        n != 0,
    ensures
        !is_near_zero(whole(n)),
{
    law_integers_are_exact(n);
    lemma_tolerances();
    let m = magnitude(n);
    assert(m * one() >= one()) by (nonlinear_arith)
        requires
            m >= 1,
            one() >= 0,
    ;
}

/// A number has one least denominator only.
pub(crate) proof fn lemma_least(v: Double, q: int)
    requires
        v.finite(),
        is_denominator(v, q),
    ensures
        fraction(v) == Some(fraction_text(v, q)),
{
    assert forall|r: int| is_denominator(v, r) implies r == q by {
        if r > q {
            assert(!is_fraction(v, q));
        }
    }
}

/// As a fraction, an integer is itself.
proof fn lemma_whole_fraction(n: int)
    requires
        -P53 <= n <= P53,
    ensures
        fraction(whole(n)) == Some(int_text(n)),
{
    let v = whole(n);
    law_integers_are_exact(n);
    lemma_whole_parts(n);
    lemma_whole_by_one(n);
    lemma_close_to_itself(v);
    assert(is_denominator(v, 1));
    lemma_least(v, 1);
}

/// An integer below `LARGE` is small enough to be shown as an integer.
proof fn lemma_whole_below_large(n: int)
    requires
        -LARGE < n < LARGE,
    ensures
        less(absolute(whole(n)), whole(LARGE as int)),
{
    law_integers_are_exact(n);
    law_integers_are_exact(LARGE as int);
    lemma_pow2_pos(1074);
    let m = magnitude(n);
    assert(m * one() < LARGE * one()) by (nonlinear_arith)
        requires
            m < LARGE,
            one() > 0,
    ;
}

/// Integers below `LARGE` are shown as integers, whatever the options.
pub proof fn law_integers_are_shown(n: int, opts: RenderOpts)
    requires
        -LARGE < n < LARGE,
    ensures
        num_text(whole(n), opts) == int_text(n),
{
    law_integers_are_exact(n);
    if n == 0 {
        lemma_tolerances();
        reveal_strlit("0");
        assert(n * one() == 0) by (nonlinear_arith)
            requires
                n == 0,
        ;
    } else {
        lemma_whole_not_near_zero(n);
        lemma_whole_parts(n);
        lemma_close_to_itself(whole(n));
        lemma_whole_fraction(n);
        lemma_whole_below_large(n);
    }
}

/// The product of integers is exact while it is in range.
proof fn lemma_whole_product(a: int, b: int)
    requires
        0 <= a <= P53,
        0 <= b <= P53,
        a * b <= P53,
    ensures
        product(whole(a), whole(b)) == whole(a * b),
{
    assert(a * b >= 0) by (nonlinear_arith)
        requires
            a >= 0,
            b >= 0,
    ;
    let x = product(whole(a), whole(b));
    law_integers_are_exact(a);
    law_integers_are_exact(b);
    lemma_pow2_pos(1074);
    law_every_quotient_rounds(mag(whole(a).index()) * mag(whole(b).index()), one());
    lemma_dyadic_whole(x, a);
    lemma_dyadic_whole(x, b);
    law_dyadic_products_are_exact(whole(a), whole(b), a, b, 0, 0);
    lemma_dyadic_whole(x, a * b);
}

/// The difference of integers is exact while it is in range.
proof fn lemma_whole_difference(a: int, b: int)
    requires
        0 <= b <= a <= P53,
    ensures
        difference(whole(a), whole(b)) == whole(a - b),
{
    let x = difference(whole(a), whole(b));
    law_integers_are_exact(a);
    law_integers_are_exact(b);
    lemma_dyadic_whole(x, a);
    lemma_dyadic_whole(x, b);
    lemma_negated(whole(b), b, 0);
    law_dyadic_sums_are_exact(whole(a), negation(whole(b)), a, -b, 0);
    lemma_dyadic_whole(x, a - b);
}

/// The integer part of a quotient by an integer is exact, unless the quotient
/// is within a billionth of the next integer.
proof fn lemma_band_quotient(v: Double, d: int, a: int)
    requires
        v.finite(),
        !v.is_neg(),
        0 < d <= 1_000_000,
        0 <= a <= 1_000_000,
        (a * d) * one() <= mag(v.index()),
        mag(v.index()) + d * pow2(1044) <= ((a + 1) * d) * one(),
    ensures
        floored(quotient(v, whole(d))) == whole(a),
{
    law_integers_are_exact(d);
    law_integers_are_exact(a);
    lemma_pow2_pos(1074);
    let one = one() as int;
    let g = mag(v.index()) as int;
    let num = (g * one) as nat;
    let den = (d * one) as nat;
    assert(g * one >= 0 && d * one > 0) by (nonlinear_arith)
        requires
            g >= 0,
            d > 0,
            one > 0,
    ;
    let k = nearest(num, den);
    law_every_quotient_rounds(num, den);
    lemma_at_least(g, d, a, one);
    let ka = whole(a).index();
    law_rounding_is_monotone(mag(ka), 1, num, den);
    lemma_nearest_exact(mag(ka), 1, ka);
    let step = pow2(1044) as int;
    lemma2_to64();
    lemma_pow2_adds(30, 1044);
    lemma_pow2_pos(1044);
    let u = ((a + 1) * 0x4000_0000 - 1) as nat;
    let ku = lemma_dyadic(u, 1044);
    lemma_at_most(g, d, a, one, step, u as int);
    law_rounding_is_monotone(num, den, mag(ku), 1);
    lemma_nearest_exact(mag(ku), 1, ku);
    lemma_mag_order(ka, k);
    lemma_mag_order(k, ku);
    let q = mag(k) as int;
    assert((a + 1) * one == a * one + one) by (nonlinear_arith);
    lemma_fundamental_div_mod_converse(q, one, a, q - a * one);
}

/// What is at least a multiple of the divisor.
proof fn lemma_at_least(g: int, d: int, a: int, one: int)
    requires
        (a * d) * one <= g,
        one > 0,
    ensures
        (a * one) * (d * one) <= g * one,
{
    assert((a * one) * (d * one) == ((a * d) * one) * one) by (nonlinear_arith);
    assert(((a * d) * one) * one <= g * one) by (nonlinear_arith)
        requires
            (a * d) * one <= g,
            one > 0,
    ;
}

/// What is clearly less than the next multiple of the divisor.
proof fn lemma_at_most(g: int, d: int, a: int, one: int, step: int, u: int)
    requires
        g + d * step <= ((a + 1) * d) * one,
        one == 0x4000_0000 * step,
        u == (a + 1) * 0x4000_0000 - 1,
        step > 0,
    ensures
        g * one <= (u * step) * (d * one),
        u * step < (a + 1) * one,
{
    assert(u * step == (a + 1) * one - step) by (nonlinear_arith)
        requires
            one == 0x4000_0000 * step,
            u == (a + 1) * 0x4000_0000 - 1,
    ;
    assert(((a + 1) * one - step) * d == ((a + 1) * d) * one - d * step) by (nonlinear_arith);
    assert((u * step) * (d * one) == ((u * step) * d) * one) by (nonlinear_arith);
    assert(g * one <= ((u * step) * d) * one) by (nonlinear_arith)
        requires
            g <= (u * step) * d,
            one > 0,
    ;
}

/// What is left when whole bands are taken away is exact.
proof fn lemma_band_rest(v: Double, d: int, a: int)
    requires
        v.finite(),
        !v.is_neg(),
        0 < d <= 1_000_000,
        0 <= a <= 1_000_000,
        (a * d) * one() <= mag(v.index()),
        mag(v.index()) <= P52 * one(),
    ensures
        ({
            let r = difference(v, product(whole(a), whole(d)));
            &&& r.finite()
            &&& !r.is_neg()
            &&& r.value() == v.value() - (a * d) * one()
        }),
{
    assert(0 <= a * d <= 1_000_000_000_000) by (nonlinear_arith)
        requires
            0 <= a <= 1_000_000,
            0 < d <= 1_000_000,
    ;
    lemma_whole_product(a, d);
    law_integers_are_exact(a * d);
    let w = whole(a * d);
    lemma_signed(!w.is_neg(), w.index());
    let y = v.value() - (a * d) * one();
    if y > 0 {
        let j = lemma_part_of(v.index(), a * d);
        lemma_nearest_exact(y as nat, 1, j);
        lemma_signed(false, j);
    }
}

/// A magnitude less an integer is a magnitude.
proof fn lemma_part_of(k: nat, n: int) -> (j: nat)
    requires
        0 <= n,
        n * one() < mag(k),
        mag(k) <= P52 * one(),
    ensures
        j < INF,
        mag(j) == mag(k) - n * one(),
{
    let e = exponent(k);
    let m = significand(k) as int;
    let s = pow2(e) as int;
    lemma_mag_next(k);
    lemma_pow2_pos(e);
    if e > 1074 {
        lemma_pow2_strictly_increases(1074, e);
        assert(m * s > P52 * one()) by (nonlinear_arith)
            requires
                m >= P52,
                s > one(),
        ;
    }
    let t = pow2((1074 - e) as nat) as int;
    lemma_pow2_adds((1074 - e) as nat, e);
    let q = m - n * t;
    assert(n * one() == (n * t) * s && m * s - (n * t) * s == q * s) by (nonlinear_arith)
        requires
            one() == t * s,
            q == m - n * t,
    ;
    assert(q > 0) by (nonlinear_arith)
        requires
            q * s > 0,
            s > 0,
    ;
    assert(n * t >= 0) by (nonlinear_arith)
        requires
            n >= 0,
            t >= 0,
    ;
    lemma_dyadic(q as nat, e)
}

/// The integer part of a quotient of integers is exact.
proof fn lemma_whole_quotient(s: int, d: int, a: int)
    requires
        0 < d <= 1_000_000,
        0 <= a <= 1_000_000,
        a * d <= s < (a + 1) * d,
        s <= P53,
    ensures
        floored(quotient(whole(s), whole(d))) == whole(a),
{
    let u = one() as int;
    let step = pow2(1044) as int;
    lemma_billionth();
    assert(a * d >= 0) by (nonlinear_arith)
        requires
            a >= 0,
            d > 0,
    ;
    law_integers_are_exact(s);
    let n = (a + 1) * d;
    let m = a * d;
    assert(m * u <= s * u && s * u + d * step <= n * u && s * u >= 0) by (nonlinear_arith)
        requires
            0 <= m <= s,
            s + 1 <= n,
            u == 0x4000_0000 * step,
            0 < d <= 1_000_000,
            step > 0,
    ;
    lemma_band_quotient(whole(s), d, a);
}

/// A band of `n` whole units: its letter, after its size unless that is one.
/// An empty band is not shown.
pub open spec fn whole_band(n: int, letter: Seq<char>) -> Seq<Seq<char>> {
    if n == 0 {
        seq![]
    } else if n == 1 {
        seq![letter]
    } else {
        seq![int_text(n) + letter]
    }
}

/// A band of whole units is shown as such.
proof fn lemma_whole_band(n: int, letter: Seq<char>, opts: RenderOpts)
    requires
        0 <= n < LARGE,
    ensures
        band_text(whole(n), letter, opts) == whole_band(n, letter),
{
    law_integers_are_exact(n);
    law_integers_are_exact(0);
    lemma_pow2_pos(1074);
    assert(n * one() > 0 <==> n > 0) by (nonlinear_arith)
        requires
            one() > 0,
            n >= 0,
    ;
    if n == 1 {
        lemma_close_to_itself(whole(1));
    } else if n > 1 {
        lemma_whole_difference(n, 1);
        law_integers_are_exact(n - 1);
        lemma_tolerances();
        assert((n - 1) * one() >= one()) by (nonlinear_arith)
            requires
                n > 1,
                one() > 0,
        ;
        assert(!is_close(whole(n), whole(1)));
        law_integers_are_shown(n, opts);
    }
}

/// A billionth, in units.
proof fn lemma_billionth()
    ensures
        one() == 0x4000_0000 * pow2(1044),
        pow2(1044) > 0,
{
    lemma2_to64();
    lemma_pow2_pos(1044);
    lemma_pow2_adds(30, 1044);
}

/// How the parts of a strength lie between its bands.
proof fn lemma_band_sizes(a: int, b: int, w: int, u: int, step: int)
    requires
        0 <= a <= 1001,
        0 <= b < 1000,
        0 <= w,
        1000 * w <= 999_999 * u,
        u == 0x4000_0000 * step,
        step > 0,
    ensures
        ({
            let g = (a * 1_000_000 + b * 1000) * u + w;
            let r = (b * 1000) * u + w;
            &&& g == (a * 1_000_000) * u + r
            &&& 0 <= (a * 1_000_000) * u <= g
            &&& g + 1_000_000 * step <= ((a + 1) * 1_000_000) * u
            &&& g <= 1_002_000_000 * u
            &&& 0 <= (b * 1000) * u <= r <= 1_000_000 * u
            &&& r + 1000 * step <= ((b + 1) * 1000) * u
        }),
{
    assert((a * 1_000_000 + b * 1000) * u == (a * 1_000_000) * u + (b * 1000) * u)
        by (nonlinear_arith);
    assert(0 <= (b * 1000) * u <= 999_000 * u) by (nonlinear_arith)
        requires
            0 <= b <= 999,
            u > 0,
    ;
    assert(((a + 1) * 1_000_000) * u == (a * 1_000_000) * u + 1_000_000 * u) by (nonlinear_arith);
    assert(((b + 1) * 1000) * u == (b * 1000) * u + 1000 * u) by (nonlinear_arith);
    assert(0 <= (a * 1_000_000) * u <= 1_001_000_000 * u) by (nonlinear_arith)
        requires
            0 <= a <= 1001,
            u > 0,
    ;
}

/// The bands of a strength: `a` STRONG ones, `b` MEDIUM ones, and what is left.
proof fn lemma_split(s: Double, a: int, b: int, w: Double)
    requires
        s.finite(),
        !s.is_neg(),
        0 <= a <= 1001,
        0 <= b < 1000,
        w.finite(),
        !w.is_neg(),
        s.value() == (a * 1_000_000 + b * 1000) * one() + w.value(),
        1000 * w.value() <= 999_999 * one(),
    ensures
        strong_band(s) == whole(a),
        medium_band(s) == whole(b),
        weak_band(s) == w,
{
    let u = one() as int;
    lemma_billionth();
    lemma_band_sizes(a, b, w.value(), u, pow2(1044) as int);
    lemma_strong_band(s, a);
    lemma_medium_band(s, b);
    lemma_same_number(weak_band(s), w);
}

/// The STRONG bands of a strength, and what is left below them.
proof fn lemma_strong_band(s: Double, a: int)
    requires
        s.finite(),
        !s.is_neg(),
        0 <= a <= 1_000_000,
        (a * 1_000_000) * one() <= s.value(),
        s.value() + 1_000_000 * pow2(1044) <= ((a + 1) * 1_000_000) * one(),
        s.value() <= P52 * one(),
    ensures
        strong_band(s) == whole(a),
        below_strong(s).finite(),
        !below_strong(s).is_neg(),
        below_strong(s).value() == s.value() - (a * 1_000_000) * one(),
{
    lemma_band_quotient(s, STRONG as int, a);
    lemma_band_rest(s, STRONG as int, a);
}

/// The MEDIUM bands of a strength, and what is left below them.
proof fn lemma_medium_band(s: Double, b: int)
    requires
        below_strong(s).finite(),
        !below_strong(s).is_neg(),
        0 <= b <= 1_000_000,
        (b * 1000) * one() <= below_strong(s).value(),
        below_strong(s).value() + 1000 * pow2(1044) <= ((b + 1) * 1000) * one(),
        below_strong(s).value() <= P52 * one(),
    ensures
        medium_band(s) == whole(b),
        weak_band(s).finite(),
        !weak_band(s).is_neg(),
        weak_band(s).value() == below_strong(s).value() - (b * 1000) * one(),
{
    lemma_band_quotient(below_strong(s), MEDIUM as int, b);
    lemma_band_rest(below_strong(s), MEDIUM as int, b);
}

/// Numbers without a sign that have the same value are the same.
proof fn lemma_same_number(a: Double, b: Double)
    requires
        !a.is_neg(),
        !b.is_neg(),
        a.value() == b.value(),
    ensures
        a == b,
{
    lemma_mag_order(a.index(), b.index());
}

/// Below `REQUIRED` a strength is split back into its bands: as many STRONG
/// ones as there are millions in it, as many MEDIUM ones as there are then
/// thousands left, and the rest in WEAK ones. Each band is shown by its letter,
/// with its size before it unless that is one, and empty ones are not: `M+3W`
/// is one MEDIUM and three WEAK bands. The rest may not be within a thousandth
/// of another MEDIUM band.
pub proof fn law_strengths_are_split(
    s: Double,
    a: int,
    b: int,
    w: Double,
    opts: RenderOpts,
)
    requires
        !opts.show_raw_strengths,
        s.finite(),
        !s.is_neg(),
        !is_near_zero(s),
        s.value() < 1_001_001_000 * one(),
        0 <= a,
        0 <= b < 1000,
        w.finite(),
        !w.is_neg(),
        s.value() == (a * 1_000_000 + b * 1000) * one() + w.value(),
        1000 * w.value() <= 999_999 * one(),
    ensures
        strength_text(s, opts) == joined(
            (if a == 0 {
                seq![]
            } else if a == 1 {
                seq!["S"@]
            } else {
                seq![int_text(a) + "S"@]
            }) + (if b == 0 {
                seq![]
            } else if b == 1 {
                seq!["M"@]
            } else {
                seq![int_text(b) + "M"@]
            }) + (if w.value() == 0 {
                seq![]
            } else if is_close(w, whole(1)) {
                seq!["W"@]
            } else {
                seq![num_text(w, opts) + "W"@]
            }),
            "+"@,
        ),
{
    let u = one() as int;
    lemma_pow2_pos(1074);
    assert(a <= 1001) by (nonlinear_arith)
        requires
            (a * 1_000_000 + b * 1000) * u <= 1_001_001_000 * u,
            b >= 0,
            u > 0,
    ;
    law_integers_are_exact(REQUIRED as int);
    lemma_split(s, a, b, w);
    lemma_whole_band(a, "S"@, opts);
    lemma_whole_band(b, "M"@, opts);
    lemma_weak_band(w, opts);
    lemma_some_band(s, a, b, w);
}

/// The weak part of a strength.
proof fn lemma_weak_band(w: Double, opts: RenderOpts)
    requires
        w.finite(),
        !w.is_neg(),
    ensures
        band_text(w, "W"@, opts) == if w.value() == 0 {
            seq![]
        } else if is_close(w, whole(1)) {
            seq!["W"@]
        } else {
            seq![num_text(w, opts) + "W"@]
        },
{
    law_integers_are_exact(0);
    assert(0 * one() == 0) by (nonlinear_arith);
}

/// A strength that is not next to zero has a band.
proof fn lemma_some_band(s: Double, a: int, b: int, w: Double)
    requires
        !is_near_zero(s),
        s.finite(),
        s.value() == (a * 1_000_000 + b * 1000) * one() + w.value(),
    ensures
        a != 0 || b != 0 || w.value() != 0,
{
    if a == 0 && b == 0 && w.value() == 0 {
        assert((a * 1_000_000 + b * 1000) * one() == 0) by (nonlinear_arith)
            requires
                a == 0,
                b == 0,
        ;
        lemma_tolerances();
    }
}

/// The bands of a strength made of whole ones.
proof fn lemma_bands(a: int, b: int, c: int)
    requires
        0 <= a <= 1000,
        0 <= b < 1000,
        0 <= c < 1000,
    ensures
        ({
            let v = whole(a * STRONG + b * MEDIUM + c);
            &&& strong_band(v) == whole(a)
            &&& medium_band(v) == whole(b)
            &&& weak_band(v) == whole(c)
        }),
{
    let s = a * STRONG + b * MEDIUM + c;
    lemma_whole_quotient(s, STRONG as int, a);
    lemma_whole_product(a, STRONG as int);
    lemma_whole_difference(s, a * STRONG);
    let rest = b * MEDIUM + c;
    lemma_whole_quotient(rest, MEDIUM as int, b);
    lemma_whole_product(b, MEDIUM as int);
    lemma_whole_difference(rest, b * MEDIUM);
}

/// A strength made of whole STRONG, MEDIUM and WEAK bands is split back into
/// them: `M+3W` is one MEDIUM and three WEAK bands.
pub proof fn law_strengths_split_into_bands(a: int, b: int, c: int, opts: RenderOpts)
    requires
        0 <= a <= 1000,
        0 <= b < 1000,
        0 <= c < 1000,
        !opts.show_raw_strengths,
    ensures
        strength_text(whole(a * STRONG + b * MEDIUM + c), opts) == if a == 0 && b == 0 && c == 0 {
            "0"@
        } else {
            joined(whole_band(a, "S"@) + whole_band(b, "M"@) + whole_band(c, "W"@), "+"@)
        },
{
    let s = a * STRONG + b * MEDIUM + c;
    law_integers_are_exact(s);
    lemma_tolerances();
    if s == 0 {
        assert(s * one() == 0) by (nonlinear_arith)
            requires
                s == 0,
        ;
    } else {
        lemma_whole_not_near_zero(s);
        law_integers_are_exact(REQUIRED as int);
        lemma_pow2_pos(1074);
        assert(s * one() < REQUIRED * one()) by (nonlinear_arith)
            requires
                s < REQUIRED,
                one() > 0,
        ;
        lemma_bands(a, b, c);
        lemma_whole_band(a, "S"@, opts);
        lemma_whole_band(b, "M"@, opts);
        lemma_whole_band(c, "W"@, opts);
    }
}

} // verus!
