//! What arithmetic makes of the values of numbers.
use vstd::prelude::*;
use vstd::arithmetic::div_mod::{lemma_fundamental_div_mod, lemma_fundamental_div_mod_converse};
use vstd::arithmetic::power2::lemma_pow2_pos;

use crate::double::{
    absolute, difference, less, magnitude, negation, product, quotient, sum, whole, Double,
};
use crate::exact::{
    law_every_quotient_rounds, law_integers_are_exact, law_rounding_moves_by_half_a_step,
    lemma_signed,
};
use crate::integral::floored;
use crate::scale::{
    is_nearest, lemma_mag_order, lemma_nearest_exact, lemma_nearest_zero, mag, nearest, one,
    spacing, INF, P53,
};
use crate::sum_laws::{lemma_product_error, lemma_sum_error};

verus! {

/// A quotient of two integers, with the sign that the two signs make.
proof fn lemma_signed_quotient(a: int, b: int, q: int, x: nat, y: nat, z: nat, u: nat, s: nat)
    requires
        a == x || a == -x,
        b == y || b == -y,
        q == z || q == -z,
        (q == z) == ((a == x) == (b == y)) || z == 0 || x == 0,
        x == 0 ==> z == 0,
        2 * (y * z) <= 2 * (x * u) + y * s,
        2 * (x * u) <= 2 * (y * z) + y * s,
    ensures
        2 * magnitude(q * b - a * u) <= magnitude(b) * s,
{
    assert(magnitude(b) == y);
    assert(q * b == y * z || q * b == -(y * z)) by (nonlinear_arith)
        requires
            b == y || b == -y,
            q == z || q == -z,
    ;
    assert(a * u == x * u || a * u == -(x * u)) by (nonlinear_arith)
        requires
            a == x || a == -x,
    ;
    assert(z == 0 ==> q * b == 0 && y * z == 0) by (nonlinear_arith)
        requires
            q == z || q == -z,
    ;
    assert(x == 0 ==> a * u == 0 && x * u == 0) by (nonlinear_arith)
        requires
            a == x || a == -x,
    ;
    assert(y == 0 ==> q * b == 0 && y * z == 0) by (nonlinear_arith)
        requires
            b == y || b == -y,
    ;
    assert((a == x && b == y && q == z) ==> q * b == y * z && a * u == x * u) by (nonlinear_arith);
    assert((a == x && b == -y && q == -z) ==> q * b == y * z && a * u == x * u)
        by (nonlinear_arith);
    assert((a == -x && b == y && q == -z) ==> q * b == -(y * z) && a * u == -(x * u))
        by (nonlinear_arith);
    assert((a == -x && b == -y && q == z) ==> q * b == -(y * z) && a * u == -(x * u))
        by (nonlinear_arith);
}

/// A quotient is the number nearest to the exact one: it has the sign that the
/// two signs make, multiplying it back gives the dividend up to half a step,
/// and exactly where the exact quotient is a number.
pub proof fn law_quotients_round(a: Double, b: Double)
    requires
        a.finite(),
        b.finite(),
        b.value() != 0,
    ensures
        ({
            let q = quotient(a, b);
            &&& !q.is_nan()
            &&& q.is_neg() == (a.is_neg() != b.is_neg())
            &&& is_nearest(magnitude(a.value()) * one(), magnitude(b.value()), q.index())
            &&& q.finite() ==> 2 * magnitude(q.value() * b.value() - a.value() * one())
                <= magnitude(b.value()) * spacing(q.index())
        }),
{
    lemma_mag_order(b.index(), 0);
    assert(mag(b.index()) > 0);
    let num = mag(a.index()) * one();
    let den = mag(b.index());
    law_every_quotient_rounds(num, den);
    let k = nearest(num, den);
    let q = quotient(a, b);
    lemma_signed(a.is_neg() != b.is_neg(), k);
    assert(q.index() == k);
    if k < INF {
        law_rounding_moves_by_half_a_step(num, den);
        if mag(a.index()) == 0 {
            assert(num == 0) by (nonlinear_arith)
                requires
                    num == mag(a.index()) * one(),
                    mag(a.index()) == 0,
            ;
            lemma_nearest_zero(den);
        }
        lemma_signed_quotient(
            a.value(),
            b.value(),
            q.value(),
            mag(a.index()),
            den,
            mag(k),
            one(),
            spacing(k),
        );
    }
}

/// Where the exact quotient is a number, the quotient is that number.
pub proof fn law_exact_quotients(a: Double, b: Double, x: Double)
    requires
        a.finite(),
        b.finite(),
        x.finite(),
        b.value() != 0,
        x.value() * b.value() == a.value() * one(),
    ensures
        quotient(a, b).value() == x.value(),
{
    let m = mag(x.index());
    let y = mag(b.index());
    let z = mag(a.index());
    let u = one();
    lemma_mag_order(b.index(), 0);
    lemma_pow2_pos(1074);
    assert(z * u == y * m) by (nonlinear_arith)
        requires
            x.value() * b.value() == a.value() * u,
            x.value() == m || x.value() == -m,
            b.value() == y || b.value() == -y,
            a.value() == z || a.value() == -z,
    ;
    lemma_nearest_exact(z * u, y, x.index());
    lemma_signed(a.is_neg() != b.is_neg(), x.index());
    if x.value() != 0 {
        assert((x.value() > 0) == ((a.value() > 0) == (b.value() > 0))) by (nonlinear_arith)
            requires
                x.value() * b.value() == a.value() * u,
                x.value() != 0,
                b.value() != 0,
                u > 0,
        ;
        assert(a.value() != 0) by (nonlinear_arith)
            requires
                x.value() * b.value() == a.value() * u,
                x.value() != 0,
                b.value() != 0,
        ;
    }
}

/// A product is the number nearest to the exact one, with the sign that the
/// two signs make.
pub proof fn law_products_round(a: Double, b: Double)
    requires
        a.finite(),
        b.finite(),
    ensures
        ({
            let p = product(a, b);
            &&& !p.is_nan()
            &&& p.is_neg() == (a.is_neg() != b.is_neg())
            &&& is_nearest(magnitude(a.value()) * magnitude(b.value()), one(), p.index())
        }),
{
    lemma_pow2_pos(1074);
    let num = mag(a.index()) * mag(b.index());
    law_every_quotient_rounds(num, one());
    lemma_signed(a.is_neg() != b.is_neg(), nearest(num, one()));
}

/// A sum is the number nearest to the exact one. A sum of zero has a minus
/// only if both numbers have one.
pub proof fn law_sums_round(a: Double, b: Double)
    requires
        a.finite(),
        b.finite(),
    ensures
        ({
            let s = sum(a, b);
            let v = a.value() + b.value();
            &&& !s.is_nan()
            &&& is_nearest(magnitude(v), 1, s.index())
            &&& v != 0 ==> s.is_neg() == (v < 0)
            &&& v == 0 ==> s.is_neg() == (a.is_neg() && b.is_neg())
        }),
{
    let v = a.value() + b.value();
    law_every_quotient_rounds(magnitude(v), 1);
    lemma_signed(v < 0, nearest(magnitude(v), 1));
    lemma_signed(a.is_neg() && b.is_neg(), 0);
    if v == 0 {
        lemma_nearest_zero(1);
    }
}

/// What arithmetic makes of what is not a number and of infinities.
pub proof fn law_special_results(a: Double, b: Double)
    ensures
        a.is_nan() || b.is_nan() ==> sum(a, b).is_nan() && product(a, b).is_nan() && quotient(
            a,
            b,
        ).is_nan(),
        a.is_infinite() && b.is_infinite() ==> quotient(a, b).is_nan(),
        a.is_infinite() && b.is_infinite() && a.is_neg() != b.is_neg() ==> sum(a, b).is_nan(),
        a.is_infinite() && b.is_infinite() && a.is_neg() == b.is_neg() ==> sum(a, b) == a,
        a.is_infinite() && b.finite() ==> sum(a, b) == a,
        a.finite() && b.is_infinite() ==> sum(a, b) == b,
        a.is_infinite() && b.index() == 0 || a.index() == 0 && b.is_infinite() ==> product(
            a,
            b,
        ).is_nan(),
        a.is_infinite() && b.index() != 0 && !b.is_nan() || b.is_infinite() && a.index() != 0
            && !a.is_nan() ==> product(a, b).is_infinite() && product(a, b).is_neg() == (a.is_neg()
            != b.is_neg()),
        a.is_infinite() && b.finite() ==> quotient(a, b).is_infinite() && quotient(a, b).is_neg()
            == (a.is_neg() != b.is_neg()),
        a.finite() && b.is_infinite() ==> quotient(a, b).index() == 0,
        a.finite() && a.index() != 0 && b.index() == 0 ==> quotient(a, b).is_infinite() && quotient(
            a,
            b,
        ).is_neg() == (a.is_neg() != b.is_neg()),
        a.index() == 0 && b.index() == 0 ==> quotient(a, b).is_nan(),
{
    lemma_signed(a.is_neg() != b.is_neg(), INF as nat);
    lemma_signed(a.is_neg() != b.is_neg(), 0);
}

/// Negating a number changes its sign and nothing else; its magnitude is the
/// number without a sign. Numbers compare by their values, and with what is
/// not a number nothing compares.
pub proof fn law_signs_and_order(a: Double, b: Double)
    ensures
        negation(a).is_neg() == !a.is_neg(),
        negation(a).index() == a.index(),
        !absolute(a).is_neg(),
        absolute(a).index() == a.index(),
        less(a, b) <==> !a.is_nan() && !b.is_nan() && a.value() < b.value(),
        difference(a, b) == sum(a, negation(b)),
{
    lemma_signed(!a.is_neg(), a.index());
    lemma_signed(false, a.index());
}

/// The number for an integer is the one nearest to it, with its sign.
pub proof fn law_integers_round(n: int)
    ensures
        is_nearest(magnitude(n) * one(), 1, whole(n).index()),
        whole(n).is_neg() == (n < 0),
{
    law_every_quotient_rounds(magnitude(n) * one(), 1);
    lemma_signed(n < 0, nearest(magnitude(n) * one(), 1));
}

/// A number that is an integer, or not finite, is its own floor.
pub proof fn law_floors_of_integers(x: Double)
    requires
        !x.finite() || x.value() % (one() as int) == 0,
    ensures
        floored(x) == x,
{
}

/// The integer below a number is at most the number and less than one below
/// it, for numbers whose integers are exact.
pub proof fn law_floors(x: Double)
    requires
        x.finite(),
        magnitude(x.value()) < P53 * one(),
    ensures
        floored(x).finite(),
        floored(x).value() % (one() as int) == 0,
        floored(x).value() <= x.value() < floored(x).value() + one(),
{
    let u = one() as int;
    let v = x.value();
    lemma_pow2_pos(1074);
    lemma_fundamental_div_mod(v, u);
    let n = v / u;
    assert(-P53 <= n < P53) by (nonlinear_arith)
        requires
            v == u * n + v % u,
            0 <= v % u < u,
            -(P53 * u) < v < P53 * u,
            u > 0,
    ;
    law_integers_are_exact(n);
    assert(n * u == u * n) by (nonlinear_arith);
    lemma_fundamental_div_mod_converse(n * u, u, n, 0);
}

/// A product is within half a step of the exact one.
pub proof fn law_products_are_close(a: Double, b: Double)
    requires
        a.finite(),
        b.finite(),
        product(a, b).finite(),
    ensures
        2 * magnitude(product(a, b).value() * one() - a.value() * b.value()) <= one() * spacing(
            product(a, b).index(),
        ),
{
    lemma_product_error(a, b);
}

/// A sum is within half a step of the exact one.
pub proof fn law_sums_are_close(a: Double, b: Double)
    requires
        a.finite(),
        b.finite(),
        sum(a, b).finite(),
    ensures
        2 * magnitude(sum(a, b).value() - (a.value() + b.value())) <= spacing(sum(a, b).index()),
{
    lemma_sum_error(a, b);
}

} // verus!
