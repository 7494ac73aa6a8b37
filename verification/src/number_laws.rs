//! How numbers and strengths read.
use vstd::prelude::*;
use vstd::arithmetic::div_mod::{lemma_fundamental_div_mod, lemma_fundamental_div_mod_converse};
use vstd::arithmetic::power2::lemma_pow2_pos;

use crate::decimal::{fixed_text, half_even};
use crate::double::{difference, magnitude, signed, Double};
use crate::exact::{law_every_quotient_rounds, law_integers_are_exact, lemma_signed};
use crate::format::{
    band_texts, fraction, integer_numerator, is_close, is_denominator, is_fraction, num_text,
    strength_text, EPSILON, LARGE, TOLERANCE,
};
use crate::integral::{as_integer, rounded_off};
use crate::options::RenderOpts;
use crate::pivot_laws::law_near_zero;
use crate::rational::{lemma_near, lemma_some_denominator, lemma_within};
use crate::scale::{is_nearest, lemma_mag_order, mag, nearest, one, P53};
use crate::shown::lemma_least;
use crate::text::{int_text, joined, nat_text};

verus! {

/// The number that a text of decimal digits reads as.
pub open spec fn reading(digits: Seq<char>) -> int
    decreases digits.len(),
{
    if digits.len() == 0 {
        0
    } else {
        10 * reading(digits.drop_last()) + (digits.last() as int - 48)
    }
}

/// A natural number is written in decimal digits that read as it, without
/// zeros in front.
pub proof fn law_naturals_read_back(n: nat)
    ensures
        reading(nat_text(n)) == n,
        nat_text(n).len() > 0,
        n > 0 ==> nat_text(n)[0] != '0',
        n == 0 ==> nat_text(n) == seq!['0'],
        forall|i: int| 0 <= i < nat_text(n).len() ==> '0' <= #[trigger] nat_text(n)[i] <= '9',
    decreases n,
{
    if n >= 10 {
        law_naturals_read_back(n / 10);
        assert(nat_text(n).drop_last() =~= nat_text(n / 10));
        assert(nat_text(n).last() as int == 48 + n % 10);
        assert(n == 10 * (n / 10) + n % 10);
    } else {
        assert(nat_text(n).drop_last() =~= seq![]);
        assert(reading(nat_text(n).drop_last()) == 0);
        assert(nat_text(n).last() as int == 48 + n);
    }
}

/// A negative integer is written with a minus before its magnitude.
pub proof fn law_integers_read_back(n: int)
    ensures
        n >= 0 ==> int_text(n) == nat_text(n as nat),
        n < 0 ==> int_text(n) == seq!['-'] + nat_text((-n) as nat),
{
}

/// A number that is next to zero reads `0`, whatever the options.
pub proof fn law_small_numbers_read_zero(v: Double, opts: RenderOpts)
    requires
        v.index() < EPSILON,
    ensures
        num_text(v, opts) == seq!['0'],
        strength_text(v, opts) == seq!['0'],
{
    law_near_zero(v);
    reveal_strlit("0");
    assert("0"@ =~= seq!['0']);
}

/// What is not a number, and the infinities, are named.
pub proof fn law_special_numbers(v: Double, opts: RenderOpts)
    requires
        !v.finite(),
    ensures
        v.is_nan() ==> num_text(v, opts) == "NaN"@,
        v.is_infinite() && v.is_neg() ==> num_text(v, opts) == "-inf"@,
        v.is_infinite() && !v.is_neg() ==> num_text(v, opts) == "inf"@,
{
    law_near_zero(v);
}

/// How a number reads depends on no option but that on fractions, and how a
/// strength reads on that and the one on raw strengths.
pub proof fn law_options_of_numbers(v: Double, a: RenderOpts, b: RenderOpts)
    requires
        a.fractions == b.fractions,
    ensures
        num_text(v, a) == num_text(v, b),
        a.show_raw_strengths == b.show_raw_strengths ==> strength_text(v, a) == strength_text(v, b),
{
    assert(band_texts(v, a) =~= band_texts(v, b));
}

/// With fractions, a number reads as the fraction that it is close to, and as
/// without them where there is none.
pub proof fn law_fractions_come_first(v: Double, opts: RenderOpts)
    requires
        v.index() >= EPSILON,
        opts.fractions,
    ensures
        fraction(v) is Some ==> num_text(v, opts) == fraction(v)->0,
        fraction(v) is None ==> num_text(v, opts) == num_text(
            v,
            RenderOpts { fractions: false, ..opts },
        ),
{
    law_near_zero(v);
}

/// A fraction is written with a slash between its numerator, an integer, and
/// its denominator, the least that there is; an integer without one.
pub proof fn law_fractions_are_written(v: Double, q: int)
    requires
        v.finite(),
        is_denominator(v, q),
    ensures
        fraction(v) is Some,
        q == 1 ==> fraction(v)->0 == int_text(integer_numerator(v, q)),
        q > 1 ==> fraction(v)->0 == int_text(integer_numerator(v, q)) + "/"@ + nat_text(q as nat),
{
    lemma_least(v, q);
}

/// A number reads as a fraction exactly when it is finite and close to one
/// with a denominator of at most 64, and it is the one with the least.
pub proof fn law_least_denominators(v: Double)
    ensures
        fraction(v) is Some <==> v.finite() && exists|q: int| 1 <= q <= 64 && is_fraction(v, q),
        forall|q: int|
            #[trigger] is_denominator(v, q) <==> 1 <= q <= 64 && is_fraction(v, q) && forall|r: int|
                1 <= r < q ==> !is_fraction(v, r),
{
    if exists|q: int| 1 <= q <= 64 && is_fraction(v, q) {
        lemma_some_denominator(v, choose|q: int| 1 <= q <= 64 && is_fraction(v, q));
    }
}

/// Without fractions, a number below `LARGE` that is within `TOLERANCE` of an
/// integer reads as that integer, and every other finite number that is not
/// next to zero reads with three places.
pub proof fn law_decimals(v: Double, opts: RenderOpts, m: nat)
    requires
        v.finite(),
        v.index() >= EPSILON,
        !opts.fractions,
        // `m` is the integer nearest to the magnitude.
        2 * mag(v.index()) < (2 * m + 1) * one(),
        (2 * m - 1) * one() <= 2 * mag(v.index()),
    ensures
        ({
            let off = magnitude(mag(v.index()) - m * one());
            let n = if v.is_neg() {
                -(m as int)
            } else {
                m as int
            };
            let small = mag(v.index()) < 1_000_000_000_000_000 * one();
            &&& small && off <= mag((TOLERANCE - 1) as nat) ==> num_text(v, opts) == int_text(n)
            &&& small && off >= mag(TOLERANCE as nat) ==> num_text(v, opts) == fixed_text(v)
            &&& !small ==> num_text(v, opts) == fixed_text(v)
        }),
{
    let u = one();
    let g = mag(v.index());
    let neg = v.is_neg();
    law_near_zero(v);
    lemma_pow2_pos(1074);
    law_integers_are_exact(LARGE as int);
    lemma_signed(false, v.index());
    if g < LARGE * u {
        lemma_rounded_off(v, m);
        assert(m <= P53) by (nonlinear_arith)
            requires
                (2 * m - 1) * u <= 2 * g,
                g < LARGE * u,
                u > 0,
        ;
        let w = rounded_off(v);
        let kw = w.index();
        let d = magnitude(g - m * u);
        assert(v == signed(neg, v.index()));
        assert(w == signed(neg, kw));
        if d <= mag((TOLERANCE - 1) as nat) {
            lemma_within(neg, v.index(), kw, d);
        }
        if d >= mag(TOLERANCE as nat) {
            if is_close(v, w) {
                lemma_near(neg, v.index(), kw, d);
            }
            lemma_tolerance_order();
        }
    }
}

/// The tolerance is above the number before it.
proof fn lemma_tolerance_order()
    ensures
        mag((TOLERANCE - 1) as nat) < mag(TOLERANCE as nat),
{
    lemma_mag_order((TOLERANCE - 1) as nat, TOLERANCE as nat);
}

/// Halves are rounded up.
proof fn lemma_half_up(g: nat, u: nat, m: nat)
    requires
        u > 0,
        2 * g < (2 * m + 1) * u,
        (2 * m - 1) * u <= 2 * g,
    ensures
        (2 * g + u) / (2 * u) == m,
{
    let x = (2 * g + u) as int;
    let y = (2 * u) as int;
    assert(x == m * y + (x - m * y) && 0 <= x - m * y < y) by (nonlinear_arith)
        requires
            x == 2 * g + u,
            y == 2 * u,
            2 * g < (2 * m + 1) * u,
            (2 * m - 1) * u <= 2 * g,
    ;
    lemma_fundamental_div_mod_converse(x, y, m as int, x - m * y);
}

/// What a number is rounded off to.
proof fn lemma_rounded_off(v: Double, m: nat)
    requires
        v.finite(),
        2 * mag(v.index()) < (2 * m + 1) * one(),
        (2 * m - 1) * one() <= 2 * mag(v.index()),
        mag(v.index()) < LARGE * one(),
    ensures
        rounded_off(v) == signed(v.is_neg(), rounded_off(v).index()),
        rounded_off(v).finite(),
        mag(rounded_off(v).index()) == m * one(),
        as_integer(rounded_off(v)) == if v.is_neg() {
            -(m as int)
        } else {
            m as int
        },
{
    let u = one();
    let g = mag(v.index());
    lemma_pow2_pos(1074);
    lemma_half_up(g, u, m);
    assert(m <= P53) by (nonlinear_arith)
        requires
            (2 * m - 1) * u <= 2 * g,
            g < LARGE * u,
            u > 0,
    ;
    law_integers_are_exact(m as int);
    law_every_quotient_rounds(m * u, 1);
    lemma_signed(v.is_neg(), nearest(m * u, 1));
    lemma_signed(false, nearest(m * u, 1));
    lemma_fundamental_div_mod_converse(
        (m * u) as int,
        u as int,
        m as int,
        0,
    );
}

/// Rounding off gives the number nearest to the nearest integer, halves away
/// from zero, with the sign of the number; below `LARGE` that is the integer
/// itself.
pub proof fn law_rounding_off(v: Double, m: nat)
    requires
        v.finite(),
        2 * mag(v.index()) < (2 * m + 1) * one(),
        (2 * m - 1) * one() <= 2 * mag(v.index()),
    ensures
        rounded_off(v).is_neg() == v.is_neg(),
        is_nearest(m * one(), 1, rounded_off(v).index()),
        mag(v.index()) < 1_000_000_000_000_000 * one() ==> magnitude(rounded_off(v).value()) == m
            * one(),
{
    let u = one();
    let g = mag(v.index());
    lemma_pow2_pos(1074);
    lemma_half_up(g, u, m);
    law_every_quotient_rounds(m * u, 1);
    lemma_signed(v.is_neg(), nearest(m * u, 1));
    if g < LARGE * u {
        lemma_rounded_off(v, m);
    }
}

/// The integer part of a number cuts its places off, towards zero. It stops at
/// the ends of the range of 64-bit integers, and what is not a number has
/// none.
pub proof fn law_integer_parts(v: Double)
    ensures
        v.is_nan() ==> as_integer(v) == 0,
        !v.is_nan() ==> i64::MIN <= as_integer(v) <= i64::MAX,
        !v.is_nan() && mag(v.index()) < 0x8000_0000_0000_0000 * one() ==> {
            let n = magnitude(as_integer(v));
            &&& n * one() <= mag(v.index()) < (n + 1) * one()
            &&& n != 0 ==> (as_integer(v) < 0) == v.is_neg()
        },
        !v.is_nan() && mag(v.index()) >= 0x8000_0000_0000_0000 * one() ==> as_integer(v)
            == if v.is_neg() {
            i64::MIN as int
        } else {
            i64::MAX as int
        },
{
    let g = mag(v.index()) as int;
    let u = one() as int;
    lemma_pow2_pos(1074);
    lemma_fundamental_div_mod(g, u);
    let n = g / u;
    let top = 0x8000_0000_0000_0000int;
    assert(n >= 0 && n * u <= g < (n + 1) * u && (g < top * u <==> n < top)) by (nonlinear_arith)
        requires
            g == u * n + g % u,
            0 <= g % u < u,
            g >= 0,
            u > 0,
    ;
}

/// With three places a number reads as the nearest number of thousandths, and
/// as the even one of two equally near ones. It has a minus if it is negative
/// and does not read as zero.
pub proof fn law_three_places(v: Double, n: nat)
    requires
        v.finite(),
        2 * (1000 * mag(v.index())) <= (2 * n + 1) * one(),
        (2 * n - 1) * one() <= 2 * (1000 * mag(v.index())),
        2 * (1000 * mag(v.index())) == (2 * n + 1) * one() || (2 * n - 1) * one() == 2 * (1000
            * mag(v.index())) ==> n % 2 == 0,
    ensures
        ({
            let digits = nat_text(n / 1000) + seq![
                '.',
                ((48 + n / 100 % 10) as char),
                ((48 + n / 10 % 10) as char),
                ((48 + n % 10) as char),
            ];
            fixed_text(v) == if v.is_neg() && n > 0 {
                seq!['-'] + digits
            } else {
                digits
            }
        }),
{
    let a = 1000 * mag(v.index());
    lemma_pow2_pos(1074);
    lemma_half_even(a, one(), n);
    let digits = nat_text(n / 1000) + seq![
        '.',
        ((48 + n / 100 % 10) as char),
        ((48 + n / 10 % 10) as char),
        ((48 + n % 10) as char),
    ];
    assert(seq![] + digits =~= digits);
}

/// The integer nearest to a quotient.
proof fn lemma_half_even(a: nat, b: nat, n: nat)
    requires
        b > 0,
        2 * a <= (2 * n + 1) * b,
        (2 * n - 1) * b <= 2 * a,
        2 * a == (2 * n + 1) * b || (2 * n - 1) * b == 2 * a ==> n % 2 == 0,
    ensures
        half_even(a, b) == n,
{
    let q = a / b;
    let r = a % b;
    lemma_fundamental_div_mod(a as int, b as int);
    assert(a == b * q + r && r < b);
    if q > n {
        assert(false) by (nonlinear_arith)
            requires
                a == b * q + r,
                q >= n + 1,
                2 * a <= (2 * n + 1) * b,
                b > 0,
                r >= 0,
        ;
    }
    if q + 1 < n {
        assert(false) by (nonlinear_arith)
            requires
                a == b * q + r,
                q + 2 <= n,
                (2 * n - 1) * b <= 2 * a,
                b > 0,
                r < b,
        ;
    }
    if q == n {
        assert(2 * a == (2 * n) * b + 2 * r && (2 * n + 1) * b == (2 * n) * b + b)
            by (nonlinear_arith)
            requires
                a == b * q + r,
                q == n,
        ;
    } else {
        assert(2 * a == (2 * n - 2) * b + 2 * r && (2 * n - 1) * b == (2 * n - 2) * b + b)
            by (nonlinear_arith)
            requires
                a == b * q + r,
                q == n - 1,
        ;
    }
}

/// Numbers are close exactly when their difference is below `TOLERANCE`.
pub proof fn law_close_numbers(a: Double, b: Double)
    ensures
        is_close(a, b) <==> difference(a, b).index() < TOLERANCE,
{
    let d = difference(a, b);
    lemma_signed(false, d.index());
    lemma_mag_order(d.index(), TOLERANCE as nat);
    assert((Double { bits: TOLERANCE }).index() == TOLERANCE);
}

/// Raw strengths read as numbers. Others read `REQ` from that of a required
/// constraint on, and `0` if they are not numbers.
pub proof fn law_strengths_that_are_not_split(s: Double, opts: RenderOpts)
    requires
        s.index() >= EPSILON,
    ensures
        opts.show_raw_strengths ==> strength_text(s, opts) == num_text(s, opts),
        !opts.show_raw_strengths && !s.is_nan() && s.value() >= 1_001_001_000 * one()
            ==> strength_text(s, opts) == "REQ"@,
        !opts.show_raw_strengths && s.is_nan() ==> strength_text(s, opts) == "0"@,
{
    law_near_zero(s);
    law_integers_are_exact(1_001_001_000);
}

/// Texts are joined with a separator between each two: one more is put behind
/// the separator, unless it is the first.
pub proof fn law_joined(parts: Seq<Seq<char>>, last: Seq<char>, sep: Seq<char>)
    ensures
        joined(Seq::<Seq<char>>::empty(), sep) == Seq::<char>::empty(),
        parts.len() == 0 ==> joined(parts.push(last), sep) == last,
        parts.len() > 0 ==> joined(parts.push(last), sep) == joined(parts, sep) + sep + last,
{
    assert(parts.push(last).drop_last() =~= parts);
}

} // verus!
