//! The scale of binary64 magnitudes, and rounding onto it.
//!
//! The bit patterns of the non-negative binary64 numbers, read as integers,
//! are numbered upwards in order of value: pattern 0 is zero, pattern 1 the
//! least subnormal number, and `INF` is infinity. A magnitude is therefore
//! named here by its *index* on that scale, and measured in units of the least
//! subnormal number, which makes every finite magnitude an integer.
use vstd::prelude::*;
use vstd::arithmetic::power2::{pow2, lemma_pow2_pos, lemma_pow2_unfold};

verus! {

/// Two to the power of 52: the number of fraction patterns per exponent.
pub const P52: u64 = 0x10_0000_0000_0000;

/// Two to the power of 53.
pub const P53: u64 = 0x20_0000_0000_0000;

/// The index of infinity.
pub const INF: u64 = 0x7ff0_0000_0000_0000;

/// One, in units: the least subnormal number has 1074 binary places.
pub open spec fn one() -> nat {
    pow2(1074)
}

/// The magnitude with index `k`, in units.
///
/// At `INF` this is the value that the next magnitude would have if the
/// exponent were not bounded, which is how rounding treats infinity.
pub open spec fn mag(k: nat) -> nat {
    if k < P52 {
        k
    } else {
        ((P52 + k % (P52 as nat)) as nat) * pow2((k / (P52 as nat) - 1) as nat)
    }
}

/// `k` is the index on the scale nearest to `num / den` units, and of two
/// equally near indices the even one. From halfway between the largest finite
/// magnitude and its would-be successor onwards, that is `INF`.
pub open spec fn is_nearest(num: nat, den: nat, k: nat) -> bool {
    &&& k <= INF
    &&& k > 0 ==> {
        ||| den * (mag((k - 1) as nat) + mag(k)) < 2 * num
        ||| den * (mag((k - 1) as nat) + mag(k)) == 2 * num && k % 2 == 0
    }
    &&& k < INF ==> {
        ||| 2 * num < den * (mag(k) + mag(k + 1))
        ||| 2 * num == den * (mag(k) + mag(k + 1)) && k % 2 == 0
    }
}

/// The index that `num / den` units round to.
pub open spec fn nearest(num: nat, den: nat) -> nat {
    choose|k: nat| is_nearest(num, den, k)
}

/// A magnitude written as a significand and an exponent.
pub proof fn lemma_mag_form(t: nat, q: nat)
    requires
        q <= P53,
        t == 0 || P52 <= q,
    ensures
        mag((t * P52 + q) as nat) == q * pow2(t),
{
    assert(pow2(0) == 1) by {
        vstd::arithmetic::power2::lemma2_to64();
    }
    if q < P52 {
    } else if q < P53 {
    } else {
        lemma_pow2_unfold(t + 1);
        assert(P52 * (2 * pow2(t)) == P53 * pow2(t)) by (nonlinear_arith);
    }
}

/// The significand and the exponent of the magnitude with index `k`.
pub open spec fn significand(k: nat) -> nat {
    if k < P52 {
        k
    } else {
        (P52 + k % (P52 as nat)) as nat
    }
}

/// See `significand`.
pub open spec fn exponent(k: nat) -> nat {
    if k < P52 {
        0
    } else {
        (k / (P52 as nat) - 1) as nat
    }
}

/// How far the magnitude with index `k` is from the next one, in units.
pub open spec fn spacing(k: nat) -> nat {
    pow2(exponent(k))
}

/// Neighbouring magnitudes differ by one in the last place.
pub proof fn lemma_mag_next(k: nat)
    ensures
        significand(k) < P53,
        exponent(k) > 0 ==> significand(k) >= P52,
        k == exponent(k) * P52 + significand(k),
        mag(k) == significand(k) * pow2(exponent(k)),
        mag(k + 1) == (significand(k) + 1) * pow2(exponent(k)),
        mag(k + 1) == mag(k) + pow2(exponent(k)),
        mag(k) < mag(k + 1),
{
    let t = exponent(k);
    let q = significand(k);
    lemma_mag_form(t, q);
    lemma_mag_form(t, q + 1);
    lemma_pow2_pos(t);
    assert((q + 1) * pow2(t) == q * pow2(t) + pow2(t)) by (nonlinear_arith);
}

/// Larger indices name larger magnitudes.
pub proof fn lemma_mag_strict(i: nat, j: nat)
    requires
        i < j,
    ensures
        mag(i) < mag(j),
    decreases j - i,
{
    lemma_mag_next((j - 1) as nat);
    if i < j - 1 {
        lemma_mag_strict(i, (j - 1) as nat);
    }
}

/// Indices are ordered as their magnitudes are.
pub proof fn lemma_mag_order(i: nat, j: nat)
    ensures
        i < j <==> mag(i) < mag(j),
        i == j <==> mag(i) == mag(j),
{
    if i < j {
        lemma_mag_strict(i, j);
    }
    if j < i {
        lemma_mag_strict(j, i);
    }
}

/// No quotient rounds to two indices.
pub proof fn lemma_nearest_unique(num: nat, den: nat, k: nat)
    requires
        den > 0,
        is_nearest(num, den, k),
    ensures
        nearest(num, den) == k,
{
    let r = nearest(num, den);
    lemma_nearest_order(num, den, r, k);
    lemma_nearest_order(num, den, k, r);
}

proof fn lemma_nearest_order(num: nat, den: nat, a: nat, b: nat)
    requires
        den > 0,
        is_nearest(num, den, a),
        is_nearest(num, den, b),
    ensures
        b <= a,
{
    if a < b {
        let hi = mag(a) + mag(a + 1);
        let lo = mag((b - 1) as nat) + mag(b);
        lemma_mag_order((b - 1) as nat, a);
        lemma_mag_order(b, a + 1);
        if a + 1 < b {
            assert(den * hi < den * lo) by (nonlinear_arith)
                requires
                    hi < lo,
                    den > 0,
            ;
        }
    }
}

/// A quotient that is a magnitude is not changed by rounding.
pub proof fn lemma_nearest_exact(num: nat, den: nat, k: nat)
    requires
        den > 0,
        k < INF,
        num == den * mag(k),
    ensures
        nearest(num, den) == k,
{
    lemma_mag_next(k);
    let m = mag(k);
    let hi = mag(k + 1);
    assert(2 * num < den * (m + hi)) by (nonlinear_arith)
        requires
            den > 0,
            m < hi,
            num == den * m,
    ;
    if k > 0 {
        lemma_mag_next((k - 1) as nat);
        let lo = mag((k - 1) as nat);
        assert(den * (lo + m) < 2 * num) by (nonlinear_arith)
            requires
                den > 0,
                lo < m,
                num == den * m,
        ;
    }
    lemma_nearest_unique(num, den, k);
}

/// Nothing rounds to nothing.
pub proof fn lemma_nearest_zero(den: nat)
    requires
        den > 0,
    ensures
        is_nearest(0, den, 0),
        nearest(0, den) == 0,
{
    assert(is_nearest(0, den, 0)) by {
        assert(den * (mag(0) + mag(1)) > 0) by (nonlinear_arith)
            requires
                den > 0,
                mag(0) + mag(1) == 1,
        ;
    }
    lemma_nearest_unique(0, den, 0);
}

} // verus!
