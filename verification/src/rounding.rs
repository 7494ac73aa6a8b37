//! Rounding a quotient onto the scale of binary64 magnitudes.
use vstd::prelude::*;
use vstd::arithmetic::power2::{
    pow2,
    lemma2_to64,
    lemma2_to64_rest,
    lemma_pow2_adds,
    lemma_pow2_pos,
    lemma_pow2_strictly_increases,
    lemma_pow2_unfold,
};

use crate::scale::{
    is_nearest,
    lemma_mag_form,
    lemma_mag_next,
    lemma_mag_order,
    lemma_nearest_unique,
    lemma_nearest_zero,
    mag,
    nearest,
    INF,
    P52,
    P53,
};

verus! {

/// Two to the power of 54.
pub const P54: u64 = 0x40_0000_0000_0000;

/// The factor that `2^e` puts on the numerator of a quotient.
pub open spec fn raise(e: int) -> nat {
    if e >= 0 {
        pow2(e as nat)
    } else {
        1
    }
}

/// `num / den` lies in the half-open interval from `m * 2^e` to
/// `(m + 1) * 2^e`, and is its lower end exactly when `exact` holds.
pub open spec fn brackets(num: nat, den: nat, m: nat, e: int, exact: bool) -> bool {
    &&& den * raise(e) * m <= num * raise(-e)
    &&& num * raise(-e) < den * raise(e) * (m + 1)
    &&& exact <==> den * raise(e) * m == num * raise(-e)
}

/// Two to the power of `s`.
pub(crate) fn power_of_two(s: u32) -> (p: u128)
    requires
        s <= 127,
    ensures
        p == pow2(s as nat),
        p <= 0x8000_0000_0000_0000_0000_0000_0000_0000,
{
    let mut p: u128 = 1;
    let mut i: u32 = 0;
    proof {
        lemma2_to64();
    }
    while i < s
        invariant
            i <= s <= 127,
            p == pow2(i as nat),
            p <= 0x8000_0000_0000_0000_0000_0000_0000_0000,
        decreases s - i,
    {
        proof {
            lemma_pow2_unfold((i + 1) as nat);
            lemma_pow2_127(i as nat);
        }
        p = p * 2;
        i = i + 1;
    }
    p
}

pub(crate) proof fn lemma_pow2_127(i: nat)
    requires
        i < 127,
    ensures
        2 * pow2(i) <= 0x8000_0000_0000_0000_0000_0000_0000_0000,
        pow2(127) == 0x8000_0000_0000_0000_0000_0000_0000_0000,
{
    lemma2_to64();
    lemma2_to64_rest();
    lemma_pow2_adds(63, 64);
    assert(0x8000_0000_0000_0000 * 0x1_0000_0000_0000_0000
        == 0x8000_0000_0000_0000_0000_0000_0000_0000) by (nonlinear_arith);
    lemma_pow2_unfold(i + 1);
    if i + 1 < 127 {
        lemma_pow2_strictly_increases(i + 1, 127);
    }
}

/// Dropping the last `s` binary places of `m` and rounding to even.
proof fn lemma_round(
    num: nat,
    den: nat,
    m: nat,
    e: int,
    exact: bool,
    s: nat,
    t: nat,
    q: nat,
    rem: nat,
    up: bool,
)
    requires
        den > 0,
        brackets(num, den, m, e, exact),
        t == e + s,
        s >= 1,
        m == q * pow2(s) + rem,
        rem < pow2(s),
        q < P53,
        t == 0 || q >= P52,
        up == (2 * rem > pow2(s) || (2 * rem == pow2(s) && (!exact || q % 2 == 1))),
    ensures
        ({
            let k = (t * P52 + q + if up { 1int } else { 0 }) as nat;
            is_nearest(num, den, if k <= INF { k } else { INF as nat })
        }),
{
    let u = raise(e);
    let d = raise(-e);
    let sp = pow2(s);
    let tp = pow2(t);
    let a = den * u;
    let k0 = (t * P52 + q) as nat;
    lemma_pow2_pos(s);
    lemma_pow2_pos(t);
    lemma_pow2_pos(if e >= 0 { e as nat } else { (-e) as nat });
    assert(sp * u == tp * d) by {
        if e >= 0 {
            lemma_pow2_adds(s, e as nat);
        } else {
            lemma_pow2_adds(t, (-e) as nat);
        }
    }
    assert(sp == 2 * pow2((s - 1) as nat)) by {
        lemma_pow2_unfold(s);
    }
    assert(a > 0) by (nonlinear_arith)
        requires
            a == den * u,
            den > 0,
            u > 0,
    ;
    // The place of the quotient between the two neighbouring magnitudes.
    assert(a * (q * sp) == (den * (q * tp)) * d) by (nonlinear_arith)
        requires
            a == den * u,
            sp * u == tp * d,
    ;
    assert(a * ((q + 1) * sp) == (den * ((q + 1) * tp)) * d) by (nonlinear_arith)
        requires
            a == den * u,
            sp * u == tp * d,
    ;
    assert(a * ((2 * q + 1) * sp) == (den * ((2 * q + 1) * tp)) * d) by (nonlinear_arith)
        requires
            a == den * u,
            sp * u == tp * d,
    ;
    assert(den * (q * tp) <= num) by {
        assert(a * (q * sp) <= a * m) by (nonlinear_arith)
            requires
                q * sp <= m,
        ;
        assert(den * (q * tp) <= num) by (nonlinear_arith)
            requires
                (den * (q * tp)) * d <= num * d,
                d > 0,
        ;
    }
    assert(num < den * ((q + 1) * tp)) by {
        assert((q + 1) * sp == q * sp + sp) by (nonlinear_arith);
        assert(a * (m + 1) <= a * ((q + 1) * sp)) by (nonlinear_arith)
            requires
                m + 1 <= (q + 1) * sp,
        ;
        assert(num < den * ((q + 1) * tp)) by (nonlinear_arith)
            requires
                num * d < (den * ((q + 1) * tp)) * d,
                d > 0,
        ;
    }
    let mid = den * ((2 * q + 1) * tp);
    assert((2 * q + 1) * sp == 2 * (q * sp) + sp) by (nonlinear_arith);
    if 2 * rem > sp {
        assert(2 * (a * m) > a * ((2 * q + 1) * sp)) by (nonlinear_arith)
            requires
                a > 0,
                2 * m > (2 * q + 1) * sp,
        ;
        assert(2 * num > mid) by (nonlinear_arith)
            requires
                2 * (num * d) > mid * d,
                d > 0,
        ;
    } else if 2 * rem == sp {
        assert(2 * (a * m) == a * ((2 * q + 1) * sp)) by (nonlinear_arith)
            requires
                2 * m == (2 * q + 1) * sp,
        ;
        if exact {
            assert(2 * num == mid) by (nonlinear_arith)
                requires
                    2 * (num * d) == mid * d,
                    d > 0,
            ;
        } else {
            assert(2 * num > mid) by (nonlinear_arith)
                requires
                    2 * (num * d) > mid * d,
                    d > 0,
            ;
        }
    } else {
        assert(2 * (a * (m + 1)) <= a * ((2 * q + 1) * sp)) by (nonlinear_arith)
            requires
                a > 0,
                2 * (m + 1) <= (2 * q + 1) * sp,
        ;
        assert(2 * num < mid) by (nonlinear_arith)
            requires
                2 * (num * d) < mid * d,
                d > 0,
        ;
    }
    lemma_mag_form(t, q);
    lemma_mag_form(t, q + 1);
    assert(mag(k0) == q * tp);
    assert(mag(k0 + 1) == (q + 1) * tp);
    assert(mid == den * (mag(k0) + mag(k0 + 1))) by (nonlinear_arith)
        requires
            mid == den * ((2 * q + 1) * tp),
            mag(k0) == q * tp,
            mag(k0 + 1) == (q + 1) * tp,
    ;
    assert(k0 % 2 == q % 2) by {
        assert((t * P52) % 2 == 0) by (nonlinear_arith);
    }
    lemma_settle(num, den, k0, up);
}

/// Between two neighbours, comparing with the midpoint decides.
pub(crate) proof fn lemma_settle(num: nat, den: nat, k0: nat, up: bool)
    requires
        den > 0,
        den * mag(k0) <= num,
        num < den * mag(k0 + 1),
        ({
            let mid = den * (mag(k0) + mag(k0 + 1));
            up == (2 * num > mid || (2 * num == mid && k0 % 2 == 1))
        }),
    ensures
        ({
            let k = (k0 + if up { 1int } else { 0 }) as nat;
            is_nearest(num, den, if k <= INF { k } else { INF as nat })
        }),
{
    if k0 >= INF {
        lemma_mag_next((INF - 1) as nat);
        lemma_mag_order(INF as nat, k0);
        lemma_mag_order(k0, INF as nat);
        let lo = mag((INF - 1) as nat) + mag(INF as nat);
        assert(den * lo < 2 * num) by (nonlinear_arith)
            requires
                den > 0,
                den * mag(k0) <= num,
                lo < 2 * mag(k0),
        ;
    } else if up {
        lemma_mag_next(k0 + 1);
        let hi = mag(k0 + 1) + mag(k0 + 2);
        assert(2 * num < den * hi) by (nonlinear_arith)
            requires
                den > 0,
                num < den * mag(k0 + 1),
                hi > 2 * mag(k0 + 1),
        ;
    } else if k0 > 0 {
        lemma_mag_next((k0 - 1) as nat);
        let lo = mag((k0 - 1) as nat) + mag(k0);
        assert(den * lo < 2 * num) by (nonlinear_arith)
            requires
                den > 0,
                den * mag(k0) <= num,
                lo < 2 * mag(k0),
        ;
    }
}

/// The index of the magnitude nearest to a quotient that `m` and `e` bracket.
pub(crate) fn round_bracketed(
    m: u128,
    e: i64,
    exact: bool,
    Ghost(num): Ghost<nat>,
    Ghost(den): Ghost<nat>,
) -> (k: u64)
    requires
        den > 0,
        brackets(num, den, m as nat, e as int, exact),
        P54 <= m < 0x8000_0000_0000_0000_0000_0000_0000_0000,
        -10000 <= e <= 10000,
    ensures
        k == nearest(num, den),
        is_nearest(num, den, k as nat),
{
    let mut limit: u128 = 0x40_0000_0000_0000;
    let mut s: u32 = 1;
    proof {
        lemma2_to64();
    }
    while m >= limit
        invariant
            1 <= s <= 74,
            limit == P53 * pow2(s as nat),
            limit <= 0x8000_0000_0000_0000_0000_0000_0000_0000,
            2 * m >= limit,
            m < 0x8000_0000_0000_0000_0000_0000_0000_0000,
        decreases 74 - s,
    {
        proof {
            lemma2_to64_rest();
            lemma_pow2_adds(53, s as nat);
            lemma_pow2_unfold((s + 1) as nat);
            lemma_pow2_127(0);
            if s >= 74 {
                assert(pow2(74 + 53) == P53 * pow2(74)) by {
                    lemma_pow2_adds(53, 74);
                }
            } else {
                lemma_pow2_127((53 + s) as nat);
            }
        }
        limit = limit * 2;
        s = s + 1;
    }
    assert(P52 * pow2(s as nat) <= m < P53 * pow2(s as nat));
    if (s as i64) < -e {
        proof {
            lemma_pow2_strictly_increases(s as nat, (-e) as nat);
            assert(P53 * pow2(s as nat) < P53 * pow2((-e) as nat)) by (nonlinear_arith)
                requires
                    pow2(s as nat) < pow2((-e) as nat),
            ;
        }
        s = (-e) as u32;
    }
    let ghost t: nat = (e + s) as nat;
    if s >= 128 {
        proof {
            lemma_pow2_127(0);
            lemma_pow2_unfold(s as nat);
            if s > 128 {
                lemma_pow2_strictly_increases(127, (s - 1) as nat);
            }
            lemma_round(
                num,
                den,
                m as nat,
                e as int,
                exact,
                s as nat,
                t,
                0,
                m as nat,
                false,
            );
            lemma_nearest_unique(num, den, 0);
        }
        return 0;
    }
    let p: u128 = power_of_two(s);
    let q: u128 = m / p;
    let rem: u128 = m % p;
    proof {
        lemma_pow2_pos(s as nat);
        vstd::arithmetic::div_mod::lemma_fundamental_div_mod(m as int, p as int);
        assert(m == q * pow2(s as nat) + rem) by (nonlinear_arith)
            requires
                m == p * q + rem,
                p == pow2(s as nat),
        ;
        assert(q < P53) by (nonlinear_arith)
            requires
                m < P53 * pow2(s as nat),
                m >= q * pow2(s as nat),
                pow2(s as nat) > 0,
        ;
        if t > 0 {
            assert(q >= P52) by (nonlinear_arith)
                requires
                    m >= P52 * pow2(s as nat),
                    m == q * pow2(s as nat) + rem,
                    rem < pow2(s as nat),
            ;
        }
        lemma_pow2_unfold(s as nat);
    }
    let half: u128 = p / 2;
    let up: bool = rem > half || (rem == half && (!exact || q % 2 == 1));
    let whole: u128 = (e + s as i64) as u128 * 0x10_0000_0000_0000 + q + if up {
        1
    } else {
        0
    };
    proof {
        lemma_round(
            num,
            den,
            m as nat,
            e as int,
            exact,
            s as nat,
            t,
            q as nat,
            rem as nat,
            up,
        );
    }
    let k: u64 = if whole <= INF as u128 {
        whole as u64
    } else {
        INF
    };
    proof {
        lemma_nearest_unique(num, den, k as nat);
    }
    k
}

/// The index of the magnitude nearest to `m * 2^e` units.
pub(crate) fn round_exact(
    m: u128,
    e: i64,
    Ghost(num): Ghost<nat>,
    Ghost(den): Ghost<nat>,
) -> (k: u64)
    requires
        den > 0,
        den * raise(e as int) * m == num * raise(-e as int),
        m < 0x8000_0000_0000_0000_0000_0000_0000_0000,
        -9000 <= e <= 9000,
    ensures
        k == nearest(num, den),
        is_nearest(num, den, k as nat),
{
    if m == 0 {
        proof {
            lemma_raise(e as int);
            assert(num == 0) by (nonlinear_arith)
                requires
                    den * raise(e as int) * 0 == num * raise(-e as int),
                    raise(-e as int) > 0,
            ;
            lemma_nearest_zero(den);
        }
        return 0;
    }
    let mut m: u128 = m;
    let mut e: i64 = e;
    let mut steps: i64 = 0;
    let ghost start = e;
    proof {
        lemma2_to64();
        lemma2_to64_rest();
    }
    while m < 0x40_0000_0000_0000
        invariant
            0 < m < 0x8000_0000_0000_0000_0000_0000_0000_0000,
            den > 0,
            den * raise(e as int) * m == num * raise(-e as int),
            0 <= steps <= 54,
            e == start - steps,
            m >= pow2(steps as nat),
            pow2(54) == 0x40_0000_0000_0000,
            -9000 <= start <= 9000,
        decreases 54 - steps,
    {
        proof {
            if steps >= 54 {
                lemma_pow2_strictly_increases(54, (steps + 1) as nat);
            }
            lemma_pow2_unfold((steps + 1) as nat);
            lemma_raise_step(num, den, m as nat, e as int);
        }
        m = m * 2;
        e = e - 1;
        steps = steps + 1;
    }
    proof {
        lemma_raise(e as int);
        let a = den * raise(e as int);
        assert(a > 0) by (nonlinear_arith)
            requires
                a == den * raise(e as int),
                den > 0,
                raise(e as int) > 0,
        ;
        assert(a * m < a * (m + 1)) by (nonlinear_arith)
            requires
                a > 0,
        ;
    }
    round_bracketed(m, e, true, Ghost(num), Ghost(den))
}

proof fn lemma_raise(e: int)
    ensures
        raise(e) > 0,
        raise(-e) > 0,
{
    if e >= 0 {
        lemma_pow2_pos(e as nat);
    } else {
        lemma_pow2_pos((-e) as nat);
    }
}

/// Doubling a significand and lowering its exponent leaves its value alone.
proof fn lemma_raise_step(num: nat, den: nat, m: nat, e: int)
    requires
        den * raise(e) * m == num * raise(-e),
    ensures
        den * raise(e - 1) * (2 * m) == num * raise(1 - e),
{
    lemma2_to64();
    if e > 0 {
        lemma_pow2_unfold(e as nat);
        assert(den * raise(e - 1) * (2 * m) == den * raise(e) * m) by (nonlinear_arith)
            requires
                raise(e) == 2 * raise(e - 1),
        ;
    } else {
        lemma_pow2_unfold((1 - e) as nat);
        assert(den * raise(e - 1) * (2 * m) == num * raise(1 - e)) by (nonlinear_arith)
            requires
                raise(e) == 1,
                raise(e - 1) == 1,
                raise(1 - e) == 2 * raise(-e),
                den * raise(e) * m == num * raise(-e),
        ;
    }
}

} // verus!
