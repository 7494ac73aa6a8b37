//! Binary64 numbers in decimal.
use vstd::prelude::*;
use vstd::arithmetic::div_mod::{lemma_fundamental_div_mod, lemma_fundamental_div_mod_converse};
use vstd::arithmetic::power2::{
    pow2,
    lemma2_to64,
    lemma2_to64_rest,
    lemma_pow2_adds,
    lemma_pow2_pos,
    lemma_pow2_strictly_increases,
    lemma_pow2_unfold,
};

use crate::digits::{self, digit_value};
use crate::double::Double;
use crate::rounding::power_of_two;
use crate::scale::{mag, one, P53};
use crate::text::{digit_char, int_text, nat_text, push_digit, push_int, push_nat};

verus! {

/// The integer nearest to `a / b`, and of two equally near ones the even one.
pub open spec fn half_even(a: nat, b: nat) -> nat {
    if 2 * (a % b) > b || (2 * (a % b) == b && (a / b) % 2 == 1) {
        a / b + 1
    } else {
        a / b
    }
}

/// The sign that goes before a number.
pub open spec fn sign_text(neg: bool) -> Seq<char> {
    if neg {
        seq!['-']
    } else {
        seq![]
    }
}

/// A number of thousandths, with three places after the point.
pub open spec fn thousandths_text(n: nat) -> Seq<char> {
    nat_text(n / 1000) + seq![
        '.',
        digit_char(n / 100 % 10),
        digit_char(n / 10 % 10),
        digit_char(n % 10),
    ]
}

/// A finite number with three places after the point. What rounds to zero has
/// no sign.
pub open spec fn fixed_text(x: Double) -> Seq<char> {
    let n = half_even(1000 * mag(x.index()), one());
    sign_text(x.is_neg() && n > 0) + thousandths_text(n)
}

/// What stands for a number that is not finite.
pub open spec fn special_text(x: Double) -> Seq<char> {
    if x.is_nan() {
        "NaN"@
    } else if x.is_neg() {
        "-inf"@
    } else {
        "inf"@
    }
}

/// Appends the sign of a number.
pub(crate) fn push_sign(out: &mut String, x: Double)
    ensures
        final(out)@ == old(out)@ + sign_text(x.is_neg()),
{
    if x.negative() {
        proof {
            reveal_strlit("-");
        }
        out.append("-");
    }
}

/// Appends the places of a number of thousandths.
fn push_places(out: &mut String, n: u64)
    ensures
        final(out)@ == old(out)@ + seq![
            '.',
            digit_char(n as nat / 100 % 10),
            digit_char(n as nat / 10 % 10),
            digit_char(n as nat % 10),
        ],
{
    proof {
        reveal_strlit(".");
    }
    out.append(".");
    push_digit(out, (n / 100 % 10) as u8);
    push_digit(out, (n / 10 % 10) as u8);
    push_digit(out, (n % 10) as u8);
    assert(out@ =~= old(out)@ + seq![
        '.',
        digit_char(n as nat / 100 % 10),
        digit_char(n as nat / 10 % 10),
        digit_char(n as nat % 10),
    ]);
}

/// Appends a finite number with three places after the point.
pub fn push_fixed(out: &mut String, x: Double)
    requires
        x.finite(),
    ensures
        final(out)@ == old(out)@ + fixed_text(x),
{
    let (m, e): (u64, u32) = x.parts();
    if e >= 1074 {
        push_sign(out, x);
        push_integer(out, m, e - 1074);
        push_places(out, 0);
        proof {
            let q = m * pow2((e - 1074) as nat);
            lemma_integer_thousandths(m, e);
            lemma_pow2_pos((e - 1074) as nat);
            assert(q > 0) by (nonlinear_arith)
                requires
                    q == m * pow2((e - 1074) as nat),
                    m > 0,
                    pow2((e - 1074) as nat) > 0,
            ;
            assert((1000 * q) as nat / 1000 == q);
        }
        assert(out@ =~= old(out)@ + fixed_text(x));
    } else {
        let n: u64 = thousandths(m, e);
        if n > 0 {
            push_sign(out, x);
        }
        push_nat(out, n / 1000);
        push_places(out, n);
    }
}

/// Appends an integer of any size.
pub fn push_whole(out: &mut String, x: Double)
    requires
        x.finite(),
        mag(x.index()) % one() == 0,
    ensures
        final(out)@ == old(out)@ + int_text(x.value() / (one() as int)),
{
    let (m, e): (u64, u32) = x.parts();
    let ghost g = mag(x.index());
    let ghost u = one();
    let ghost n = g / u;
    proof {
        lemma_pow2_pos(1074);
        lemma_fundamental_div_mod(g as int, u as int);
        assert(-(g as int) == (-(n as int)) * u + 0 && g == n * u + 0) by (nonlinear_arith)
            requires
                g == u * n,
        ;
        lemma_fundamental_div_mod_converse(-(g as int), u as int, -(n as int), 0);
        lemma_fundamental_div_mod_converse(g as int, u as int, n as int, 0);
    }
    if e < 1074 {
        proof {
            lemma_pow2_pos(e as nat);
            lemma_pow2_strictly_increases(e as nat, 1074);
            assert(n < P53) by (nonlinear_arith)
                requires
                    g == n * u,
                    g == m * pow2(e as nat),
                    m < P53,
                    pow2(e as nat) <= u,
                    pow2(e as nat) > 0,
            ;
        }
        push_int(out, x.to_i64());
    } else {
        push_sign(out, x);
        push_integer(out, m, e - 1074);
        proof {
            let q = m * pow2((e - 1074) as nat);
            lemma_pow2_adds(1074, (e - 1074) as nat);
            lemma_pow2_pos((e - 1074) as nat);
            assert(q > 0 && g == q * u + 0) by (nonlinear_arith)
                requires
                    q == m * pow2((e - 1074) as nat),
                    g == m * (u * pow2((e - 1074) as nat)),
                    m > 0,
                    pow2((e - 1074) as nat) > 0,
            ;
            lemma_fundamental_div_mod_converse(g as int, u as int, q, 0);
        }
        assert(out@ =~= old(out)@ + int_text(x.value() / (one() as int)));
    }
}

/// Appends `m * 2^s`.
fn push_integer(out: &mut String, m: u64, s: u32)
    requires
        m > 0,
    ensures
        final(out)@ == old(out)@ + nat_text((m * pow2(s as nat)) as nat),
{
    let mut ds: Vec<u8> = digits::from_u64(m);
    let mut i: u32 = 0;
    proof {
        lemma2_to64();
    }
    while i < s
        invariant
            i <= s,
            m > 0,
            crate::digits::all_digits(ds@),
            ds@.len() > 0 ==> ds@.last() > 0,
            digit_value(ds@) == m * pow2(i as nat),
        decreases s - i,
    {
        digits::scale(&mut ds, 2);
        proof {
            lemma_pow2_unfold((i + 1) as nat);
            assert(2 * (m * pow2(i as nat)) == m * (2 * pow2(i as nat))) by (nonlinear_arith);
        }
        i = i + 1;
    }
    proof {
        lemma_pow2_pos(s as nat);
        assert(m * pow2(s as nat) > 0) by (nonlinear_arith)
            requires
                m > 0,
                pow2(s as nat) > 0,
        ;
    }
    digits::push_digits(out, &ds, 0);
    assert(ds@.skip(0) =~= ds@);
}

/// An integer has no thousandths.
proof fn lemma_integer_thousandths(m: u64, e: u32)
    requires
        e >= 1074,
    ensures
        half_even((1000 * (m * pow2(e as nat))) as nat, one()) == 1000 * (m * pow2(
            (e - 1074) as nat,
        )),
{
    let q = m * pow2((e - 1074) as nat);
    let a = 1000 * (m * pow2(e as nat));
    lemma_pow2_adds(1074, (e - 1074) as nat);
    lemma_pow2_pos(1074);
    assert(a == (1000 * q) * one() + 0) by (nonlinear_arith)
        requires
            a == 1000 * (m * (one() * pow2((e - 1074) as nat))),
            q == m * pow2((e - 1074) as nat),
    ;
    lemma_fundamental_div_mod_converse(a, one() as int, 1000 * q, 0);
}

/// The number of thousandths in `m * 2^e` units.
fn thousandths(m: u64, e: u32) -> (n: u64)
    requires
        m < P53,
        e < 1074,
    ensures
        n == half_even((1000 * (m * pow2(e as nat))) as nat, one()),
{
    let d: u32 = 1074 - e;
    let a: u64 = 1000 * m;
    let ghost u = pow2(e as nat);
    let ghost g = (1000 * (m * u)) as nat;
    proof {
        lemma_pow2_pos(e as nat);
        lemma_pow2_pos(d as nat);
        lemma_pow2_adds(e as nat, d as nat);
        lemma2_to64_rest();
        assert(g == a * u) by (nonlinear_arith)
            requires
                g == 1000 * (m * u),
                a == 1000 * m,
        ;
    }
    if d > 64 {
        proof {
            lemma_pow2_strictly_increases(64, d as nat);
            assert(2 * (a * u) < u * pow2(d as nat)) by (nonlinear_arith)
                requires
                    2 * a < pow2(d as nat),
                    u > 0,
            ;
            lemma_fundamental_div_mod_converse(g as int, one() as int, 0, g as int);
        }
        return 0;
    }
    let p: u128 = power_of_two(d);
    let q: u128 = a as u128 / p;
    let rem: u128 = a as u128 % p;
    proof {
        lemma_fundamental_div_mod(a as int, p as int);
        assert(g == q * one() + rem * u) by (nonlinear_arith)
            requires
                g == a * u,
                a == p * q + rem,
                one() == u * p,
        ;
        assert(0 <= rem * u < one()) by (nonlinear_arith)
            requires
                0 <= rem < p,
                one() == u * p,
                u > 0,
        ;
        lemma_fundamental_div_mod_converse(g as int, one() as int, q as int, rem * u);
        assert(2 * (rem * u) > one() <==> 2 * rem > p) by (nonlinear_arith)
            requires
                one() == u * p,
                u > 0,
        ;
        assert(2 * (rem * u) == one() <==> 2 * rem == p) by (nonlinear_arith)
            requires
                one() == u * p,
                u > 0,
        ;
        lemma_pow2_unfold(d as nat);
        assert(q <= a) by (nonlinear_arith)
            requires
                a == p * q + rem,
                p > 0,
                rem >= 0,
        ;
    }
    let half: u128 = p / 2;
    if rem > half || (rem == half && q % 2 == 1) {
        (q + 1) as u64
    } else {
        q as u64
    }
}

/// Appends what stands for a number that is not finite.
pub fn push_special(out: &mut String, x: Double)
    requires
        !x.finite(),
    ensures
        final(out)@ == old(out)@ + special_text(x),
{
    if x.place() > crate::scale::INF {
        out.append("NaN");
    } else if x.negative() {
        out.append("-inf");
    } else {
        out.append("inf");
    }
}

} // verus!
