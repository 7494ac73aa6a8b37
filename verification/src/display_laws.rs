//! What the decimal that a number is displayed by reads as.
use vstd::prelude::*;
use vstd::arithmetic::div_mod::{
    lemma_div_denominator, lemma_fundamental_div_mod, lemma_fundamental_div_mod_converse,
    lemma_hoist_over_denominator,
};

use crate::digits::{lemma_pow10, lemma_pow10_adds, pow10};
use crate::double::Double;
use crate::number_laws::reading;
use crate::shortest::{
    decimal_text, display_text, is_shortest, law_shortest_reads_back, reads_as, shortest,
    trailing_zeros,
};
use crate::scale::{is_nearest, one};
use crate::text::{digit_char, nat_text};

verus! {

/// What is not finite is named; every other number is displayed by a minus, if
/// it has one, and the shortest decimal that is nearest to it.
pub proof fn law_display(v: Double)
    ensures
        v.is_nan() ==> display_text(v) == "NaN"@,
        v.is_infinite() ==> display_text(v) == if v.is_neg() {
            "-inf"@
        } else {
            "inf"@
        },
        v.index() == 0 ==> display_text(v) == if v.is_neg() {
            seq!['-', '0']
        } else {
            seq!['0']
        },
        v.finite() && v.index() != 0 ==> {
            let x = shortest(v.index());
            &&& is_nearest(x * one(), pow10(1075), v.index())
            &&& is_shortest(x, v.index())
            &&& display_text(v) == if v.is_neg() {
                seq!['-'] + decimal_text(x)
            } else {
                decimal_text(x)
            }
        },
{
    reveal_strlit("0");
    assert("0"@ =~= seq!['0']);
    if v.finite() && v.index() != 0 {
        law_shortest_reads_back(v.index());
        assert(reads_as(shortest(v.index()), v.index()));
    }
    assert(Seq::<char>::empty() + "0"@ =~= seq!['0']);
    assert(seq!['-'] + "0"@ =~= seq!['-', '0']);
    assert(seq![] + decimal_text(shortest(v.index())) =~= decimal_text(shortest(v.index())));
}

/// A decimal without the zeros at its end.
proof fn lemma_trailing(x: nat) -> (y: nat)
    requires
        x > 0,
    ensures
        x == y * pow10(trailing_zeros(x)),
        y % 10 != 0,
    decreases x,
{
    lemma_pow10(0);
    if x % 10 != 0 {
        assert(x * pow10(0) == x) by (nonlinear_arith)
            requires
                pow10(0) == 1,
        ;
        x
    } else {
        let y = lemma_trailing(x / 10);
        let z = trailing_zeros(x / 10);
        lemma_pow10(z);
        assert(10 * (y * pow10(z)) == y * (10 * pow10(z))) by (nonlinear_arith);
        y
    }
}

/// One more digit of a quotient by a power of ten.
proof fn lemma_digit(x: nat, p: nat, y: nat, here: int, above: int, digit: int)
    requires
        p < 1075,
        y == x % pow10(1075),
        here == y / pow10(p),
        above == y / pow10(p + 1),
        digit == x / pow10(p) % 10,
    ensures
        here == 10 * above + digit,
{
    let top = pow10(1075) as int;
    let m = pow10(p) as int;
    let r = (1074 - p) as nat;
    lemma_pow10(p);
    lemma_pow10(r);
    lemma_pow10_adds(p + 1, r);
    lemma_pow10_adds(p, r + 1);
    lemma_pow10(1075);
    lemma_fundamental_div_mod(x as int, top);
    let c = x as int / top;
    let y = y as int;
    let s = pow10(r) as int;
    // x / 10^p == (10 * 10^r) * c + y / 10^p
    assert(top * c == ((10 * s) * c) * m) by (nonlinear_arith)
        requires
            top == m * (10 * s),
    ;
    lemma_hoist_over_denominator(y, (10 * s) * c, m as nat);
    assert(x as int / m == y / m + (10 * s) * c);
    let d = y / m;
    let e = s * c;
    assert((10 * s) * c == 10 * e) by (nonlinear_arith)
        requires
            e == s * c,
    ;
    assert((d + 10 * e) % 10 == d % 10);
    lemma_div_denominator(y, m, 10);
    assert(m * 10 == 10 * m);
}

/// The places of a decimal, read so far.
proof fn lemma_places(x: nat, f: Seq<char>, n: nat)
    requires
        n <= f.len() <= 1075,
        forall|i: int|
            0 <= i < f.len() ==> #[trigger] f[i] == digit_char(x / pow10((1074 - i) as nat) % 10),
    ensures
        reading(f.take(n as int)) == (x % pow10(1075)) / pow10((1075 - n) as nat),
    decreases n,
{
    let y = x % pow10(1075);
    lemma_pow10(1075);
    if n == 0 {
        assert(f.take(n as int) =~= seq![]);
        assert(reading(f.take(n as int)) == 0);
        assert((1075 - n) as nat == 1075);
        assert(y / pow10(1075) == 0) by {
            lemma_fundamental_div_mod_converse(y as int, pow10(1075) as int, 0, y as int);
        }
    } else {
        let m = (n - 1) as nat;
        let p = (1075 - n) as nat;
        lemma_places(x, f, m);
        assert(f.take(n as int).drop_last() =~= f.take(m as int));
        assert(f.take(n as int).last() == f[m as int]);
        assert((1074 - m) as nat == p);
        let digit = (x / pow10(p) % 10) as int;
        let before = reading(f.take(m as int));
        let here = (y / pow10(p)) as int;
        let above = (y / pow10(p + 1)) as int;
        assert(digit_char(digit as nat) as int == 48 + digit);
        assert(reading(f.take(n as int)) == 10 * before + digit);
        assert((1075 - m) as nat == p + 1);
        assert(before == above);
        lemma_digit(x, p, y, here, above, digit);
        assert(reading(f.take(n as int)) == here);
    }
    assert(reading(f.take(n as int)) == (x % pow10(1075)) / pow10((1075 - n) as nat));
}

/// A decimal is written as its integer part, and behind a point the places
/// that it has, without zeros at the end. `x` counts the last of 1075 places.
pub proof fn law_decimals_read_back(x: nat)
    requires
        x > 0,
    ensures
        x % pow10(1075) == 0 ==> decimal_text(x) == nat_text(x / pow10(1075)),
        x % pow10(1075) != 0 ==> exists|places: Seq<char>|
            {
                &&& decimal_text(x) == nat_text(x / pow10(1075)) + seq!['.'] + places
                &&& 0 < places.len() <= 1075
                &&& #[trigger] reading(places) * pow10((1075 - places.len()) as nat) == x % pow10(
                    1075,
                )
                &&& places.last() != '0'
            },
{
    let z = trailing_zeros(x);
    let y = lemma_trailing(x);
    let top = pow10(1075);
    lemma_pow10(1075);
    if z >= 1075 {
        let more = (z - 1075) as nat;
        lemma_pow10_adds(more, 1075);
        assert(x == (y * pow10(more)) * top) by (nonlinear_arith)
            requires
                x == y * (pow10(more) * top),
        ;
        lemma_fundamental_div_mod_converse(x as int, top as int, (y * pow10(more)) as int, 0);
        assert(nat_text(x / top) + Seq::<char>::empty() =~= nat_text(x / top));
    } else {
        let f = Seq::new(
            (1075 - z) as nat,
            |i: int| digit_char(x / pow10((1074 - i) as nat) % 10),
        );
        lemma_places(x, f, f.len());
        assert(f.take(f.len() as int) =~= f);
        lemma_kept_places(x, y, z);
        assert(decimal_text(x) =~= nat_text(x / top) + seq!['.'] + f);
        assert(f.last() == f[1074 - z]);
        assert((1074 - (1074 - z)) as nat == z);
        assert(reading(f) * pow10((1075 - f.len()) as nat) == x % top);
    }
}

/// What is left out at the end of a decimal are zeros, and the last place that
/// is kept is none.
proof fn lemma_kept_places(x: nat, y: nat, z: nat)
    requires
        x == y * pow10(z),
        y % 10 != 0,
        z < 1075,
    ensures
        ((x % pow10(1075)) / pow10(z)) * pow10(z) == x % pow10(1075),
        x / pow10(z) % 10 != 0,
        x % pow10(1075) != 0,
{
    let m = pow10(z) as int;
    let r = (1074 - z) as nat;
    let s = 10 * pow10(r) as int;
    let top = pow10(1075) as int;
    lemma_pow10(z);
    lemma_pow10(r);
    lemma_pow10_adds(z, r + 1);
    assert(top == m * s);
    lemma_fundamental_div_mod_converse(x as int, m, y as int, 0);
    lemma_fundamental_div_mod(y as int, s);
    let q = y as int / s;
    let t = y as int % s;
    assert(x == top * q + t * m && 0 <= t * m < top) by (nonlinear_arith)
        requires
            x == y * m,
            y == s * q + t,
            top == m * s,
            0 <= t < s,
            m > 0,
    ;
    assert(top * q == q * top) by (nonlinear_arith);
    lemma_fundamental_div_mod_converse(x as int, top, q, t * m);
    lemma_fundamental_div_mod_converse(t * m, m, t, 0);
    assert(t != 0) by {
        if t == 0 {
            let w = pow10(r) as int * q;
            assert(s * q == 10 * w) by (nonlinear_arith)
                requires
                    s == 10 * pow10(r),
                    w == pow10(r) as int * q,
            ;
        }
    }
    assert(t * m > 0) by (nonlinear_arith)
        requires
            t > 0,
            m > 0,
    ;
}

} // verus!
