//! The shortest decimal that reads back as a given binary64 number.
//!
//! Every finite binary64 number has at most 1074 decimal places. Decimals are
//! therefore measured here in units of the 1075th place, which makes the
//! numbers themselves, and the points halfway between two of them, integers.
use vstd::prelude::*;
use vstd::arithmetic::div_mod::{lemma_fundamental_div_mod, lemma_fundamental_div_mod_converse};
use vstd::arithmetic::power::{lemma_pow0, lemma_pow1, lemma_pow_adds, lemma_pow_positive, pow};
use vstd::arithmetic::power2::{pow2, lemma2_to64, lemma_pow2_pos, lemma_pow2_unfold};

use crate::decimal::{sign_text, special_text};
use crate::digits::{
    self,
    all_digits,
    digit_value,
    lemma_pow10,
    lemma_pow10_adds,
    lemma_pow10_order,
    lemma_value_bounds,
    lemma_value_split,
    pow10,
};
use crate::double::Double;
use crate::scale::{exponent, is_nearest, lemma_mag_next, mag, one, significand, INF, P52};
use crate::text::{digit_char, nat_text, push_digit};

verus! {

/// A decimal reads as the magnitude with index `k`: of all magnitudes, that is
/// the one it rounds to.
pub open spec fn reads_as(x: nat, k: nat) -> bool {
    is_nearest(x * one(), pow10(1075), k)
}

/// The number of zeros at the end of a decimal.
pub open spec fn trailing_zeros(x: nat) -> nat
    decreases x,
{
    if x == 0 || x % 10 != 0 {
        0
    } else {
        1 + trailing_zeros(x / 10)
    }
}

/// The number of digits that a decimal has without the zeros at its end.
pub open spec fn significant(x: nat) -> nat
    decreases x,
{
    if x == 0 {
        0
    } else if x % 10 == 0 {
        significant(x / 10)
    } else {
        nat_text(x).len()
    }
}

/// Five to the power of `n`.
pub open spec fn pow5(n: nat) -> nat {
    pow(5, n) as nat
}

/// The magnitude with index `k` as a decimal.
pub open spec fn exact(k: nat) -> nat {
    2 * mag(k) * pow5(1075)
}

/// How far a decimal is from the magnitude with index `k`.
pub open spec fn distance(x: nat, k: nat) -> nat {
    if x < exact(k) {
        (exact(k) - x) as nat
    } else {
        (x - exact(k)) as nat
    }
}

/// `x` has the fewest digits of all decimals that read as the magnitude with
/// index `k`, and of those with as few digits it is the nearest, or the larger
/// of two equally near ones.
pub open spec fn is_shortest(x: nat, k: nat) -> bool {
    &&& reads_as(x, k)
    &&& forall|y: nat| #[trigger] reads_as(y, k) ==> significant(x) <= significant(y)
    &&& forall|y: nat|
        #[trigger] reads_as(y, k) && significant(y) == significant(x) ==> distance(x, k)
            < distance(y, k) || (distance(x, k) == distance(y, k) && y <= x)
}

/// The shortest decimal that reads as the magnitude with index `k`.
pub open spec fn shortest(k: nat) -> nat {
    choose|x: nat| is_shortest(x, k)
}

/// A decimal, without zeros at the end of its places.
pub open spec fn decimal_text(x: nat) -> Seq<char> {
    nat_text(x / pow10(1075)) + if trailing_zeros(x) >= 1075 {
        seq![]
    } else {
        seq!['.'] + Seq::new(
            (1075 - trailing_zeros(x)) as nat,
            |i: int| digit_char(x / pow10((1074 - i) as nat) % 10),
        )
    }
}

/// A number as the shortest decimal that reads back as it.
pub open spec fn display_text(v: Double) -> Seq<char> {
    if !v.finite() {
        special_text(v)
    } else if v.index() == 0 {
        sign_text(v.is_neg()) + "0"@
    } else {
        sign_text(v.is_neg()) + decimal_text(shortest(v.index()))
    }
}

/// A decimal as a multiple of a power of ten.
proof fn lemma_significant_form(x: nat) -> (r: (nat, nat))
    requires
        x > 0,
    ensures
        x == r.0 * pow10(r.1),
        r.0 < pow10(significant(x)),
        significant(x) >= 1,
    decreases x,
{
    if x % 10 == 0 {
        let (d, j) = lemma_significant_form(x / 10);
        lemma_pow10(j);
        assert(10 * (d * pow10(j)) == d * (10 * pow10(j))) by (nonlinear_arith);
        (d, j + 1)
    } else {
        lemma_pow10(0);
        lemma_text_len(x);
        assert(x * 1 == x);
        (x, 0)
    }
}

/// The length of a number in decimal.
proof fn lemma_text_len(x: nat)
    ensures
        x < pow10(nat_text(x).len()),
        nat_text(x).len() >= 1,
        nat_text(x).len() > 1 ==> pow10((nat_text(x).len() - 1) as nat) <= x,
    decreases x,
{
    lemma_pow10(0);
    if x >= 10 {
        lemma_text_len(x / 10);
        let n = nat_text(x / 10).len();
        lemma_pow10(n);
        lemma_pow10((n - 1) as nat);
        assert(x / 10 < pow10(n));
    }
}

/// A multiple of a power of ten has no more digits than the factor.
proof fn lemma_significant_bound(d: nat, j: nat, n: nat)
    requires
        d > 0,
        n >= 1,
        d <= pow10(n),
    ensures
        significant(d * pow10(j)) <= n,
    decreases j, d,
{
    lemma_pow10(0);
    if j > 0 {
        lemma_pow10((j - 1) as nat);
        let y = d * pow10((j - 1) as nat);
        assert(d * (10 * pow10((j - 1) as nat)) == 10 * y) by (nonlinear_arith)
            requires
                y == d * pow10((j - 1) as nat),
        ;
        assert(y > 0) by (nonlinear_arith)
            requires
                y == d * pow10((j - 1) as nat),
                d > 0,
                pow10((j - 1) as nat) > 0,
        ;
        lemma_significant_bound(d, (j - 1) as nat, n);
    } else {
        assert(d * 1 == d);
        if d % 10 == 0 {
            lemma_pow10((n - 1) as nat);
            assert((d / 10) * 1 == d / 10);
            if n == 1 {
                assert(d == 10);
                assert(significant(1) == 1) by {
                    assert(nat_text(1).len() == 1);
                }
            } else {
                lemma_significant_bound(d / 10, 0, (n - 1) as nat);
            }
        } else {
            lemma_text_len(d);
            if nat_text(d).len() > n {
                lemma_pow10_order(n, (nat_text(d).len() - 1) as nat);
                assert(d == pow10(n));
                lemma_pow10((n - 1) as nat);
            }
        }
    }
}

/// The point halfway to the magnitude below, as a decimal.
spec fn low_edge(k: nat) -> nat {
    (mag((k - 1) as nat) + mag(k)) * pow5(1075)
}

/// The point halfway to the magnitude above, as a decimal.
spec fn high_edge(k: nat) -> nat {
    (mag(k) + mag(k + 1)) * pow5(1075)
}

/// What reads as a magnitude lies between the two halfway points.
proof fn lemma_reads_as(x: nat, k: nat)
    requires
        0 < k < INF,
    ensures
        reads_as(x, k) <==> {
            &&& low_edge(k) < x || (low_edge(k) == x && k % 2 == 0)
            &&& x < high_edge(k) || (high_edge(k) == x && k % 2 == 0)
        },
        0 < low_edge(k) < exact(k) < high_edge(k),
{
    let t = pow2(1075) as int;
    let f = pow5(1075) as int;
    let den = pow10(1075) as int;
    lemma_pow2_pos(1075);
    lemma_pow2_unfold(1075);
    lemma_pow_positive(5, 1075);
    assert(den == t * f) by {
        lemma_pow_positive(10, 1075);
        vstd::arithmetic::power::lemma_pow_distributes(2, 5, 1075);
        lemma_pow_positive(2, 1075);
        assert(2int * 5int == 10int);
        assert(pow(10, 1075) == pow(2, 1075) * pow(5, 1075));
    }
    let lo = (mag((k - 1) as nat) + mag(k)) as int;
    let hi = (mag(k) + mag(k + 1)) as int;
    lemma_mag_next((k - 1) as nat);
    lemma_mag_next(k);
    assert(2 * (x * one()) == x * t) by (nonlinear_arith)
        requires
            t == 2 * one(),
    ;
    assert(den * lo == (lo * f) * t) by (nonlinear_arith)
        requires
            den == t * f,
    ;
    assert(den * hi == (hi * f) * t) by (nonlinear_arith)
        requires
            den == t * f,
    ;
    let a = lo * f;
    let b = hi * f;
    let y = x as int;
    assert(a * t < y * t <==> a < y) by (nonlinear_arith)
        requires
            t > 0,
    ;
    assert(a * t == y * t <==> a == y) by (nonlinear_arith)
        requires
            t > 0,
    ;
    assert(y * t < b * t <==> y < b) by (nonlinear_arith)
        requires
            t > 0,
    ;
    assert(y * t == b * t <==> y == b) by (nonlinear_arith)
        requires
            t > 0,
    ;
    let c = 2 * mag(k) as int;
    assert(0 < lo * f < c * f && c * f < hi * f) by (nonlinear_arith)
        requires
            0 < lo < c,
            c < hi,
            f > 0,
    ;
}

/// A decimal between a magnitude and another decimal that reads as it does so
/// too.
proof fn lemma_reads_between(y: nat, z: nat, k: nat)
    requires
        0 < k < INF,
        reads_as(y, k),
        y <= z <= exact(k) || exact(k) <= z <= y,
    ensures
        reads_as(z, k),
{
    lemma_reads_as(y, k);
    lemma_reads_as(z, k);
}

/// The number with its last `p` places set to zero.
spec fn cut(v: nat, p: nat) -> nat {
    (v / pow10(p)) * pow10(p)
}

/// Cutting takes away less than a unit of the place.
proof fn lemma_cut(v: nat, p: nat)
    ensures
        cut(v, p) <= v < cut(v, p) + pow10(p),
{
    let w = pow10(p) as int;
    lemma_pow10(p);
    lemma_fundamental_div_mod(v as int, w);
    assert(w * (v as int / w) == (v as int / w) * w) by (nonlinear_arith);
}

/// Nothing with few digits lies strictly between a number cut to as many
/// digits and the next such number.
proof fn lemma_gap(y: nat, v: nat, top: nat, p: nat)
    requires
        y > 0,
        pow10(top) <= v,
        p <= top,
        significant(y) <= top - p + 1,
    ensures
        y <= cut(v, p) || y >= cut(v, p) + pow10(p),
        pow10(top) <= cut(v, p) <= v,
        v < cut(v, p) + pow10(p),
{
    let w = pow10(p) as int;
    let q = (v / pow10(p)) as int;
    let n = (top - p + 1) as nat;
    lemma_pow10(p);
    lemma_pow10(top);
    lemma_fundamental_div_mod(v as int, w);
    assert(w * q == q * w) by (nonlinear_arith);
    // The power of ten at the leading place is itself a multiple of the unit.
    let c = pow10((top - p) as nat) as int;
    assert(pow10(top) == c * w) by {
        lemma_pow10_adds((top - p) as nat, p);
        lemma_pow10((top - p) as nat);
    }
    assert(c <= q) by (nonlinear_arith)
        requires
            c * w <= v,
            v < q * w + w,
            w > 0,
    ;
    assert(c * w <= q * w) by (nonlinear_arith)
        requires
            c <= q,
            w > 0,
    ;
    if y >= pow10(top) {
        let (d, j) = lemma_significant_form(y);
        lemma_pow10(j);
        lemma_pow10_order(significant(y), n);
        assert(d < pow10(n));
        if j < p {
            // Then there would be too few digits to reach the leading place.
            lemma_pow10_adds(n, j);
            lemma_pow10(n);
            lemma_pow10(n + j);
            assert(d * pow10(j) < pow10(n) * pow10(j)) by (nonlinear_arith)
                requires
                    d < pow10(n),
                    pow10(j) > 0,
            ;
            lemma_pow10_order((n + j) as nat, top);
        }
        let g = pow10((j - p) as nat) as int;
        lemma_pow10_adds((j - p) as nat, p);
        lemma_pow10((j - p) as nat);
        assert(pow10(j) == g * w);
        let h = d * g;
        assert(y == h * w) by (nonlinear_arith)
            requires
                y == d * (g * w),
                h == d * g,
        ;
        if h <= q {
            assert(h * w <= q * w) by (nonlinear_arith)
                requires
                    h <= q,
                    w > 0,
            ;
        } else {
            assert(h * w >= q * w + w) by (nonlinear_arith)
                requires
                    h >= q + 1,
                    w > 0,
            ;
        }
    }
}

/// The candidates at place `p`.
spec fn found(v: nat, p: nat, k: nat) -> bool {
    reads_as(cut(v, p), k) || reads_as(cut(v, p) + pow10(p), k)
}

/// The nearer candidate at the first place where one is found is the shortest
/// decimal.
proof fn lemma_shortest(k: nat, top: nat, p: nat, up: bool)
    requires
        0 < k < INF,
        p <= top,
        pow10(top) <= exact(k) < pow10(top + 1),
        forall|r: nat| p < r <= top ==> !#[trigger] found(exact(k), r, k),
        ({
            let lo = cut(exact(k), p);
            let hi = lo + pow10(p);
            &&& up ==> reads_as(hi, k)
            &&& !up ==> reads_as(lo, k)
            &&& up && reads_as(lo, k) ==> hi - exact(k) <= exact(k) - lo
            &&& !up && reads_as(hi, k) ==> exact(k) - lo < hi - exact(k)
        }),
    ensures
        is_shortest(
            if up {
                cut(exact(k), p) + pow10(p)
            } else {
                cut(exact(k), p)
            },
            k,
        ),
{
    let v = exact(k);
    let lo = cut(v, p);
    let hi = lo + pow10(p);
    let x = if up { hi } else { lo };
    let n = (top - p + 1) as nat;
    lemma_pow10(p);
    lemma_reads_as(0, k);
    // Neither candidate has more than `n` digits.
    assert(significant(x) <= n) by {
        let w = pow10(p) as int;
        let q = v / pow10(p);
        lemma_pow10(n);
        lemma_pow10_adds(n, p);
        assert(pow10(top + 1) == pow10(n) * pow10(p));
        lemma_fundamental_div_mod(v as int, w);
        assert(q < pow10(n)) by (nonlinear_arith)
            requires
                v >= w * q,
                v < pow10(n) * w,
                w > 0,
        ;
        assert((q + 1) * pow10(p) == q * pow10(p) + pow10(p)) by (nonlinear_arith);
        if up {
            lemma_significant_bound(q + 1, p, n);
        } else {
            if q == 0 {
                assert(0 * pow10(p) == 0);
            }
            lemma_reads_as(lo, k);
            lemma_significant_bound(q, p, n);
        }
    }
    assert forall|y: nat| #[trigger] reads_as(y, k) implies significant(y) >= n by {
        lemma_reads_as(y, k);
        let (d, j) = lemma_significant_form(y);
        let s = significant(y);
        if s < n {
            let r = (top - s + 1) as nat;
            lemma_gap(y, v, top, r);
            if y <= cut(v, r) {
                lemma_reads_between(y, cut(v, r), k);
            } else {
                lemma_reads_between(y, cut(v, r) + pow10(r), k);
            }
            assert(found(v, r, k));
        }
    }
    assert forall|y: nat| #[trigger] reads_as(y, k) && significant(y) == significant(x) implies
        distance(x, k) < distance(y, k) || (distance(x, k) == distance(y, k) && y <= x) by {
        lemma_reads_as(y, k);
        lemma_gap(y, v, top, p);
        if y <= lo {
            lemma_reads_between(y, lo, k);
        } else {
            lemma_reads_between(y, hi, k);
        }
    }
}

/// No two decimals are both the shortest.
pub proof fn lemma_shortest_unique(x: nat, k: nat)
    requires
        is_shortest(x, k),
    ensures
        shortest(k) == x,
{
    let y = shortest(k);
    assert(is_shortest(y, k));
    assert(reads_as(x, k));
    assert(reads_as(y, k));
}

/// The first place, from `p` down, at which a candidate is found.
proof fn lemma_find(k: nat, top: nat, p: nat) -> (r: nat)
    requires
        0 < k < INF,
        p <= top,
        forall|q: nat| p < q <= top ==> !#[trigger] found(exact(k), q, k),
    ensures
        r <= p,
        found(exact(k), r, k),
        forall|q: nat| r < q <= top ==> !#[trigger] found(exact(k), q, k),
    decreases p,
{
    if found(exact(k), p, k) {
        p
    } else if p == 0 {
        lemma_pow10(0);
        lemma_reads_as(exact(k), k);
        lemma_cut(exact(k), 0);
        assert(cut(exact(k), 0) == exact(k));
        0
    } else {
        lemma_find(k, top, (p - 1) as nat)
    }
}

/// The leading place of a number.
proof fn lemma_leading_place(v: nat) -> (top: nat)
    requires
        v > 0,
    ensures
        pow10(top) <= v < pow10(top + 1),
    decreases v,
{
    lemma_pow10(0);
    if v < 10 {
        0
    } else {
        let t = lemma_leading_place(v / 10);
        lemma_pow10(t);
        lemma_pow10(t + 1);
        t + 1
    }
}

/// Every finite number that is not zero has a shortest decimal, and that reads
/// back as the number it shows.
pub proof fn law_shortest_reads_back(k: nat)
    requires
        0 < k < INF,
    ensures
        is_shortest(shortest(k), k),
        reads_as(shortest(k), k),
{
    let v = exact(k);
    lemma_reads_as(v, k);
    let top = lemma_leading_place(v);
    let p = lemma_find(k, top, top);
    let lo = cut(v, p);
    let hi = lo + pow10(p);
    lemma_cut(v, p);
    let up = reads_as(hi, k) && (!reads_as(lo, k) || hi - v <= v - lo);
    lemma_shortest(k, top, p, up);
}

/// The digits of `c * 2^j * 5^1075`.
fn edge(c: u64, j: u32) -> (ds: Vec<u8>)
    requires
        c > 0,
    ensures
        all_digits(ds@),
        ds@.len() > 0,
        ds@.last() > 0,
        digit_value(ds@) == (c * pow2(j as nat)) * pow5(1075),
{
    let mut ds: Vec<u8> = digits::from_u64(c);
    let mut i: u32 = 0;
    proof {
        lemma2_to64();
        lemma_pow0(5);
        assert(c * 1 == c);
    }
    while i < j
        invariant
            i <= j,
            c > 0,
            all_digits(ds@),
            ds@.len() > 0 ==> ds@.last() > 0,
            digit_value(ds@) == c * pow2(i as nat),
        decreases j - i,
    {
        digits::scale(&mut ds, 2);
        proof {
            lemma_pow2_unfold((i + 1) as nat);
            assert(2 * (c * pow2(i as nat)) == c * (2 * pow2(i as nat))) by (nonlinear_arith);
        }
        i = i + 1;
    }
    let ghost b = c * pow2(j as nat);
    let mut i: u32 = 0;
    proof {
        lemma_pow2_pos(j as nat);
        assert(b > 0) by (nonlinear_arith)
            requires
                b == c * pow2(j as nat),
                c > 0,
                pow2(j as nat) > 0,
        ;
        assert(b * 1 == b);
        assert(ds@.len() > 0);
    }
    while i < 1075
        invariant
            i <= 1075,
            b > 0,
            all_digits(ds@),
            ds@.len() > 0,
            ds@.last() > 0,
            digit_value(ds@) == b * pow5(i as nat),
        decreases 1075 - i,
    {
        digits::scale(&mut ds, 5);
        proof {
            lemma_pow_positive(5, i as nat);
            lemma_pow_positive(5, (i + 1) as nat);
            lemma_pow_adds(5, 1, i as nat);
            lemma_pow1(5);
            assert(pow5((i + 1) as nat) == 5 * pow5(i as nat));
            assert(5 * (b * pow5(i as nat)) == b * (5 * pow5(i as nat))) by (nonlinear_arith);
        }
        i = i + 1;
    }
    ds
}

/// The edges of what reads as `m * 2^e` units.
proof fn lemma_edges(k: nat)
    requires
        0 < k < INF,
    ensures
        ({
            let m = significand(k);
            let e = exponent(k);
            &&& m > 0
            &&& exact(k) == (2 * m * pow2(e)) * pow5(1075)
            &&& high_edge(k) == ((2 * m + 1) * pow2(e)) * pow5(1075)
            &&& m == P52 && e > 0 ==> low_edge(k) == ((4 * P52 - 1) * pow2((e - 1) as nat))
                * pow5(1075)
            &&& !(m == P52 && e > 0) ==> low_edge(k) == ((2 * m - 1) * pow2(e)) * pow5(1075)
        }),
{
    let m = significand(k) as int;
    let e = exponent(k);
    let p = pow2(e) as int;
    lemma_mag_next(k);
    lemma_mag_next((k - 1) as nat);
    assert(2 * (m * p) == (2 * m) * p) by (nonlinear_arith);
    assert((2 * m + 1) * p == 2 * (m * p) + p) by (nonlinear_arith);
    assert((2 * m - 1) * p == 2 * (m * p) - p) by (nonlinear_arith);
    if m == P52 && e > 0 {
        lemma_pow2_unfold(e);
        let h = pow2((e - 1) as nat) as int;
        assert(exponent((k - 1) as nat) == e - 1);
        assert((4 * P52 - 1) * h == 2 * (P52 * (2 * h)) - h) by (nonlinear_arith);
    } else {
        assert(exponent((k - 1) as nat) == e);
    }
}

/// The digits of the shortest decimal that reads as a finite number.
fn shortest_digits(v: Double) -> (x: Vec<u8>)
    requires
        v.finite(),
        v.index() > 0,
    ensures
        all_digits(x@),
        x@.len() > 0,
        x@.last() > 0,
        digit_value(x@) == shortest(v.index()),
        reads_as(shortest(v.index()), v.index()),
{
    let ghost k = v.index();
    let (m, e): (u64, u32) = v.parts();
    proof {
        lemma_edges(k);
    }
    let even: bool = v.bits % 2 == 0;
    let whole: Vec<u8> = edge(2 * m, e);
    let high: Vec<u8> = edge(2 * m + 1, e);
    let low: Vec<u8> = if m == P52 && e > 0 {
        edge(4 * P52 - 1, e - 1)
    } else {
        edge(2 * m - 1, e)
    };
    assert(even == (k % 2 == 0));
    let top: usize = whole.len() - 1;
    let mut p: usize = top;
    proof {
        lemma_value_bounds(whole@);
    }
    loop
        invariant
            0 < k < INF,
            p <= top,
            top == whole@.len() - 1,
            even == (k % 2 == 0),
            all_digits(whole@),
            all_digits(high@),
            all_digits(low@),
            whole@.last() > 0,
            high@.len() > 0 && high@.last() > 0,
            low@.len() > 0 && low@.last() > 0,
            digit_value(whole@) == exact(k),
            digit_value(high@) == high_edge(k),
            digit_value(low@) == low_edge(k),
            pow10(top as nat) <= exact(k) < pow10((top + 1) as nat),
            k == v.index(),
            forall|r: nat| p < r <= top ==> !#[trigger] found(exact(k), r, k),
        decreases p,
    {
        let below: Vec<u8> = digits::truncated(&whole, p);
        let mut above: Vec<u8> = digits::truncated(&whole, p);
        digits::bump(&mut above, p);
        let a: i8 = digits::order(&low, &below);
        let b: i8 = digits::order(&above, &high);
        let fits_below: bool = a < 0 || (a == 0 && even);
        let fits_above: bool = b < 0 || (b == 0 && even);
        let ghost lo = cut(exact(k), p as nat);
        let ghost hi = lo + pow10(p as nat);
        proof {
            lemma_reads_as(lo, k);
            lemma_reads_as(hi, k);
            lemma_value_split(whole@, p as int);
            assert(exact(k) == lo + digit_value(whole@.take(p as int)));
        }
        assert(fits_below == reads_as(lo, k));
        assert(fits_above == reads_as(hi, k));
        if fits_below || fits_above {
            let past_half: bool = p > 0 && whole[p - 1] >= 5;
            proof {
                lemma_half(whole@, p as int);
                lemma_pow10(p as nat);
            }
            let up: bool = fits_above && (!fits_below || past_half);
            proof {
                lemma_shortest(k, top as nat, p as nat, up);
                lemma_shortest_unique(
                    if up {
                        hi
                    } else {
                        lo
                    },
                    k,
                );
            }
            return if up {
                above
            } else {
                below
            };
        }
        proof {
            if p == 0 {
                lemma_pow10(0);
                assert(whole@.take(0) =~= seq![]);
            }
            assert(!found(exact(k), p as nat, k));
        }
        p = p - 1;
    }
}

/// The digit at a place tells whether what follows is at least a half.
proof fn lemma_half(ds: Seq<u8>, p: int)
    requires
        all_digits(ds),
        0 <= p < ds.len(),
    ensures
        (p > 0 && ds[p - 1] >= 5) == (2 * digit_value(ds.take(p)) >= pow10(p as nat)),
{
    lemma_pow10(0);
    if p == 0 {
        assert(ds.take(0) =~= seq![]);
    } else {
        let t = ds.take(p);
        let w = pow10((p - 1) as nat) as int;
        lemma_value_split(t, p - 1);
        lemma_pow10((p - 1) as nat);
        assert(t.skip(p - 1) =~= seq![ds[p - 1]]);
        reveal_with_fuel(digit_value, 2);
        assert(seq![ds[p - 1]].drop_first() =~= seq![]);
        let d = ds[p - 1] as int;
        if d >= 5 {
            assert(2 * (d * w) >= 10 * w) by (nonlinear_arith)
                requires
                    d >= 5,
                    w > 0,
            ;
        } else {
            assert(d * w + w <= 5 * w) by (nonlinear_arith)
                requires
                    d <= 4,
                    w > 0,
            ;
        }
    }
}

/// Zeros at the end of the digits are the zeros at the end of the number.
proof fn lemma_trailing_zeros(ds: Seq<u8>, t: int)
    requires
        all_digits(ds),
        0 <= t < ds.len(),
        ds.last() > 0,
        forall|i: int| 0 <= i < t ==> #[trigger] ds[i] == 0,
        ds[t] != 0,
    ensures
        trailing_zeros(digit_value(ds)) == t,
    decreases t,
{
    if t > 0 {
        let rest = ds.drop_first();
        assert(rest.last() == ds.last());
        digits::lemma_value_positive(rest);
        lemma_trailing_zeros(rest, t - 1);
        assert(ds[0] == 0);
    }
}

/// The digit at a place of a number.
proof fn lemma_digit_at(ds: Seq<u8>, i: int)
    requires
        all_digits(ds),
        ds.len() > 0,
        ds.last() > 0,
        0 <= i,
    ensures
        digit_value(ds) / pow10(i as nat) % 10 == if i < ds.len() {
            ds[i] as nat
        } else {
            0
        },
{
    if i < ds.len() {
        lemma_value_split(ds, i);
    } else {
        lemma_value_bounds(ds);
        lemma_pow10_order(ds.len(), i as nat);
        lemma_fundamental_div_mod_converse(
            digit_value(ds) as int,
            pow10(i as nat) as int,
            0,
            digit_value(ds) as int,
        );
    }
}

/// Appends a decimal.
fn push_decimal(out: &mut String, ds: &Vec<u8>)
    requires
        all_digits(ds@),
        ds@.len() > 0,
        ds@.last() > 0,
    ensures
        final(out)@ == old(out)@ + decimal_text(digit_value(ds@)),
{
    let ghost x = digit_value(ds@);
    if ds.len() > 1075 {
        digits::push_digits(out, ds, 1075);
        proof {
            lemma_value_split(ds@, 1075);
        }
    } else {
        push_digit(out, 0);
        proof {
            lemma_value_bounds(ds@);
            lemma_pow10_order(ds@.len(), 1075);
            lemma_fundamental_div_mod_converse(x as int, pow10(1075) as int, 0, x as int);
        }
    }
    assert(out@ =~= old(out)@ + nat_text(x / pow10(1075)));
    let n: usize = ds.len();
    let mut t: usize = 0;
    while ds[t] == 0
        invariant
            t < n,
            n == ds@.len(),
            ds@.last() > 0,
            forall|i: int| 0 <= i < t ==> #[trigger] ds@[i] == 0,
        decreases n - t,
    {
        assert(ds@[n - 1] > 0);
        t = t + 1;
    }
    proof {
        lemma_trailing_zeros(ds@, t as int);
    }
    if t < 1075 {
        proof {
            reveal_strlit(".");
        }
        out.append(".");
        let ghost base = out@;
        let mut i: usize = 1075;
        let ghost place = |j: int| digit_char(x / pow10((1074 - j) as nat) % 10);
        assert(out@ =~= base + Seq::new(0, place));
        while i > t
            invariant
                t <= i <= 1075,
                all_digits(ds@),
                ds@.len() > 0,
                ds@.last() > 0,
                x == digit_value(ds@),
                place == (|j: int| digit_char(x / pow10((1074 - j) as nat) % 10)),
                out@ == base + Seq::new((1075 - i) as nat, place),
            decreases i,
        {
            i = i - 1;
            proof {
                lemma_digit_at(ds@, i as int);
            }
            push_digit(
                out,
                if i < ds.len() {
                    ds[i]
                } else {
                    0
                },
            );
            assert(out@ =~= base + Seq::new((1075 - i) as nat, place));
        }
        assert("."@ =~= seq!['.']);
    }
    assert(out@ =~= old(out)@ + decimal_text(x));
}

/// Appends a number as the shortest decimal that reads back as it.
pub fn push_display(out: &mut String, v: Double)
    ensures
        final(out)@ == old(out)@ + display_text(v),
{
    if !v.is_finite() {
        crate::decimal::push_special(out, v);
        return;
    }
    crate::decimal::push_sign(out, v);
    if v.place() == 0 {
        out.append("0");
    } else {
        let x: Vec<u8> = shortest_digits(v);
        push_decimal(out, &x);
    }
    assert(out@ =~= old(out)@ + display_text(v));
}

} // verus!
