//! Numbers and strengths as a tableau shows them.
use vstd::prelude::*;
use vstd::arithmetic::power2::lemma_pow2_pos;

use crate::decimal::{fixed_text, push_fixed, push_special, push_whole, special_text};
use crate::double::{absolute, difference, less, product, quotient, whole, Double};
use crate::exact::{
    law_every_quotient_rounds, law_integers_are_exact, lemma_integers_round_to_integers,
};
use crate::integral::{as_integer, floored, rounded_off};
use crate::options::RenderOpts;
use crate::scale::{lemma_mag_order, mag, one, INF};
use crate::text::{int_text, joined, nat_text, push_int, push_joined, push_nat, texts};

verus! {

/// The bit pattern of the number nearest to `1e-8`.
pub const EPSILON: u64 = 0x3e45_798e_e230_8c3a;

/// The bit pattern of the number nearest to `1e-9`.
pub const TOLERANCE: u64 = 0x3e11_2e0b_e826_d695;

/// The strength of a constraint that must hold.
pub const REQUIRED: u64 = 1_001_001_000;

/// The strength of one STRONG band.
pub const STRONG: u64 = 1_000_000;

/// The strength of one MEDIUM band.
pub const MEDIUM: u64 = 1_000;

/// The magnitude from which integers are no longer shown as such.
pub const LARGE: u64 = 1_000_000_000_000_000;

/// `v` is within `EPSILON` of zero.
pub open spec fn is_near_zero(v: Double) -> bool {
    less(absolute(v), Double { bits: EPSILON })
}

/// `a` and `b` differ by less than `TOLERANCE`.
pub open spec fn is_close(a: Double, b: Double) -> bool {
    less(absolute(difference(a, b)), Double { bits: TOLERANCE })
}

/// The numerator that goes best with the denominator `q`.
pub open spec fn numerator(v: Double, q: int) -> Double {
    rounded_off(product(v, whole(q)))
}

/// `v` is within `TOLERANCE` of a fraction with the denominator `q`.
pub open spec fn is_fraction(v: Double, q: int) -> bool {
    is_close(v, quotient(numerator(v, q), whole(q)))
}

/// `q` is the least denominator, up to 64, that `v` has a fraction with.
pub open spec fn is_denominator(v: Double, q: int) -> bool {
    &&& 1 <= q <= 64
    &&& is_fraction(v, q)
    &&& forall|r: int| 1 <= r < q ==> !is_fraction(v, r)
}

/// The numerator that goes best with the denominator `q`, as an integer.
pub open spec fn integer_numerator(v: Double, q: int) -> int {
    numerator(v, q).value() / (one() as int)
}

/// `v` as a fraction with the denominator `q`.
pub open spec fn fraction_text(v: Double, q: int) -> Seq<char> {
    let p = int_text(integer_numerator(v, q));
    if q == 1 {
        p
    } else {
        p + "/"@ + nat_text(q as nat)
    }
}

/// `v` as the fraction with the least denominator up to 64, where it is
/// within `TOLERANCE` of one.
pub open spec fn fraction(v: Double) -> Option<Seq<char>> {
    if v.finite() && exists|q: int| is_denominator(v, q) {
        Some(fraction_text(v, choose|q: int| is_denominator(v, q)))
    } else {
        None
    }
}

/// A number as a tableau shows it.
pub open spec fn num_text(v: Double, opts: RenderOpts) -> Seq<char> {
    if is_near_zero(v) {
        "0"@
    } else if opts.fractions && fraction(v) is Some {
        fraction(v)->0
    } else if !v.finite() {
        special_text(v)
    } else if is_close(v, rounded_off(v)) && less(absolute(v), whole(LARGE as int)) {
        int_text(as_integer(rounded_off(v)))
    } else {
        fixed_text(v)
    }
}

/// How many whole STRONG bands a strength holds.
pub open spec fn strong_band(s: Double) -> Double {
    floored(quotient(s, whole(STRONG as int)))
}

/// What a strength holds below its STRONG bands.
pub open spec fn below_strong(s: Double) -> Double {
    difference(s, product(strong_band(s), whole(STRONG as int)))
}

/// How many whole MEDIUM bands a strength holds below its STRONG bands.
pub open spec fn medium_band(s: Double) -> Double {
    floored(quotient(below_strong(s), whole(MEDIUM as int)))
}

/// What a strength holds below its MEDIUM bands.
pub open spec fn weak_band(s: Double) -> Double {
    difference(below_strong(s), product(medium_band(s), whole(MEDIUM as int)))
}

/// A band: its letter, after its size unless that is one. An empty band is
/// not shown.
pub open spec fn band_text(v: Double, letter: Seq<char>, opts: RenderOpts) -> Seq<Seq<char>> {
    if !less(whole(0), v) {
        seq![]
    } else if is_close(v, whole(1)) {
        seq![letter]
    } else {
        seq![num_text(v, opts) + letter]
    }
}

/// The bands of a strength, the strongest first.
pub open spec fn band_texts(s: Double, opts: RenderOpts) -> Seq<Seq<char>> {
    band_text(strong_band(s), "S"@, opts) + band_text(medium_band(s), "M"@, opts) + band_text(
        weak_band(s),
        "W"@,
        opts,
    )
}

/// A strength as a tableau shows it.
pub open spec fn strength_text(s: Double, opts: RenderOpts) -> Seq<char> {
    if is_near_zero(s) {
        "0"@
    } else if opts.show_raw_strengths {
        num_text(s, opts)
    } else if !s.is_nan() && !less(s, whole(REQUIRED as int)) {
        "REQ"@
    } else if band_texts(s, opts).len() == 0 {
        "0"@
    } else {
        joined(band_texts(s, opts), "+"@)
    }
}

/// Whether a number is within `EPSILON` of zero.
pub fn near_zero(v: Double) -> (r: bool)
    ensures
        r == is_near_zero(v),
{
    v.abs().less_than(Double { bits: EPSILON })
}

/// Whether two numbers differ by less than `TOLERANCE`.
fn close(a: Double, b: Double) -> (r: bool)
    ensures
        r == is_close(a, b),
{
    a.minus(b).abs().less_than(Double { bits: TOLERANCE })
}

/// No number is close to an infinity.
proof fn lemma_infinities_are_far(v: Double, far: Double)
    requires
        v.finite(),
        far.is_infinite(),
    ensures
        !is_close(v, far),
{
    assert(difference(v, far).is_infinite());
    assert(absolute(difference(v, far)).index() == INF);
    lemma_mag_order(INF as nat, TOLERANCE as nat);
}

/// The product of a number and a positive integer has the sign of the number.
proof fn lemma_scaled_sign(v: Double, q: int)
    requires
        v.finite(),
        1 <= q <= 64,
    ensures
        !product(v, whole(q)).is_nan(),
        product(v, whole(q)).is_neg() == v.is_neg(),
        whole(q).finite(),
{
    law_integers_are_exact(q);
    lemma_pow2_pos(1074);
    law_every_quotient_rounds(mag(v.index()) * mag(whole(q).index()), one());
}

/// What is rounded off is an integer of the same sign, or an infinity.
proof fn lemma_rounded_off(x: Double)
    requires
        !x.is_nan(),
    ensures
        rounded_off(x).is_neg() == x.is_neg(),
        !rounded_off(x).is_nan(),
        rounded_off(x).finite() ==> mag(rounded_off(x).index()) % one() == 0,
{
    if x.finite() {
        let n = (2 * mag(x.index()) + one()) as nat / (2 * one());
        law_every_quotient_rounds(n * one(), 1);
        lemma_integers_round_to_integers(n);
    }
}

/// The numerator of a fraction is an integer with the sign of the number.
pub(crate) proof fn lemma_numerator_is_integral(v: Double, q: int)
    requires
        v.finite(),
        1 <= q <= 64,
        is_fraction(v, q),
    ensures
        numerator(v, q).finite(),
        numerator(v, q).is_neg() == v.is_neg(),
        mag(numerator(v, q).index()) % one() == 0,
{
    lemma_scaled_sign(v, q);
    lemma_rounded_off(product(v, whole(q)));
    let p = numerator(v, q);
    if p.is_infinite() {
        lemma_infinities_are_far(v, quotient(p, whole(q)));
    }
}

/// Approximates `v` as `p/q` with `q <= 64`, or gives `None` if no such
/// rational is within `TOLERANCE`.
pub fn as_fraction(v: Double) -> (r: Option<String>)
    ensures
        match r {
            Some(t) => fraction(v) == Some(t@),
            None => fraction(v) is None,
        },
{
    if !v.is_finite() {
        return None;
    }
    let mut q: u64 = 1;
    while q < 65
        invariant
            1 <= q <= 65,
            v.finite(),
            forall|r: int| 1 <= r < q ==> !is_fraction(v, r),
        decreases 65 - q,
    {
        let d: Double = Double::from_u64(q);
        let p: Double = v.times(d).round();
        if close(v, p.over(d)) {
            assert(is_denominator(v, q as int));
            let mut out: String = String::new();
            proof {
                lemma_numerator_is_integral(v, q as int);
            }
            push_whole(&mut out, p);
            if q != 1 {
                out.append("/");
                push_nat(&mut out, q);
            }
            return Some(out);
        }
        q = q + 1;
    }
    None
}

/// A number as a tableau shows it.
pub fn fmt_num(v: Double, opts: &RenderOpts) -> (r: String)
    ensures
        r@ == num_text(v, *opts),
{
    if near_zero(v) {
        return String::from_str("0");
    }
    if opts.fractions {
        if let Some(f) = as_fraction(v) {
            return f;
        }
    }
    let mut out: String = String::new();
    if !v.is_finite() {
        push_special(&mut out, v);
        return out;
    }
    if close(v, v.round()) && v.abs().less_than(Double::from_u64(LARGE)) {
        push_int(&mut out, v.round().to_i64());
        return out;
    }
    push_fixed(&mut out, v);
    out
}

/// Adds a band to those of a strength.
fn push_band(parts: &mut Vec<String>, v: Double, letter: &str, opts: &RenderOpts)
    ensures
        texts(final(parts)@) == texts(old(parts)@) + band_text(v, letter@, *opts),
{
    if Double::from_u64(0).less_than(v) {
        let mut part: String = String::new();
        if !close(v, Double::from_u64(1)) {
            part = fmt_num(v, opts);
        }
        part.append(letter);
        parts.push(part);
    }
}

/// Decomposes a strength into its STRONG/MEDIUM/WEAK bands.
pub fn fmt_strength(s: Double, opts: &RenderOpts) -> (r: String)
    ensures
        r@ == strength_text(s, *opts),
{
    if near_zero(s) {
        return String::from_str("0");
    }
    if opts.show_raw_strengths {
        return fmt_num(s, opts);
    }
    let required: Double = Double::from_u64(REQUIRED);
    if s.place() <= INF && !s.less_than(required) {
        return String::from_str("REQ");
    }
    let strong: Double = Double::from_u64(STRONG);
    let medium: Double = Double::from_u64(MEDIUM);
    let a: Double = s.over(strong).floor();
    let rest: Double = s.minus(a.times(strong));
    let b: Double = rest.over(medium).floor();
    let c: Double = rest.minus(b.times(medium));
    let mut parts: Vec<String> = Vec::new();
    push_band(&mut parts, a, "S", opts);
    push_band(&mut parts, b, "M", opts);
    push_band(&mut parts, c, "W", opts);
    if parts.len() == 0 {
        String::from_str("0")
    } else {
        let mut out: String = String::new();
        push_joined(&mut out, &parts, "+");
        out
    }
}

} // verus!
