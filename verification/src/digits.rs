//! Natural numbers of any size, held as their decimal digits.
use vstd::prelude::*;
use vstd::arithmetic::power::{lemma_pow0, lemma_pow1, lemma_pow_adds, lemma_pow_positive, pow};

use crate::text::{nat_text, push_digit};

verus! {

/// The number with the given decimal digits, the last digit first.
pub open spec fn digit_value(ds: Seq<u8>) -> nat
    decreases ds.len(),
{
    if ds.len() == 0 {
        0
    } else {
        ds[0] as nat + 10 * digit_value(ds.drop_first())
    }
}

/// All entries are decimal digits.
pub open spec fn all_digits(ds: Seq<u8>) -> bool {
    forall|i: int| 0 <= i < ds.len() ==> #[trigger] ds[i] < 10
}

/// Ten to the power of `n`.
pub open spec fn pow10(n: nat) -> nat {
    pow(10, n) as nat
}

pub proof fn lemma_pow10(n: nat)
    ensures
        pow10(n) > 0,
        pow10(n + 1) == 10 * pow10(n),
        pow10(0) == 1,
{
    lemma_pow_positive(10, n + 1);
    lemma_pow_adds(10, 1, n);
    lemma_pow1(10);
    lemma_pow0(10);
}

/// Powers of ten multiply by adding their exponents.
pub proof fn lemma_pow10_adds(a: nat, b: nat)
    ensures
        pow10(a + b) == pow10(a) * pow10(b),
{
    lemma_pow_positive(10, a);
    lemma_pow_positive(10, b);
    lemma_pow_adds(10, a, b);
}

/// A further digit in front counts for its place.
pub proof fn lemma_value_push(ds: Seq<u8>, d: u8)
    ensures
        digit_value(ds.push(d)) == digit_value(ds) + d * pow10(ds.len()),
    decreases ds.len(),
{
    reveal_with_fuel(digit_value, 2);
    let s = ds.push(d);
    if ds.len() == 0 {
        lemma_pow10(0);
        assert(d * 1 == d);
    } else {
        let rest = ds.drop_first();
        lemma_value_push(rest, d);
        lemma_pow10(rest.len());
        assert(s.drop_first() =~= rest.push(d));
        assert(10 * (d * pow10(rest.len())) == d * (10 * pow10(rest.len()))) by (nonlinear_arith);
    }
}

/// The digits of a number that fits in a machine word, without leading zeros.
pub fn from_u64(n: u64) -> (ds: Vec<u8>)
    ensures
        all_digits(ds@),
        digit_value(ds@) == n,
        ds@.len() > 0 ==> ds@.last() > 0,
{
    let mut ds: Vec<u8> = Vec::new();
    let mut rest: u64 = n;
    proof {
        lemma_pow10(0);
    }
    while rest > 0
        invariant
            all_digits(ds@),
            digit_value(ds@) + rest * pow10(ds@.len()) == n,
            rest == 0 && ds@.len() > 0 ==> ds@.last() > 0,
        decreases rest,
    {
        let d: u8 = (rest % 10) as u8;
        proof {
            let w = pow10(ds@.len());
            let r = rest as int;
            lemma_value_push(ds@, d);
            lemma_pow10(ds@.len());
            assert(r * w == (r % 10) * w + (r / 10) * (10 * w)) by (nonlinear_arith)
                requires
                    r == 10 * (r / 10) + r % 10,
            ;
        }
        ds.push(d);
        rest = rest / 10;
    }
    ds
}

/// Multiplies by a small factor.
pub fn scale(ds: &mut Vec<u8>, factor: u8)
    requires
        all_digits(old(ds)@),
        0 < factor <= 10,
    ensures
        all_digits(final(ds)@),
        digit_value(final(ds)@) == factor * digit_value(old(ds)@),
        old(ds)@.len() > 0 && old(ds)@.last() > 0 ==> final(ds)@.len() > 0 && final(ds)@.last() > 0,
        old(ds)@.len() == 0 ==> final(ds)@.len() == 0,
{
    let ghost before = ds@;
    let n: usize = ds.len();
    let mut carry: u8 = 0;
    let mut i: usize = 0;
    proof {
        assert(factor * 0 == 0);
    }
    while i < n
        invariant
            i <= n,
            n == before.len(),
            ds@.len() == n,
            all_digits(before),
            all_digits(ds@),
            0 < factor <= 10,
            carry < 10,
            forall|j: int| i <= j < n ==> ds@[j] == before[j],
            digit_value(ds@.take(i as int)) + carry * pow10(i as nat) == factor * digit_value(
                before.take(i as int),
            ),
            i > 0 && before[i - 1] > 0 ==> carry > 0 || ds@[i - 1] > 0,
        decreases n - i,
    {
        let x: u8 = ds[i];
        proof {
            assert(x * factor <= 90) by (nonlinear_arith)
                requires
                    x < 10,
                    0 < factor <= 10,
            ;
            assert(x > 0 ==> x * factor > 0) by (nonlinear_arith)
                requires
                    factor > 0,
            ;
        }
        let y: u8 = x * factor + carry;
        let ghost prev = ds@;
        let ghost c0 = carry;
        let d: u8 = y % 10;
        ds.set(i, d);
        carry = y / 10;
        proof {
            let w = pow10(i as nat);
            lemma_pow10(i as nat);
            assert(ds@.take(i + 1) =~= prev.take(i as int).push(d));
            assert(before.take(i + 1) =~= before.take(i as int).push(x));
            lemma_value_push(prev.take(i as int), d);
            lemma_value_push(before.take(i as int), x);
            let a = digit_value(prev.take(i as int)) as int;
            let b = digit_value(before.take(i as int)) as int;
            assert(a + d * w + carry * (10 * w) == factor * (b + x * w)) by (nonlinear_arith)
                requires
                    a + c0 * w == factor * b,
                    d + 10 * carry == x * factor + c0,
            ;
        }
        i = i + 1;
    }
    assert(ds@.take(n as int) =~= ds@);
    assert(before.take(n as int) =~= before);
    if carry > 0 {
        proof {
            lemma_value_push(ds@, carry);
        }
        ds.push(carry);
    }
}

/// A number with a leading digit that is not zero is not zero.
pub proof fn lemma_value_positive(ds: Seq<u8>)
    requires
        ds.len() > 0,
        ds.last() > 0,
    ensures
        digit_value(ds) > 0,
    decreases ds.len(),
{
    if ds.len() > 1 {
        lemma_value_positive(ds.drop_first());
    }
}

/// Appends a number without leading zeros and without its last `from` places.
pub fn push_digits(out: &mut String, ds: &Vec<u8>, from: usize)
    requires
        all_digits(ds@),
        from < ds@.len(),
        ds@.last() > 0,
    ensures
        final(out)@ == old(out)@ + nat_text(digit_value(ds@.skip(from as int))),
{
    let mut i: usize = ds.len() - 1;
    push_digit(out, ds[i]);
    proof {
        reveal_with_fuel(digit_value, 2);
        let tail = ds@.skip(i as int);
    }
    while i > from
        invariant
            from <= i < ds@.len(),
            all_digits(ds@),
            ds@.last() > 0,
            out@ == old(out)@ + nat_text(digit_value(ds@.skip(i as int))),
        decreases i,
    {
        proof {
            let tail = ds@.skip(i - 1);
            assert(tail.drop_first() =~= ds@.skip(i as int));
            lemma_value_positive(ds@.skip(i as int));
        }
        i = i - 1;
        push_digit(out, ds[i]);
    }
}

/// The digits from place `i` on are those of the number without its last `i`
/// places, and the digits before place `i` are the rest.
pub proof fn lemma_value_split(ds: Seq<u8>, i: int)
    requires
        all_digits(ds),
        0 <= i <= ds.len(),
    ensures
        digit_value(ds) == digit_value(ds.skip(i)) * pow10(i as nat) + digit_value(ds.take(i)),
        digit_value(ds.take(i)) < pow10(i as nat),
        digit_value(ds.skip(i)) == digit_value(ds) / pow10(i as nat),
        digit_value(ds.take(i)) == digit_value(ds) % pow10(i as nat),
        i < ds.len() ==> ds[i] == digit_value(ds) / pow10(i as nat) % 10,
    decreases i,
{
    let v = digit_value(ds) as int;
    let w = pow10(i as nat) as int;
    lemma_pow10(i as nat);
    if i == 0 {
        assert(ds.skip(0) =~= ds);
    } else {
        let rest = ds.drop_first();
        lemma_value_split(rest, i - 1);
        lemma_pow10((i - 1) as nat);
        assert(rest.skip(i - 1) =~= ds.skip(i));
        assert(ds.take(i).drop_first() =~= rest.take(i - 1));
        let a = digit_value(ds.skip(i)) as int;
        let b = digit_value(rest.take(i - 1)) as int;
        let u = pow10((i - 1) as nat) as int;
        assert(ds[0] + 10 * (a * u + b) == a * (10 * u) + (ds[0] + 10 * b)) by (nonlinear_arith);
    }
    let hi = digit_value(ds.skip(i)) as int;
    let lo = digit_value(ds.take(i)) as int;
    vstd::arithmetic::div_mod::lemma_fundamental_div_mod_converse(v, w, hi, lo);
}

/// A number has as many digits as its size asks for.
pub proof fn lemma_value_bounds(ds: Seq<u8>)
    requires
        all_digits(ds),
        ds.len() > 0,
        ds.last() > 0,
    ensures
        pow10((ds.len() - 1) as nat) <= digit_value(ds) < pow10(ds.len()),
{
    let n = (ds.len() - 1) as int;
    lemma_value_split(ds, n);
    lemma_value_split(ds, n + 1);
    assert(ds.take(n + 1) =~= ds);
    let w = pow10(n as nat) as int;
    let hi = digit_value(ds.skip(n)) as int;
    assert(hi * w >= w) by (nonlinear_arith)
        requires
            hi >= 1,
            w >= 0,
    ;
}

/// Larger powers of ten are larger.
pub proof fn lemma_pow10_order(a: nat, b: nat)
    requires
        a <= b,
    ensures
        pow10(a) <= pow10(b),
    decreases b - a,
{
    if a < b {
        lemma_pow10_order(a, (b - 1) as nat);
        lemma_pow10((b - 1) as nat);
    }
}

/// How two numbers without leading zeros are ordered: -1, 0 or 1 as the first
/// is less than, equal to or greater than the second.
pub fn order(a: &Vec<u8>, b: &Vec<u8>) -> (r: i8)
    requires
        all_digits(a@),
        all_digits(b@),
        a@.len() > 0 && a@.last() > 0,
        b@.len() > 0 && b@.last() > 0,
    ensures
        r == -1 || r == 0 || r == 1,
        r < 0 <==> digit_value(a@) < digit_value(b@),
        r == 0 <==> digit_value(a@) == digit_value(b@),
{
    proof {
        lemma_value_bounds(a@);
        lemma_value_bounds(b@);
    }
    if a.len() < b.len() {
        proof {
            lemma_pow10_order(a@.len(), (b@.len() - 1) as nat);
        }
        return -1;
    }
    if a.len() > b.len() {
        proof {
            lemma_pow10_order(b@.len(), (a@.len() - 1) as nat);
        }
        return 1;
    }
    let mut i: usize = a.len();
    while i > 0
        invariant
            i <= a@.len(),
            a@.len() == b@.len(),
            all_digits(a@),
            all_digits(b@),
            digit_value(a@.skip(i as int)) == digit_value(b@.skip(i as int)),
        decreases i,
    {
        i = i - 1;
        let x: u8 = a[i];
        let y: u8 = b[i];
        proof {
            assert(a@.skip(i as int).drop_first() =~= a@.skip(i + 1));
            assert(b@.skip(i as int).drop_first() =~= b@.skip(i + 1));
        }
        if x != y {
            proof {
                lemma_value_split(a@, i as int);
                lemma_value_split(b@, i as int);
                let w = pow10(i as nat) as int;
                let p = digit_value(a@.skip(i as int)) as int;
                let q = digit_value(b@.skip(i as int)) as int;
                assert(p < q ==> p * w + w <= q * w) by (nonlinear_arith)
                    requires
                        w >= 0,
                ;
                assert(q < p ==> q * w + w <= p * w) by (nonlinear_arith)
                    requires
                        w >= 0,
                ;
            }
            return if x < y {
                -1
            } else {
                1
            };
        }
    }
    assert(a@.skip(0) =~= a@);
    assert(b@.skip(0) =~= b@);
    0
}

/// The number with its last `n` places set to zero.
pub fn truncated(ds: &Vec<u8>, n: usize) -> (r: Vec<u8>)
    requires
        all_digits(ds@),
        n < ds@.len(),
        ds@.last() > 0,
    ensures
        all_digits(r@),
        r@.len() == ds@.len(),
        r@.last() == ds@.last(),
        digit_value(r@) == (digit_value(ds@) / pow10(n as nat)) * pow10(n as nat),
        forall|i: int| n <= i < ds@.len() ==> #[trigger] r@[i] == ds@[i],
{
    let mut r: Vec<u8> = Vec::new();
    let mut i: usize = 0;
    while i < ds.len()
        invariant
            i <= ds@.len(),
            r@.len() == i,
            all_digits(ds@),
            all_digits(r@),
            forall|j: int| 0 <= j < i ==> #[trigger] r@[j] == if j < n {
                0
            } else {
                ds@[j]
            },
        decreases ds@.len() - i,
    {
        r.push(
            if i < n {
                0
            } else {
                ds[i]
            },
        );
        i = i + 1;
    }
    proof {
        lemma_value_split(ds@, n as int);
        lemma_value_split(r@, n as int);
        assert(r@.skip(n as int) =~= ds@.skip(n as int));
        lemma_zeros(r@.take(n as int));
    }
    r
}

/// Zeros make up zero.
proof fn lemma_zeros(ds: Seq<u8>)
    requires
        forall|i: int| 0 <= i < ds.len() ==> #[trigger] ds[i] == 0,
    ensures
        digit_value(ds) == 0,
    decreases ds.len(),
{
    if ds.len() > 0 {
        lemma_zeros(ds.drop_first());
    }
}

/// Adds one at place `n`.
pub fn bump(ds: &mut Vec<u8>, n: usize)
    requires
        all_digits(old(ds)@),
        n < old(ds)@.len(),
        old(ds)@.last() > 0,
    ensures
        all_digits(final(ds)@),
        digit_value(final(ds)@) == digit_value(old(ds)@) + pow10(n as nat),
        final(ds)@.len() > 0,
        final(ds)@.last() > 0,
{
    let ghost before = ds@;
    let ghost total = digit_value(before) + pow10(n as nat);
    let mut i: usize = n;
    while i < ds.len() && ds[i] == 9
        invariant
            n <= i <= ds@.len(),
            ds@.len() == before.len(),
            all_digits(ds@),
            before.last() > 0,
            i < ds@.len() ==> ds@.last() == before.last(),
            digit_value(ds@) + pow10(i as nat) == total,
        decreases ds@.len() - i,
    {
        proof {
            lemma_digit_set(ds@, i as int, 0);
            lemma_pow10(i as nat);
        }
        ds.set(i, 0);
        i = i + 1;
    }
    if i < ds.len() {
        let d: u8 = ds[i];
        proof {
            lemma_digit_set(ds@, i as int, (d + 1) as u8);
            let w = pow10(i as nat) as int;
            assert((d + 1) * w == d * w + w) by (nonlinear_arith);
        }
        ds.set(i, d + 1);
    } else {
        proof {
            lemma_value_push(ds@, 1);
        }
        ds.push(1);
    }
}

/// Changing one digit changes the number by its place.
proof fn lemma_digit_set(ds: Seq<u8>, i: int, d: u8)
    requires
        all_digits(ds),
        0 <= i < ds.len(),
        d < 10,
    ensures
        digit_value(ds.update(i, d)) + ds[i] * pow10(i as nat) == digit_value(ds) + d * pow10(
            i as nat,
        ),
    decreases i,
{
    let s = ds.update(i, d);
    if i == 0 {
        lemma_pow10(0);
        assert(s.drop_first() =~= ds.drop_first());
        assert(ds[0] * 1 == ds[0] && d * 1 == d);
    } else {
        let rest = ds.drop_first();
        lemma_digit_set(rest, i - 1, d);
        lemma_pow10((i - 1) as nat);
        assert(s.drop_first() =~= rest.update(i - 1, d));
        let u = pow10((i - 1) as nat) as int;
        assert(ds[i] * (10 * u) == 10 * (ds[i] * u)) by (nonlinear_arith);
        assert(d * (10 * u) == 10 * (d * u)) by (nonlinear_arith);
    }
}

} // verus!
