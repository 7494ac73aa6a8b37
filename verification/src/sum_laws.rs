//! How exact the sums over a basis are.
use vstd::prelude::*;
use vstd::arithmetic::power2::{lemma_pow2_adds, lemma_pow2_pos, pow2};

use crate::double::{difference, magnitude, negation, product, sum, whole, Double};
use crate::exact::{
    is_dyadic, law_dyadic_products_are_exact, law_dyadic_sums_are_exact,
    law_every_quotient_rounds, law_integers_are_exact, law_rounding_moves_by_half_a_step,
    lemma_negated,
};
use crate::scale::{lemma_nearest_zero, mag, nearest, one, spacing, P53};
use crate::tableau::{total, RowModel, TableauModel};

verus! {

/// A row whose basic symbol costs nothing adds nothing to the objective: a
/// product with zero is a zero, while the right-hand side is finite.
pub proof fn law_free_rows_add_nothing(row: RowModel)
    requires
        row.c_b == whole(0),
        row.rhs.finite(),
    ensures
        product(row.c_b, row.rhs).index() == 0,
{
    law_integers_are_exact(0);
    lemma_pow2_pos(1074);
    let k = row.rhs.index();
    assert(mag(row.c_b.index()) == 0) by {
        assert(magnitude(0) * one() == 0) by (nonlinear_arith);
    }
    assert(mag(row.c_b.index()) * mag(k) == 0) by (nonlinear_arith)
        requires
            mag(row.c_b.index()) == 0,
    ;
    lemma_nearest_zero(one());
}

/// The sum of the products of two sequences of integers.
pub open spec fn dot(a: Seq<int>, b: Seq<int>) -> int
    decreases a.len(),
{
    if a.len() == 0 {
        0
    } else {
        dot(a.drop_last(), b.drop_last()) + a.last() * b.last()
    }
}

/// No product and no partial sum of products needs more than 53 binary places.
pub open spec fn is_small(a: Seq<int>, b: Seq<int>) -> bool {
    &&& forall|k: int| 0 <= k < a.len() ==> -P53 <= #[trigger] a[k] * b[k] <= P53
    &&& forall|k: int| 0 <= k <= a.len() ==> -P53 <= #[trigger] dot(a.take(k), b.take(k)) <= P53
}

/// A sum of products is exact where nothing in it needs more than 53 binary
/// places.
proof fn lemma_total(terms: Seq<Double>, a: Seq<int>, b: Seq<int>, s: nat)
    requires
        s <= 1074,
        a.len() == terms.len(),
        b.len() == terms.len(),
        is_small(a, b),
        forall|k: int| 0 <= k < terms.len() ==> is_dyadic(#[trigger] terms[k], a[k] * b[k], s),
    ensures
        is_dyadic(total(terms), dot(a, b), s),
    decreases terms.len(),
{
    if terms.len() == 0 {
        assert(0 * one() == 0) by (nonlinear_arith);
        assert(0 * pow2(s) == 0) by (nonlinear_arith);
    } else {
        let n = terms.len() - 1;
        let c = a.drop_last();
        let d = b.drop_last();
        assert(a.take(n + 1) =~= a);
        assert(b.take(n + 1) =~= b);
        assert(-P53 <= dot(a.take(n + 1), b.take(n + 1)) <= P53);
        assert forall|k: int| 0 <= k <= c.len() implies -P53 <= #[trigger] dot(
            c.take(k),
            d.take(k),
        ) <= P53 by {
            assert(c.take(k) =~= a.take(k));
            assert(d.take(k) =~= b.take(k));
        }
        lemma_total(terms.drop_last(), c, d, s);
        law_dyadic_sums_are_exact(
            total(terms.drop_last()),
            terms.last(),
            dot(c, d),
            a.last() * b.last(),
            s,
        );
    }
}

/// The objective value is exactly the sum of cost times value over the basis
/// where nothing in it needs more than 53 binary places. The costs are
/// `costs[i]` divided by two to the power of `s`, the values `values[i]` by two
/// to the power of `r`.
pub proof fn law_objective_values_are_exact(
    t: TableauModel,
    costs: Seq<int>,
    values: Seq<int>,
    s: nat,
    r: nat,
)
    requires
        s + r <= 1074,
        costs.len() == t.rows.len(),
        values.len() == t.rows.len(),
        is_small(costs, values),
        forall|i: int|
            0 <= i < t.rows.len() ==> is_dyadic((#[trigger] t.rows[i]).c_b, costs[i], s)
                && is_dyadic(t.rows[i].rhs, values[i], r),
    ensures
        is_dyadic(t.objective_value(), dot(costs, values), s + r),
{
    let terms = t.rows.map_values(|r: RowModel| product(r.c_b, r.rhs));
    assert forall|k: int| 0 <= k < terms.len() implies is_dyadic(
        #[trigger] terms[k],
        costs[k] * values[k],
        s + r,
    ) by {
        let row = t.rows[k];
        law_dyadic_products_are_exact(row.c_b, row.rhs, costs[k], values[k], s, r);
    }
    lemma_total(terms, costs, values, s + r);
}

/// `c_j - Z_j` computed from the basis is exactly the reduced cost, where the
/// reduced cost is what substituting the basis into the objective leaves of
/// column `j`: its own cost and, for each row, the row's cost times its
/// coefficient. Nothing in the sum may need more than 53 binary places. The
/// costs are `cost` and `costs[i]` divided by two to the power of `s`; the
/// coefficients, in textbook signs, are `negated[i]` divided by two to the
/// power of `r`.
pub proof fn law_reduced_costs_agree_with_the_basis(
    t: TableauModel,
    j: int,
    cost: int,
    costs: Seq<int>,
    negated: Seq<int>,
    s: nat,
    r: nat,
)
    requires
        0 <= j < t.columns.len(),
        s + r <= 1074,
        costs.len() == t.rows.len(),
        negated.len() == t.rows.len(),
        is_small(costs, negated),
        -P53 <= cost * pow2(r) - dot(costs, negated) <= P53,
        is_dyadic(t.columns[j].cost, cost, s),
        forall|i: int|
            0 <= i < t.rows.len() ==> is_dyadic((#[trigger] t.rows[i]).c_b, costs[i], s)
                && is_dyadic(t.rows[i].coeffs[j], -negated[i], r),
        is_dyadic(t.objective.reduced[j], cost * pow2(r) - dot(costs, negated), s + r),
    ensures
        is_dyadic(t.column_total(j), dot(costs, negated), s + r),
        difference(t.columns[j].cost, t.column_total(j)).value() == t.objective.reduced[j].value(),
{
    let f = |r: RowModel| product(r.c_b, negation(r.coeffs[j]));
    let terms = t.rows.map_values(f);
    assert forall|k: int| 0 <= k < terms.len() implies is_dyadic(
        #[trigger] terms[k],
        costs[k] * negated[k],
        s + r,
    ) by {
        let row = t.rows[k];
        lemma_negated(row.coeffs[j], -negated[k], r);
        law_dyadic_products_are_exact(
            row.c_b,
            negation(row.coeffs[j]),
            costs[k],
            negated[k],
            s,
            r,
        );
    }
    lemma_total(terms, costs, negated, s + r);
    let z = t.column_total(j);
    let c = t.columns[j].cost;
    let p = pow2(s) as int;
    let q = pow2(r) as int;
    let pq = pow2(s + r) as int;
    lemma_negated(z, dot(costs, negated), s + r);
    lemma_pow2_adds(s, r);
    lemma_pow2_pos(s + r);
    assert(c.value() * pq == (cost * q) * one()) by (nonlinear_arith)
        requires
            pq == p * q,
            c.value() * p == cost * one(),
    ;
    law_dyadic_sums_are_exact(c, negation(z), cost * q, -dot(costs, negated), s + r);
    let d = difference(c, z).value();
    let e = t.objective.reduced[j].value();
    assert(d == e) by (nonlinear_arith)
        requires
            d * pq == e * pq,
            pq > 0,
    ;
}

/// The products of two sequences of numbers.
pub open spec fn products(a: Seq<Double>, b: Seq<Double>) -> Seq<Double> {
    Seq::new(a.len(), |i: int| product(a[i], b[i]))
}

/// The sum of the products of two sequences of numbers without any rounding,
/// in units of units.
pub open spec fn exact_dot(a: Seq<Double>, b: Seq<Double>) -> int
    decreases a.len(),
{
    if a.len() == 0 {
        0
    } else {
        exact_dot(a.drop_last(), b.drop_last()) + a.last().value() * b.last().value()
    }
}

/// The spacings of all products and partial sums: twice what rounding can
/// make of a sum of products.
pub open spec fn roundings(a: Seq<Double>, b: Seq<Double>) -> nat
    decreases a.len(),
{
    if a.len() == 0 {
        0
    } else {
        roundings(a.drop_last(), b.drop_last()) + spacing(product(a.last(), b.last()).index())
            + spacing(total(products(a, b)).index())
    }
}

/// All numbers, products and partial sums are finite.
pub open spec fn stays_finite(a: Seq<Double>, b: Seq<Double>) -> bool
    decreases a.len(),
{
    a.len() > 0 ==> {
        &&& stays_finite(a.drop_last(), b.drop_last())
        &&& a.last().finite()
        &&& b.last().finite()
        &&& product(a.last(), b.last()).finite()
        &&& total(products(a, b)).finite()
    }
}

/// How far a product is from the exact one.
pub(crate) proof fn lemma_product_error(a: Double, b: Double)
    requires
        a.finite(),
        b.finite(),
        product(a, b).finite(),
    ensures
        2 * magnitude(product(a, b).value() * one() - a.value() * b.value()) <= one() * spacing(
            product(a, b).index(),
        ),
{
    lemma_pow2_pos(1074);
    let u = one() as int;
    let x = mag(a.index()) as int;
    let y = mag(b.index()) as int;
    let num = mag(a.index()) * mag(b.index());
    law_every_quotient_rounds(num, one());
    let k = nearest(num, one());
    assert(product(a, b).index() == k);
    law_rounding_moves_by_half_a_step(num, one());
    let z = mag(k) as int;
    assert(a.value() * b.value() == if a.is_neg() != b.is_neg() {
        -(x * y)
    } else {
        x * y
    }) by (nonlinear_arith)
        requires
            a.value() == if a.is_neg() { -x } else { x },
            b.value() == if b.is_neg() { -y } else { y },
    ;
    assert((-z) * u == -(u * z) && z * u == u * z) by (nonlinear_arith);
}

/// How far a sum is from the exact one.
pub(crate) proof fn lemma_sum_error(a: Double, b: Double)
    requires
        a.finite(),
        b.finite(),
        sum(a, b).finite(),
    ensures
        2 * magnitude(sum(a, b).value() - (a.value() + b.value())) <= spacing(
            sum(a, b).index(),
        ),
{
    let v = a.value() + b.value();
    if v != 0 {
        let m = magnitude(v);
        law_every_quotient_rounds(m, 1);
        let k = nearest(m, 1);
        assert(sum(a, b).index() == k);
        law_rounding_moves_by_half_a_step(m, 1);
        assert(1 * mag(k) == mag(k) && 1 * spacing(k) == spacing(k));
    }
}

/// How far a sum of products is from the exact one: at most half of the
/// spacings of all products and partial sums.
pub proof fn law_sums_of_products_are_close(a: Seq<Double>, b: Seq<Double>)
    requires
        a.len() == b.len(),
        stays_finite(a, b),
    ensures
        total(products(a, b)).finite(),
        2 * magnitude(total(products(a, b)).value() * one() - exact_dot(a, b)) <= one()
            * roundings(a, b),
    decreases a.len(),
{
    let u = one() as int;
    let terms = products(a, b);
    if a.len() == 0 {
        assert(0 * u == 0) by (nonlinear_arith);
        assert(u * 0 == 0) by (nonlinear_arith);
    } else {
        let c = a.drop_last();
        let d = b.drop_last();
        law_sums_of_products_are_close(c, d);
        assert(terms.drop_last() =~= products(c, d));
        let before = total(products(c, d));
        let p = product(a.last(), b.last());
        let after = total(terms);
        assert(after == sum(before, p));
        lemma_product_error(a.last(), b.last());
        lemma_sum_error(before, p);
        lemma_errors_add(
            before.value(),
            p.value(),
            after.value(),
            exact_dot(c, d),
            a.last().value() * b.last().value(),
            roundings(c, d),
            spacing(p.index()),
            spacing(after.index()),
            u,
        );
    }
}

/// Errors add up.
proof fn lemma_errors_add(
    before: int,
    p: int,
    after: int,
    exact: int,
    product: int,
    r: nat,
    s: nat,
    t: nat,
    u: int,
)
    requires
        u >= 0,
        2 * magnitude(before * u - exact) <= u * r,
        2 * magnitude(p * u - product) <= u * s,
        2 * magnitude(after - (before + p)) <= t,
    ensures
        2 * magnitude(after * u - (exact + product)) <= u * (r + s + t),
{
    let d = after - (before + p);
    assert(after * u == d * u + before * u + p * u) by (nonlinear_arith)
        requires
            after == d + before + p,
    ;
    assert(-(u * t) <= 2 * (d * u) <= u * t) by (nonlinear_arith)
        requires
            -t <= 2 * d <= t,
            u >= 0,
    ;
    assert(u * (r + s + t) == u * r + u * s + u * t) by (nonlinear_arith);
}

impl TableauModel {
    /// The costs of the rows.
    pub open spec fn row_costs(self) -> Seq<Double> {
        self.rows.map_values(|r: RowModel| r.c_b)
    }

    /// The coefficients of a column in textbook signs.
    pub open spec fn negated_column(self, j: int) -> Seq<Double> {
        self.rows.map_values(|r: RowModel| negation(r.coeffs[j]))
    }

    /// What substituting the basis into the objective leaves of column `j`,
    /// without any rounding and in units of units: its own cost and, for each
    /// row, the row's cost times its coefficient.
    pub open spec fn substituted_cost(self, j: int) -> int {
        self.columns[j].cost.value() * one() - exact_dot(
            self.row_costs(),
            self.negated_column(j),
        )
    }

    /// The spacings of all numbers on the way to `c_j - Z_j`.
    pub open spec fn cost_roundings(self, j: int) -> nat {
        roundings(self.row_costs(), self.negated_column(j)) + spacing(
            difference(self.columns[j].cost, self.column_total(j)).index(),
        )
    }
}

/// How far a difference is from the exact one where what is taken away is
/// close to `exact`.
proof fn lemma_difference_is_close(c: Double, z: Double, exact: int, r: nat)
    requires
        c.finite(),
        z.finite(),
        difference(c, z).finite(),
        2 * magnitude(z.value() * one() - exact) <= one() * r,
    ensures
        2 * magnitude(difference(c, z).value() * one() - (c.value() * one() - exact)) <= one() * (r
            + spacing(difference(c, z).index())),
{
    let u = one() as int;
    let d = difference(c, z);
    lemma_sum_error(c, negation(z));
    assert(u * 0 == 0) by (nonlinear_arith);
    assert((-z.value()) * u == -(z.value() * u)) by (nonlinear_arith);
    lemma_errors_add(
        -z.value(),
        c.value(),
        d.value(),
        -exact,
        c.value() * u,
        r,
        0,
        spacing(d.index()),
        u,
    );
}

/// `c_j - Z_j` computed from the basis agrees with the reduced cost up to
/// rounding, whatever the numbers are, as long as they stay finite: it differs
/// from what substituting the basis leaves by at most half of the spacings on
/// the way, and so from the reduced cost by at most that and what the reduced
/// cost itself is off.
pub proof fn law_reduced_costs_agree_up_to_rounding(t: TableauModel, j: int)
    requires
        0 <= j < t.columns.len(),
        stays_finite(t.row_costs(), t.negated_column(j)),
        t.columns[j].cost.finite(),
        difference(t.columns[j].cost, t.column_total(j)).finite(),
    ensures
        ({
            let d = difference(t.columns[j].cost, t.column_total(j));
            let e = t.objective.reduced[j];
            &&& 2 * magnitude(d.value() * one() - t.substituted_cost(j)) <= one()
                * t.cost_roundings(j)
            &&& 2 * magnitude((d.value() - e.value()) * one()) <= one() * t.cost_roundings(j) + 2
                * magnitude(e.value() * one() - t.substituted_cost(j))
        }),
{
    let a = t.row_costs();
    let b = t.negated_column(j);
    assert(t.rows.map_values(|r: RowModel| product(r.c_b, negation(r.coeffs[j]))) =~= products(
        a,
        b,
    ));
    law_sums_of_products_are_close(a, b);
    lemma_difference_is_close(
        t.columns[j].cost,
        t.column_total(j),
        exact_dot(a, b),
        roundings(a, b),
    );
    let d = difference(t.columns[j].cost, t.column_total(j)).value();
    let e = t.objective.reduced[j].value();
    assert((d - e) * one() == d * one() - e * one()) by (nonlinear_arith);
}

} // verus!
