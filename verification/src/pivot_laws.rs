//! What the optimality test, the ratio tests and the marks of a snapshot mean.
use vstd::prelude::*;

use crate::arith_laws::{law_exact_quotients, law_quotients_round};
use crate::double::{difference, magnitude, negation, product, quotient, sum, whole, Double};
use crate::exact::{
    law_every_quotient_rounds, law_integers_are_exact, law_rounding_is_monotone, lemma_signed,
};
use crate::format::{is_near_zero, EPSILON};
use crate::render::law_live_columns;
use crate::scale::{lemma_mag_order, lemma_nearest_zero, mag, nearest, one, spacing};
use crate::sum_laws::{
    exact_dot, law_sums_of_products_are_close, lemma_sum_error, products, roundings, stays_finite,
};
use crate::symbol::SymbolKind;
use crate::tableau::{first_place, is_first_place, RowModel, TableauModel};

verus! {

/// Zero is less than a number, or more, as its value is.
pub(crate) proof fn lemma_zero()
    ensures
        whole(0).value() == 0,
        !whole(0).is_nan(),
        whole(0) == (Double { bits: 0 }),
{
    law_integers_are_exact(0);
    assert(0 * one() == 0) by (nonlinear_arith);
    lemma_nearest_zero(1);
}

/// The column that may enter is the first one, of whatever kind but dummy,
/// whose reduced cost is negative; the snapshot is optimal where there is none.
pub proof fn law_the_first_negative_column_enters(t: TableauModel)
    requires
        t.columns.len() <= usize::MAX,
    ensures
        match t.entering() {
            Some(c) => {
                &&& c < t.columns.len()
                &&& t.columns[c as int].kind != SymbolKind::Dummy
                &&& !t.objective.reduced[c as int].is_nan()
                &&& t.objective.reduced[c as int].value() < 0
                &&& forall|j: int|
                    0 <= j < c ==> (#[trigger] t.columns[j]).kind == SymbolKind::Dummy
                        || t.objective.reduced[j].is_nan() || t.objective.reduced[j].value() >= 0
            },
            None => forall|j: int|
                0 <= j < t.columns.len() ==> (#[trigger] t.columns[j]).kind == SymbolKind::Dummy
                    || t.objective.reduced[j].is_nan() || t.objective.reduced[j].value() >= 0,
        },
        t.optimal() <==> t.entering() is None,
{
    lemma_zero();
    if !t.optimal() {
        let j = choose|j: int| 0 <= j < t.columns.len() && t.may_enter(j);
        lemma_some_entering(t, j);
    }
    match t.entering() {
        Some(c) => {
            assert(t.is_entering(c));
            assert forall|j: int| 0 <= j < c implies (#[trigger] t.columns[j]).kind
                == SymbolKind::Dummy || t.objective.reduced[j].is_nan()
                || t.objective.reduced[j].value() >= 0 by {
                assert(!t.may_enter(j));
            }
        },
        None => {
            assert forall|j: int| 0 <= j < t.columns.len() implies (#[trigger] t.columns[j]).kind
                == SymbolKind::Dummy || t.objective.reduced[j].is_nan()
                || t.objective.reduced[j].value() >= 0 by {
                assert(!t.may_enter(j));
            }
        },
    }
}

/// If a column may enter, there is a first one.
proof fn lemma_some_entering(t: TableauModel, j: int)
    requires
        t.columns.len() <= usize::MAX,
        0 <= j < t.columns.len(),
        t.may_enter(j),
    ensures
        exists|c: usize| t.is_entering(c),
    decreases j,
{
    if exists|i: int| 0 <= i < j && t.may_enter(i) {
        let i = choose|i: int| 0 <= i < j && t.may_enter(i);
        lemma_some_entering(t, i);
    } else {
        assert(t.is_entering(j as usize));
    }
}

/// What raising the nonbasic variables to `x` changes the objective by.
pub open spec fn change(reduced: Seq<Double>, x: Seq<int>) -> int
    decreases reduced.len(),
{
    if reduced.len() == 0 {
        0
    } else {
        change(reduced.drop_last(), x.drop_last()) + reduced.last().value() * x.last()
    }
}

/// Values for the nonbasic variables: none is negative, and the dummies stay
/// at zero.
pub open spec fn is_move(t: TableauModel, x: Seq<int>) -> bool {
    &&& x.len() == t.columns.len()
    &&& forall|j: int| 0 <= j < x.len() ==> #[trigger] x[j] >= 0
    &&& forall|j: int|
        0 <= j < x.len() && (#[trigger] t.columns[j]).kind == SymbolKind::Dummy ==> x[j] == 0
}

/// A snapshot is optimal exactly when no values of the nonbasic variables make
/// the objective less: raising them, with the dummies at zero, never lowers
/// it.
pub proof fn law_optimal_means_nothing_improves(t: TableauModel)
    requires
        t.wf(),
        forall|j: int|
            0 <= j < t.columns.len() ==> (#[trigger] t.objective.reduced[j]).finite(),
    ensures
        t.optimal() <==> forall|x: Seq<int>|
            is_move(t, x) ==> #[trigger] change(t.objective.reduced, x) >= 0,
{
    lemma_zero();
    let reduced = t.objective.reduced;
    if t.optimal() {
        assert forall|x: Seq<int>| is_move(t, x) implies #[trigger] change(reduced, x) >= 0 by {
            assert forall|j: int| 0 <= j < x.len() implies (#[trigger] reduced[j]).value() * x[j]
                >= 0 by {
                assert(!t.may_enter(j));
                assert(reduced[j].finite());
                assert(t.columns[j].kind == SymbolKind::Dummy || reduced[j].value() >= 0);
                assert(reduced[j].value() * x[j] >= 0) by (nonlinear_arith)
                    requires
                        x[j] == 0 || (reduced[j].value() >= 0 && x[j] >= 0),
                ;
            }
            lemma_change_is_not_negative(reduced, x);
        }
    } else {
        let j = choose|j: int| 0 <= j < t.columns.len() && t.may_enter(j);
        let x = Seq::new(
            t.columns.len(),
            |k: int|
                if k == j {
                    1int
                } else {
                    0int
                },
        );
        assert(is_move(t, x));
        lemma_change_of_one(reduced, x, j);
        assert(change(reduced, x) < 0);
    }
}

/// A sum of terms that are not negative.
proof fn lemma_change_is_not_negative(reduced: Seq<Double>, x: Seq<int>)
    requires
        reduced.len() == x.len(),
        forall|j: int| 0 <= j < x.len() ==> (#[trigger] reduced[j]).value() * x[j] >= 0,
    ensures
        change(reduced, x) >= 0,
    decreases reduced.len(),
{
    if reduced.len() > 0 {
        let a = reduced.drop_last();
        let b = x.drop_last();
        assert forall|j: int| 0 <= j < b.len() implies (#[trigger] a[j]).value() * b[j] >= 0 by {
            assert(reduced[j].value() * x[j] >= 0);
        }
        lemma_change_is_not_negative(a, b);
        assert(reduced[reduced.len() - 1].value() * x[x.len() - 1] >= 0);
    }
}

/// Raising one variable by one.
proof fn lemma_change_of_one(reduced: Seq<Double>, x: Seq<int>, j: int)
    requires
        reduced.len() == x.len(),
        j < x.len(),
        forall|k: int|
            0 <= k < x.len() ==> #[trigger] x[k] == if k == j {
                1int
            } else {
                0int
            },
    ensures
        change(reduced, x) == if j >= 0 {
            reduced[j].value()
        } else {
            0
        },
    decreases reduced.len(),
{
    if reduced.len() > 0 {
        let n = x.len() - 1;
        let v = reduced.last().value();
        assert(v * 1 == v && v * 0 == 0) by (nonlinear_arith);
        assert(x[n] == if n == j {
            1int
        } else {
            0int
        });
        if n == j {
            lemma_change_of_one(reduced.drop_last(), x.drop_last(), -1);
        } else {
            lemma_change_of_one(reduced.drop_last(), x.drop_last(), j);
        }
    }
}

/// After the minimum-ratio test a row has a ratio exactly when it can leave:
/// it is not External, and its coefficient in the entering column is negative.
/// The ratio is the quotient of the negated right-hand side by the
/// coefficient, whatever the kind of the row and whatever else it holds.
/// Nothing but the ratios changes.
pub proof fn law_ratio_test(t: TableauModel, entering: int, i: int)
    requires
        0 <= i < t.rows.len(),
    ensures
        ({
            let after = t.with_ratios(entering);
            let row = t.rows[i];
            let c = row.coeffs[entering];
            &&& after.rows[i].ratio is Some <==> row.kind != SymbolKind::External && !c.is_nan()
                && c.value() < 0
            &&& after.rows[i].ratio is Some ==> after.rows[i].ratio->0 == quotient(
                negation(row.rhs),
                c,
            )
            &&& after.rows[i] == (RowModel { ratio: after.rows[i].ratio, ..row })
            &&& after == (TableauModel { rows: after.rows, ..t })
            &&& after.rows.len() == t.rows.len()
        }),
{
    lemma_zero();
}

/// The ratio of a row is how far the entering variable can rise before the
/// row's own variable falls to zero: that much times the coefficient cancels
/// the right-hand side, up to half a step, and exactly where the exact
/// quotient is a number. It has the sign of the right-hand side.
pub proof fn law_ratio_cancels_the_row(t: TableauModel, entering: int, i: int)
    requires
        0 <= i < t.rows.len(),
        t.rows[i].kind != SymbolKind::External,
        t.rows[i].rhs.finite(),
        t.rows[i].coeffs[entering].finite(),
        t.rows[i].coeffs[entering].value() < 0,
    ensures
        t.with_ratios(entering).rows[i].ratio is Some,
        ({
            let r = t.with_ratios(entering).rows[i].ratio->0;
            let b = t.rows[i].rhs;
            let c = t.rows[i].coeffs[entering];
            &&& !r.is_nan()
            &&& r.is_neg() == b.is_neg()
            &&& r.finite() ==> 2 * magnitude(b.value() * one() + c.value() * r.value())
                <= magnitude(c.value()) * spacing(r.index())
            &&& forall|x: Double|
                x.finite() && b.value() * one() + c.value() * #[trigger] x.value() == 0
                    ==> r.value() == x.value()
        }),
{
    lemma_zero();
    let b = t.rows[i].rhs;
    let c = t.rows[i].coeffs[entering];
    let n = negation(b);
    lemma_signed(!b.is_neg(), b.index());
    assert(n.value() == -b.value());
    law_quotients_round(n, c);
    let r = quotient(n, c);
    assert((-b.value()) * one() == -(b.value() * one())) by (nonlinear_arith);
    assert(r.value() * c.value() == c.value() * r.value()) by (nonlinear_arith);
    assert forall|x: Double|
        x.finite() && b.value() * one() + c.value() * #[trigger] x.value() == 0 implies r.value()
        == x.value() by {
        assert(x.value() * c.value() == c.value() * x.value()) by (nonlinear_arith);
        law_exact_quotients(n, c, x);
    }
}

/// Two rows with the same right-hand side and the same coefficient have the
/// same ratio, whatever else differs between them, if neither is External.
pub proof fn law_ratios_depend_on_two_numbers(
    t: TableauModel,
    u: TableauModel,
    entering: int,
    other: int,
    i: int,
    k: int,
)
    requires
        0 <= i < t.rows.len(),
        0 <= k < u.rows.len(),
        t.rows[i].kind != SymbolKind::External,
        u.rows[k].kind != SymbolKind::External,
        t.rows[i].rhs == u.rows[k].rhs,
        t.rows[i].coeffs[entering] == u.rows[k].coeffs[other],
    ensures
        t.with_ratios(entering).rows[i].ratio == u.with_ratios(other).rows[k].ratio,
{
}

/// Of two rows that can leave, the one that reaches zero first has the lesser
/// ratio, or the same one.
pub proof fn law_ratios_keep_the_order(t: TableauModel, entering: int, i: int, k: int)
    requires
        0 <= i < t.rows.len(),
        0 <= k < t.rows.len(),
        t.rows[i].kind != SymbolKind::External,
        t.rows[k].kind != SymbolKind::External,
        t.rows[i].rhs.finite(),
        t.rows[k].rhs.finite(),
        t.rows[i].rhs.value() >= 0,
        t.rows[k].rhs.value() >= 0,
        t.rows[i].coeffs[entering].finite(),
        t.rows[k].coeffs[entering].finite(),
        t.rows[i].coeffs[entering].value() < 0,
        t.rows[k].coeffs[entering].value() < 0,
        t.rows[i].rhs.value() * -t.rows[k].coeffs[entering].value() <= t.rows[k].rhs.value()
            * -t.rows[i].coeffs[entering].value(),
    ensures
        t.with_ratios(entering).rows[i].ratio is Some,
        t.with_ratios(entering).rows[k].ratio is Some,
        t.with_ratios(entering).rows[i].ratio->0.value() <= t.with_ratios(
            entering,
        ).rows[k].ratio->0.value(),
{
    lemma_zero();
    let a = t.rows[i].rhs;
    let b = t.rows[k].rhs;
    let c = t.rows[i].coeffs[entering];
    let d = t.rows[k].coeffs[entering];
    lemma_signed(!a.is_neg(), a.index());
    lemma_signed(!b.is_neg(), b.index());
    lemma_quotient_order(negation(a), c, negation(b), d);
}

/// The quotient of numbers with the same sign.
proof fn lemma_positive_quotient(a: Double, c: Double)
    requires
        a.finite(),
        c.finite(),
        a.value() <= 0 && c.value() < 0 || a.value() >= 0 && c.value() > 0,
    ensures
        quotient(a, c).value() == mag(nearest(mag(a.index()) * one(), mag(c.index()))),
{
    let num = mag(a.index()) * one();
    let den = mag(c.index());
    lemma_mag_order(c.index(), 0);
    law_every_quotient_rounds(num, den);
    lemma_signed(a.is_neg() != c.is_neg(), nearest(num, den));
    if a.value() == 0 {
        assert(num == 0) by (nonlinear_arith)
            requires
                num == mag(a.index()) * one(),
                mag(a.index()) == 0,
        ;
        lemma_nearest_zero(den);
    }
}

/// Quotients with positive values keep their order.
proof fn lemma_quotient_order(a: Double, c: Double, b: Double, d: Double)
    requires
        a.finite(),
        b.finite(),
        c.finite(),
        d.finite(),
        a.value() <= 0 && c.value() < 0 && b.value() <= 0 && d.value() < 0 || a.value() >= 0
            && c.value() > 0 && b.value() >= 0 && d.value() > 0,
        magnitude(a.value()) * magnitude(d.value()) <= magnitude(b.value()) * magnitude(c.value()),
    ensures
        quotient(a, c).value() <= quotient(b, d).value(),
{
    let u = one();
    let w = mag(a.index());
    let x = mag(c.index());
    let y = mag(b.index());
    let z = mag(d.index());
    assert((w * u) * z <= (y * u) * x) by (nonlinear_arith)
        requires
            w * z <= y * x,
            u >= 0,
    ;
    law_rounding_is_monotone(w * u, x, y * u, z);
    lemma_positive_quotient(a, c);
    lemma_positive_quotient(b, d);
    lemma_mag_order(nearest(w * u, x), nearest(y * u, z));
}

/// After the dual ratio test a column has a ratio exactly when it can enter:
/// it is not a dummy, and its coefficient in the leaving row is positive. The
/// ratio is the quotient of the reduced cost by the coefficient, whatever the
/// column costs and of whatever kind it is. Nothing but the ratios changes.
pub proof fn law_dual_ratio_test(t: TableauModel, leaving_row: int, j: int)
    requires
        0 <= j < t.columns.len(),
    ensures
        ({
            let after = t.with_dual_ratios(leaving_row);
            let c = t.rows[leaving_row].coeffs[j];
            &&& after.dual_ratios is Some
            &&& after.dual_ratios->0.len() == t.columns.len()
            &&& after.dual_ratios->0[j] is Some <==> t.columns[j].kind != SymbolKind::Dummy
                && !c.is_nan() && c.value() > 0
            &&& after.dual_ratios->0[j] is Some ==> after.dual_ratios->0[j]->0 == quotient(
                t.objective.reduced[j],
                c,
            )
            &&& after == (TableauModel { dual_ratios: after.dual_ratios, ..t })
        }),
{
    lemma_zero();
}

/// The dual ratio of a column times its coefficient in the leaving row is its
/// reduced cost, up to half a step, and exactly where the exact quotient is a
/// number. It has the sign of the reduced cost.
pub proof fn law_dual_ratio_gives_the_reduced_cost(t: TableauModel, leaving_row: int, j: int)
    requires
        0 <= j < t.columns.len(),
        t.columns[j].kind != SymbolKind::Dummy,
        t.objective.reduced[j].finite(),
        t.rows[leaving_row].coeffs[j].finite(),
        t.rows[leaving_row].coeffs[j].value() > 0,
    ensures
        t.with_dual_ratios(leaving_row).dual_ratios->0[j] is Some,
        ({
            let r = t.with_dual_ratios(leaving_row).dual_ratios->0[j]->0;
            let e = t.objective.reduced[j];
            let c = t.rows[leaving_row].coeffs[j];
            &&& !r.is_nan()
            &&& r.is_neg() == e.is_neg()
            &&& r.finite() ==> 2 * magnitude(r.value() * c.value() - e.value() * one())
                <= magnitude(c.value()) * spacing(r.index())
            &&& forall|x: Double|
                x.finite() && #[trigger] x.value() * c.value() == e.value() * one() ==> r.value()
                    == x.value()
        }),
{
    lemma_zero();
    let e = t.objective.reduced[j];
    let c = t.rows[leaving_row].coeffs[j];
    law_quotients_round(e, c);
    assert forall|x: Double|
        x.finite() && #[trigger] x.value() * c.value() == e.value() * one() implies quotient(e, c)
        .value() == x.value() by {
        law_exact_quotients(e, c, x);
    }
}

/// Dual ratios depend on the reduced cost and the coefficient alone: not on
/// what a column costs, nor on its kind while that is not dummy.
pub proof fn law_dual_ratios_depend_on_two_numbers(
    t: TableauModel,
    u: TableauModel,
    leaving_row: int,
    other: int,
    j: int,
    k: int,
)
    requires
        0 <= j < t.columns.len(),
        0 <= k < u.columns.len(),
        t.columns[j].kind != SymbolKind::Dummy,
        u.columns[k].kind != SymbolKind::Dummy,
        t.objective.reduced[j] == u.objective.reduced[k],
        t.rows[leaving_row].coeffs[j] == u.rows[other].coeffs[k],
    ensures
        t.with_dual_ratios(leaving_row).dual_ratios->0[j] == u.with_dual_ratios(
            other,
        ).dual_ratios->0[k],
{
}

/// Of two columns that can enter, the one whose reduced cost is used up first
/// has the lesser dual ratio, or the same one.
pub proof fn law_dual_ratios_keep_the_order(t: TableauModel, leaving_row: int, j: int, k: int)
    requires
        0 <= j < t.columns.len(),
        0 <= k < t.columns.len(),
        t.columns[j].kind != SymbolKind::Dummy,
        t.columns[k].kind != SymbolKind::Dummy,
        t.objective.reduced[j].finite(),
        t.objective.reduced[k].finite(),
        t.objective.reduced[j].value() >= 0,
        t.objective.reduced[k].value() >= 0,
        t.rows[leaving_row].coeffs[j].finite(),
        t.rows[leaving_row].coeffs[k].finite(),
        t.rows[leaving_row].coeffs[j].value() > 0,
        t.rows[leaving_row].coeffs[k].value() > 0,
        t.objective.reduced[j].value() * t.rows[leaving_row].coeffs[k].value()
            <= t.objective.reduced[k].value() * t.rows[leaving_row].coeffs[j].value(),
    ensures
        t.with_dual_ratios(leaving_row).dual_ratios->0[j] is Some,
        t.with_dual_ratios(leaving_row).dual_ratios->0[k] is Some,
        t.with_dual_ratios(leaving_row).dual_ratios->0[j]->0.value() <= t.with_dual_ratios(
            leaving_row,
        ).dual_ratios->0[k]->0.value(),
{
    lemma_zero();
    lemma_quotient_order(
        t.objective.reduced[j],
        t.rows[leaving_row].coeffs[j],
        t.objective.reduced[k],
        t.rows[leaving_row].coeffs[k],
    );
}

/// An id is found at its first place, and nothing is found where it is not.
pub proof fn law_ids_are_found(ids: Seq<usize>, id: usize)
    requires
        ids.len() <= usize::MAX,
    ensures
        match first_place(ids, id) {
            Some(p) => p < ids.len() && ids[p as int] == id && forall|k: int|
                0 <= k < p ==> ids[k] != id,
            None => !ids.contains(id),
        },
{
    if ids.contains(id) {
        let k = choose|k: int| 0 <= k < ids.len() && ids[k] == id;
        lemma_some_place(ids, id, k);
    }
}

/// If an id is there, it has a first place.
proof fn lemma_some_place(ids: Seq<usize>, id: usize, k: int)
    requires
        ids.len() <= usize::MAX,
        0 <= k < ids.len(),
        ids[k] == id,
    ensures
        exists|p: usize| is_first_place(ids, id, p),
    decreases k,
{
    if exists|i: int| 0 <= i < k && ids[i] == id {
        let i = choose|i: int| 0 <= i < k && ids[i] == id;
        lemma_some_place(ids, id, i);
    } else {
        assert(is_first_place(ids, id, k as usize));
    }
}

/// Marking a primal pivot marks the first column with the entering id and the
/// first row with the leaving id, each whether or not the other is there, and
/// runs the minimum-ratio test on the marked column. Where there is no such
/// column the ratios stay as they are. Nothing else changes.
pub proof fn law_primal_marks(t: TableauModel, entering_id: usize, leaving_id: usize)
    requires
        t.column_ids.len() <= usize::MAX,
        t.row_ids.len() <= usize::MAX,
    ensures
        ({
            let a = t.with_primal_pivot(entering_id, leaving_id);
            &&& a.pivot_col is Some <==> t.column_ids.contains(entering_id)
            &&& a.pivot_row is Some <==> t.row_ids.contains(leaving_id)
            &&& a.pivot_col is Some ==> t.column_ids[a.pivot_col->0 as int] == entering_id
                && forall|k: int| 0 <= k < a.pivot_col->0 ==> t.column_ids[k] != entering_id
            &&& a.pivot_row is Some ==> t.row_ids[a.pivot_row->0 as int] == leaving_id
                && forall|k: int| 0 <= k < a.pivot_row->0 ==> t.row_ids[k] != leaving_id
            &&& a.pivot_col is None ==> a.rows == t.rows
            &&& a.rows.len() == t.rows.len()
            &&& a.pivot_col is Some ==> forall|i: int|
                0 <= i < t.rows.len() ==> {
                    let c = t.rows[i].coeffs[a.pivot_col->0 as int];
                    &&& (#[trigger] a.rows[i]).ratio is Some <==> t.rows[i].kind
                        != SymbolKind::External && !c.is_nan() && c.value() < 0
                    &&& a.rows[i].ratio is Some ==> a.rows[i].ratio->0 == quotient(
                        negation(t.rows[i].rhs),
                        c,
                    )
                    &&& a.rows[i] == (RowModel { ratio: a.rows[i].ratio, ..t.rows[i] })
                }
            &&& a == (TableauModel {
                pivot_col: a.pivot_col,
                pivot_row: a.pivot_row,
                rows: a.rows,
                ..t
            })
        }),
{
    lemma_zero();
    law_ids_are_found(t.column_ids, entering_id);
    law_ids_are_found(t.row_ids, leaving_id);
}

/// Marking a dual pivot marks the first column with the entering id and the
/// first row with the leaving id, each whether or not the other is there, and
/// runs the dual ratio test along the marked row. Where there is no such row
/// the dual ratios stay as they are. Nothing else changes.
pub proof fn law_dual_marks(t: TableauModel, entering_id: usize, leaving_id: usize)
    requires
        t.column_ids.len() <= usize::MAX,
        t.row_ids.len() <= usize::MAX,
    ensures
        ({
            let a = t.with_dual_pivot(entering_id, leaving_id);
            &&& a.pivot_col is Some <==> t.column_ids.contains(entering_id)
            &&& a.pivot_row is Some <==> t.row_ids.contains(leaving_id)
            &&& a.pivot_col is Some ==> t.column_ids[a.pivot_col->0 as int] == entering_id
                && forall|k: int| 0 <= k < a.pivot_col->0 ==> t.column_ids[k] != entering_id
            &&& a.pivot_row is Some ==> t.row_ids[a.pivot_row->0 as int] == leaving_id
                && forall|k: int| 0 <= k < a.pivot_row->0 ==> t.row_ids[k] != leaving_id
            &&& a.pivot_row is None ==> a.dual_ratios == t.dual_ratios
            &&& a.pivot_row is Some ==> a.dual_ratios is Some && a.dual_ratios->0.len()
                == t.columns.len() && forall|j: int|
                0 <= j < t.columns.len() ==> {
                    let c = t.rows[a.pivot_row->0 as int].coeffs[j];
                    &&& (#[trigger] a.dual_ratios->0[j]) is Some <==> t.columns[j].kind
                        != SymbolKind::Dummy && !c.is_nan() && c.value() > 0
                    &&& a.dual_ratios->0[j] is Some ==> a.dual_ratios->0[j]->0 == quotient(
                        t.objective.reduced[j],
                        c,
                    )
                }
            &&& a == (TableauModel {
                pivot_col: a.pivot_col,
                pivot_row: a.pivot_row,
                dual_ratios: a.dual_ratios,
                ..t
            })
        }),
{
    lemma_zero();
    law_ids_are_found(t.column_ids, entering_id);
    law_ids_are_found(t.row_ids, leaving_id);
}

/// The pivot element is the coefficient where the marked row and the marked
/// column meet; without both marks there is none.
pub proof fn law_pivot_element(t: TableauModel)
    ensures
        t.pivot_element() is Some <==> t.pivot_row is Some && t.pivot_col is Some,
        t.pivot_element() is Some ==> t.pivot_element()->0
            == t.rows[t.pivot_row->0 as int].coeffs[t.pivot_col->0 as int],
{
}

/// The objective value and the column totals are sums over all rows: a row
/// more, of whatever kind, adds its cost times its value to the objective
/// value, and its cost times its coefficient, in textbook signs, to the total
/// of each column. Without rows they are zero.
pub proof fn law_every_row_counts(t: TableauModel, row: RowModel, j: int)
    ensures
        ({
            let more = TableauModel { rows: t.rows.push(row), ..t };
            &&& more.objective_value() == sum(t.objective_value(), product(row.c_b, row.rhs))
            &&& more.column_total(j) == sum(
                t.column_total(j),
                product(row.c_b, negation(row.coeffs[j])),
            )
        }),
        t.rows.len() == 0 ==> t.objective_value().value() == 0 && t.column_total(j).value() == 0,
        t.column_totals().len() == t.columns.len(),
        0 <= j < t.columns.len() ==> t.column_totals()[j] == t.column_total(j),
{
    let more = TableauModel { rows: t.rows.push(row), ..t };
    let f = |r: RowModel| product(r.c_b, r.rhs);
    let g = |r: RowModel| product(r.c_b, negation(r.coeffs[j]));
    assert(more.rows.map_values(f).drop_last() =~= t.rows.map_values(f));
    assert(more.rows.map_values(g).drop_last() =~= t.rows.map_values(g));
}

/// The objective value is within the roundings on the way of the exact sum of
/// cost times value.
pub proof fn law_objective_values_are_close(t: TableauModel)
    requires
        stays_finite(t.row_costs(), t.row_values()),
    ensures
        t.objective_value().finite(),
        2 * magnitude(
            t.objective_value().value() * one() - exact_dot(t.row_costs(), t.row_values()),
        ) <= one() * roundings(t.row_costs(), t.row_values()),
{
    let a = t.row_costs();
    let b = t.row_values();
    assert(t.rows.map_values(|r: RowModel| product(r.c_b, r.rhs)) =~= products(
        a,
        b,
    ));
    law_sums_of_products_are_close(a, b);
}

impl TableauModel {
    /// The values of the basic variables.
    pub open spec fn row_values(self) -> Seq<Double> {
        self.rows.map_values(|r: RowModel| r.rhs)
    }
}

/// The drift is the carried constant less the objective value, within half a
/// step.
pub proof fn law_drift(t: TableauModel)
    ensures
        t.drift() == difference(t.objective.carried_constant, t.objective_value()),
        t.objective.carried_constant.finite() && t.objective_value().finite() && t.drift().finite()
            ==> 2 * magnitude(
            t.drift().value() - (t.objective.carried_constant.value()
                - t.objective_value().value()),
        ) <= spacing(t.drift().index()),
{
    let z = t.objective_value();
    if t.objective.carried_constant.finite() && z.finite() && t.drift().finite() {
        lemma_signed(!z.is_neg(), z.index());
        lemma_sum_error(t.objective.carried_constant, negation(z));
    }
}

/// The parts of a snapshot fit together exactly when everything that is
/// parallel to the columns or the rows is as long as they are and the marks
/// lie inside.
pub proof fn law_well_formed(t: TableauModel)
    ensures
        t.wf() <==> {
            let n = t.columns.len();
            let m = t.rows.len();
            &&& t.objective.reduced.len() == n
            &&& t.column_ids.len() == n
            &&& t.row_ids.len() == m
            &&& match t.phase_one {
                Some(p) => p.reduced.len() == n,
                None => true,
            }
            &&& match t.dual_ratios {
                Some(d) => d.len() == n,
                None => true,
            }
            &&& match t.pivot_col {
                Some(c) => c < n,
                None => true,
            }
            &&& match t.pivot_row {
                Some(r) => r < m,
                None => true,
            }
            &&& forall|i: int| 0 <= i < m ==> (#[trigger] t.rows[i]).coeffs.len() == n
        },
{
}

/// The live columns are those that are not next to zero throughout: the ones
/// with a reduced cost or a coefficient of at least `EPSILON`, either way, or
/// one that is not a number. They are listed from left to right.
pub proof fn law_live_columns_are_not_zero(t: TableauModel, j: int)
    requires
        t.columns.len() <= usize::MAX,
        0 <= j < t.columns.len(),
    ensures
        t.live_before(t.columns.len()).contains(j as usize) <==> {
            ||| t.objective.reduced[j].index() >= EPSILON
            ||| exists|i: int|
                0 <= i < t.rows.len() && (#[trigger] t.rows[i]).coeffs[j].index() >= EPSILON
        },
        forall|k: int, l: int|
            0 <= k < l < t.live_before(t.columns.len()).len() ==> t.live_before(
                t.columns.len(),
            )[k] < t.live_before(t.columns.len())[l],
{
    law_live_columns(t, t.columns.len());
    law_near_zero(t.objective.reduced[j]);
    if exists|i: int|
        0 <= i < t.rows.len() && (#[trigger] t.rows[i]).coeffs[j].index() >= EPSILON {
        let i = choose|i: int|
            0 <= i < t.rows.len() && (#[trigger] t.rows[i]).coeffs[j].index() >= EPSILON;
        law_near_zero(t.rows[i].coeffs[j]);
    }
    if t.is_live(j) && t.objective.reduced[j].index() < EPSILON {
        let i = choose|i: int|
            0 <= i < t.rows.len() && !is_near_zero(
                (#[trigger] t.rows[i]).coeffs[j],
            );
        law_near_zero(t.rows[i].coeffs[j]);
    }
}

/// A number is next to zero exactly when its magnitude is below `EPSILON`.
pub proof fn law_near_zero(v: Double)
    ensures
        is_near_zero(v) <==> v.index() < EPSILON,
{
    lemma_signed(false, v.index());
    lemma_mag_order(v.index(), EPSILON as nat);
    assert((Double { bits: EPSILON }).index() == EPSILON);
}

} // verus!
