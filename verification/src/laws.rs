//! What holds of every snapshot.
use vstd::prelude::*;
use vstd::relations::sorted_by;

use crate::double::{less, negation, product, whole, Double};
use crate::options::RenderOpts;
use crate::order::{alphabetical, law_alphabetical_order_is_total, law_listing};
use crate::snapshot::{external_names, is_external, value_or_zero, RowData, SystemModel};
use crate::symbol::{kind_rank, symbol_kind, symbol_le, symbol_text, Symbol, SymbolKind};
use crate::tableau::{first_place, is_first_place, ObjectiveModel, RowModel, TableauModel};

verus! {

/// Two rows have the same constant and the same entries.
pub open spec fn same_entries(a: RowData, b: RowData) -> bool {
    &&& a.constant == b.constant
    &&& forall|x: Symbol| #[trigger] a.cells.contains_key(x) <==> b.cells.contains_key(x)
    &&& forall|x: Symbol| #[trigger] a.cells.contains_key(x) ==> a.cells[x] == b.cells[x]
}

/// A snapshot depends only on what the system's tables hold, not on how they
/// hold it: systems that agree entry by entry have the same snapshot, and it
/// reads the same.
pub proof fn law_snapshots_are_deterministic(a: SystemModel, b: SystemModel, opts: RenderOpts)
    requires
        forall|s: Symbol| #[trigger] a.rows.contains_key(s) <==> b.rows.contains_key(s),
        forall|s: Symbol| #[trigger]
            a.rows.contains_key(s) ==> same_entries(a.rows[s], b.rows[s]),
        a.objective =~= b.objective,
        a.artificial =~= b.artificial,
        a.costs =~= b.costs,
        a.artificial_symbol == b.artificial_symbol,
        a.var_for_symbol =~= b.var_for_symbol,
        a.names =~= b.names,
        a.infeasible =~= b.infeasible,
        a.edits =~= b.edits,
    ensures
        a.snapshot() == b.snapshot(),
        a.snapshot().text(opts) == b.snapshot().text(opts),
{
    assert forall|s: Symbol| a.rows.contains_key(s) implies a.rows[s] == b.rows[s] by {
        assert(a.rows[s].cells =~= b.rows[s].cells);
    }
    assert(a == b);
}

/// The columns stand in display order: grouped by kind, and by id within a
/// kind. No two share a place.
pub proof fn law_columns_are_in_display_order(sys: SystemModel, i: int, j: int)
    requires
        sys.is_finite(),
        0 <= i < j < sys.snapshot().columns.len(),
    ensures
        ({
            let t = sys.snapshot();
            let a = kind_rank(t.columns[i].kind);
            let b = kind_rank(t.columns[j].kind);
            a < b || (a == b && t.column_ids[i] < t.column_ids[j])
        }),
{
    let list = sys.column_symbols();
    law_listing(sys.nonbasic(), sys.artificial_symbol);
    assert(symbol_le(sys.artificial_symbol)(list[i], list[j]));
}

/// The rows stand in display order too.
pub proof fn law_rows_are_in_display_order(sys: SystemModel, i: int, j: int)
    requires
        sys.is_finite(),
        0 <= i < j < sys.snapshot().rows.len(),
    ensures
        ({
            let t = sys.snapshot();
            let a = kind_rank(t.rows[i].kind);
            let b = kind_rank(t.rows[j].kind);
            a < b || (a == b && t.row_ids[i] < t.row_ids[j])
        }),
{
    let list = sys.row_symbols();
    law_listing(sys.rows.dom(), sys.artificial_symbol);
    assert(symbol_le(sys.artificial_symbol)(list[i], list[j]));
}

/// Every symbol that occurs somewhere has a column or a row, and not both. A
/// row belongs to each basic symbol.
pub proof fn law_every_symbol_is_shown_once(sys: SystemModel, s: Symbol)
    requires
        sys.is_finite(),
    ensures
        sys.column_symbols().contains(s) <==> sys.mentions(s) && !sys.rows.contains_key(s),
        sys.row_symbols().contains(s) <==> sys.rows.contains_key(s),
        sys.column_symbols().no_duplicates(),
        sys.row_symbols().no_duplicates(),
{
    law_listing(sys.nonbasic(), sys.artificial_symbol);
    law_listing(sys.rows.dom(), sys.artificial_symbol);
}

/// The row of a basic symbol shows its constant, and under each column the
/// coefficient of that column's symbol; zero where the row has none.
pub proof fn law_rows_show_the_dictionary(sys: SystemModel, i: int, j: int)
    requires
        sys.is_finite(),
        0 <= i < sys.snapshot().rows.len(),
        0 <= j < sys.snapshot().columns.len(),
    ensures
        ({
            let t = sys.snapshot();
            let b = sys.row_symbols()[i];
            let s = sys.column_symbols()[j];
            &&& sys.rows.contains_key(b)
            &&& t.rows[i].rhs == sys.rows[b].constant
            &&& t.rows[i].c_b == value_or_zero(sys.costs, b)
            &&& t.rows[i].infeasible == sys.infeasible.contains(b)
            &&& t.columns[j].cost == value_or_zero(sys.costs, s)
            &&& t.rows[i].coeffs[j] == value_or_zero(sys.rows[b].cells, s)
            &&& t.objective.reduced[j] == value_or_zero(sys.objective.cells, s)
        }),
{
    let b = sys.row_symbols()[i];
    law_every_symbol_is_shown_once(sys, b);
}

/// The names in a snapshot are those that `label_symbol` gives.
pub proof fn law_names_match_labels(sys: SystemModel)
    ensures
        forall|j: int|
            0 <= j < sys.snapshot().columns.len() ==> (#[trigger] sys.snapshot().columns[j]).name
                == symbol_text(
                sys.column_symbols()[j],
                symbol_kind(sys.column_symbols()[j], sys.artificial_symbol),
                sys.var_for_symbol,
                sys.names,
            ),
        forall|i: int|
            0 <= i < sys.snapshot().rows.len() ==> (#[trigger] sys.snapshot().rows[i]).basis
                == symbol_text(
                sys.row_symbols()[i],
                symbol_kind(sys.row_symbols()[i], sys.artificial_symbol),
                sys.var_for_symbol,
                sys.names,
            ),
{
}

/// The `Artificial` label is exact: it is on the artificial variable and on
/// nothing else, so without one it does not occur.
pub proof fn law_artificial_label_is_exact(sys: SystemModel)
    ensures
        forall|j: int|
            0 <= j < sys.snapshot().columns.len() ==> ((
            #[trigger] sys.snapshot().columns[j]).kind == SymbolKind::Artificial
                <==> sys.artificial_symbol == Some(sys.column_symbols()[j])),
        forall|i: int|
            0 <= i < sys.snapshot().rows.len() ==> ((#[trigger] sys.snapshot().rows[i]).kind
                == SymbolKind::Artificial <==> sys.artificial_symbol == Some(
                sys.row_symbols()[i],
            )),
{
}

/// Exactly the external columns are listed as nonbasic externals.
pub proof fn law_nonbasic_externals_are_complete(sys: SystemModel, name: Seq<char>)
    ensures
        sys.snapshot().nonbasic_externals.contains(name) <==> exists|j: int|
            0 <= j < sys.snapshot().columns.len() && (
            #[trigger] sys.snapshot().columns[j]).kind == SymbolKind::External
                && sys.snapshot().columns[j].name == name,
        sorted_by(sys.snapshot().nonbasic_externals, alphabetical()),
{
    broadcast use vstd::seq_lib::group_to_multiset_ensures;

    let columns = sys.columns();
    let p = is_external();
    let kept = columns.filter(p);
    let names = external_names(columns);
    law_alphabetical_order_is_total();
    names.lemma_sort_by_ensures(alphabetical());
    assert(names.contains(name) <==> names.to_multiset().count(name) > 0);
    if names.contains(name) {
        let k = choose|k: int| 0 <= k < names.len() && names[k] == name;
        let c = kept[k];
        columns.lemma_filter_contains_rev(p, c);
        let j = choose|j: int| 0 <= j < columns.len() && columns[j] == c;
    }
    if exists|j: int|
        0 <= j < columns.len() && (#[trigger] columns[j]).kind == SymbolKind::External
            && columns[j].name == name {
        let j = choose|j: int|
            0 <= j < columns.len() && (#[trigger] columns[j]).kind == SymbolKind::External
                && columns[j].name == name;
        let c = columns[j];
        columns.lemma_filter_contains(p, j);
        let k = choose|k: int| 0 <= k < kept.len() && kept[k] == c;
        assert(names[k] == name);
    }
}

/// Symbols of a system that have the same id are the same.
pub open spec fn ids_are_unique(sys: SystemModel) -> bool {
    forall|a: Symbol, b: Symbol|
        (sys.mentions(a) || sys.rows.contains_key(a)) && (sys.mentions(b)
            || sys.rows.contains_key(b)) && #[trigger] a.0 == #[trigger] b.0 ==> a == b
}

/// An id that occurs once is found where it is.
proof fn lemma_found(list: Seq<Symbol>, s: Symbol) -> (i: usize)
    requires
        list.len() <= usize::MAX,
        list.contains(s),
        forall|k: int, l: int|
            0 <= k < l < list.len() ==> (#[trigger] list[k]).0 != (#[trigger] list[l]).0,
    ensures
        i < list.len(),
        list[i as int] == s,
        first_place(list.map_values(|x: Symbol| x.0), s.0) == Some(i),
{
    let ids = list.map_values(|x: Symbol| x.0);
    let p = choose|p: int| 0 <= p < list.len() && list[p] == s;
    let i = p as usize;
    assert(is_first_place(ids, s.0, i));
    i
}

/// Where ids are unique, so are those of the symbols in a listing.
proof fn lemma_distinct_ids(sys: SystemModel)
    requires
        sys.is_finite(),
        ids_are_unique(sys),
    ensures
        forall|k: int, l: int|
            0 <= k < l < sys.column_symbols().len() ==> (#[trigger] sys.column_symbols()[k]).0 != (
            #[trigger] sys.column_symbols()[l]).0,
        forall|k: int, l: int|
            0 <= k < l < sys.row_symbols().len() ==> (#[trigger] sys.row_symbols()[k]).0 != (
            #[trigger] sys.row_symbols()[l]).0,
{
    let cols = sys.column_symbols();
    let rows = sys.row_symbols();
    assert forall|k: int, l: int| 0 <= k < l < cols.len() implies (#[trigger] cols[k]).0 != (
    #[trigger] cols[l]).0 by {
        law_every_symbol_is_shown_once(sys, cols[k]);
        law_every_symbol_is_shown_once(sys, cols[l]);
    }
    assert forall|k: int, l: int| 0 <= k < l < rows.len() implies (#[trigger] rows[k]).0 != (
    #[trigger] rows[l]).0 by {
        law_every_symbol_is_shown_once(sys, rows[k]);
        law_every_symbol_is_shown_once(sys, rows[l]);
    }
}

/// The pivot that is marked by the ids of its symbols is the one meant: the
/// marked column is the entering symbol's and the marked row the leaving
/// symbol's, and the pivot element is that row's coefficient of the entering
/// symbol. The snapshot is still the one before the pivot.
pub proof fn law_marked_pivot_is_the_one_meant(
    sys: SystemModel,
    entering: Symbol,
    leaving: Symbol,
    dual: bool,
)
    requires
        sys.is_finite(),
        ids_are_unique(sys),
        sys.column_symbols().len() <= usize::MAX,
        sys.row_symbols().len() <= usize::MAX,
        sys.nonbasic().contains(entering),
        sys.rows.contains_key(leaving),
    ensures
        ({
            let before = sys.snapshot();
            let t = if dual {
                before.with_dual_pivot(entering.0, leaving.0)
            } else {
                before.with_primal_pivot(entering.0, leaving.0)
            };
            &&& t.pivot_col is Some
            &&& t.pivot_row is Some
            &&& t.pivot_col->0 < t.columns.len()
            &&& t.pivot_row->0 < t.rows.len()
            &&& t.column_ids[t.pivot_col->0 as int] == entering.0
            &&& t.row_ids[t.pivot_row->0 as int] == leaving.0
            &&& t.columns[t.pivot_col->0 as int].name == sys.name(entering)
            &&& t.rows[t.pivot_row->0 as int].basis == sys.name(leaving)
            &&& t.pivot_element() == Some(value_or_zero(sys.rows[leaving].cells, entering))
        }),
{
    law_every_symbol_is_shown_once(sys, entering);
    law_every_symbol_is_shown_once(sys, leaving);
    lemma_distinct_ids(sys);
    lemma_found(sys.column_symbols(), entering);
    lemma_found(sys.row_symbols(), leaving);
}

/// After the minimum-ratio test, a row has a ratio if and only if it can
/// leave: its basis is not External and its coefficient in the entering column
/// is negative.
pub proof fn law_only_rows_that_can_leave_have_ratios(t: TableauModel, entering: int, i: int)
    requires
        0 <= i < t.rows.len(),
    ensures
        t.with_ratios(entering).rows[i].ratio is Some <==> t.rows[i].kind != SymbolKind::External
            && less(t.rows[i].coeffs[entering], whole(0)),
{
}

/// After the dual ratio test, a column has a ratio if and only if it can
/// enter: it is not a dummy and its coefficient in the leaving row is positive.
pub proof fn law_only_columns_that_can_enter_have_dual_ratios(
    t: TableauModel,
    leaving_row: int,
    j: int,
)
    requires
        0 <= j < t.columns.len(),
    ensures
        t.with_dual_ratios(leaving_row).dual_ratios->0[j] is Some <==> t.columns[j].kind
            != SymbolKind::Dummy && less(whole(0), t.rows[leaving_row].coeffs[j]),
{
}

/// Marking a pivot and running the ratio tests keep the parts of a snapshot
/// together, and change nothing but the marks and the ratios.
pub proof fn law_marks_keep_the_rest(t: TableauModel, entering_id: usize, leaving_id: usize)
    requires
        t.wf(),
        t.columns.len() <= usize::MAX,
        t.rows.len() <= usize::MAX,
    ensures
        ({
            let a = t.with_primal_pivot(entering_id, leaving_id);
            let b = t.with_dual_pivot(entering_id, leaving_id);
            &&& a.wf() && b.wf()
            &&& a.objective_value() == t.objective_value()
            &&& b.objective_value() == t.objective_value()
            &&& a.column_totals() == t.column_totals()
            &&& b.column_totals() == t.column_totals()
            &&& a.optimal() == t.optimal()
            &&& b.optimal() == t.optimal()
            &&& a.columns == t.columns && b.columns == t.columns
            &&& a.objective == t.objective && b.objective == t.objective
            &&& a.phase_one == t.phase_one && b.phase_one == t.phase_one
            &&& a.edits == t.edits && b.edits == t.edits
            &&& b.rows == t.rows
            &&& a.dual_ratios == t.dual_ratios
            &&& forall|i: int|
                0 <= i < t.rows.len() ==> #[trigger] a.rows[i] == (RowModel {
                    ratio: a.rows[i].ratio,
                    ..t.rows[i]
                })
        }),
{
    let a = t.with_primal_pivot(entering_id, leaving_id);
    let b = t.with_dual_pivot(entering_id, leaving_id);
    assert(a.rows.map_values(|r: RowModel| product(r.c_b, r.rhs)) =~= t.rows.map_values(
        |r: RowModel| product(r.c_b, r.rhs),
    ));
    assert forall|j: int| 0 <= j < t.columns.len() implies a.column_total(j) == t.column_total(
        j,
    ) by {
        assert(a.rows.map_values(|r: RowModel| product(r.c_b, negation(r.coeffs[j])))
            =~= t.rows.map_values(|r: RowModel| product(r.c_b, negation(r.coeffs[j]))));
    }
    assert(forall|j: int| a.may_enter(j) == t.may_enter(j));
    assert(forall|j: int| b.may_enter(j) == t.may_enter(j));
}

/// Dummy columns are exempt from the optimality test: whatever their reduced
/// costs, the tableau is optimal if no other column may enter.
pub proof fn law_dummy_columns_are_exempt(t: TableauModel, reduced: Seq<Double>)
    requires
        t.wf(),
        reduced.len() == t.columns.len(),
        forall|j: int|
            0 <= j < t.columns.len() && t.columns[j].kind != SymbolKind::Dummy
                ==> #[trigger] reduced[j] == t.objective.reduced[j],
    ensures
        (TableauModel { objective: ObjectiveModel { reduced, ..t.objective }, ..t }).optimal()
            == t.optimal(),
{
    let o = TableauModel { objective: ObjectiveModel { reduced, ..t.objective }, ..t };
    assert forall|j: int| 0 <= j < t.columns.len() implies #[trigger] o.may_enter(j)
        == t.may_enter(j) by {}
    if o.optimal() {
        assert forall|j: int| 0 <= j < t.columns.len() implies !#[trigger] t.may_enter(j) by {
            assert(!o.may_enter(j));
        }
    }
}

/// The objective value and the column totals come from the basis, and do not
/// depend on what the objective row carries.
pub proof fn law_objective_value_ignores_the_objective_row(
    t: TableauModel,
    objective: ObjectiveModel,
)
    ensures
        ({
            let o = TableauModel { objective, ..t };
            &&& o.objective_value() == t.objective_value()
            &&& o.column_totals() == t.column_totals()
        }),
{
}

} // verus!
