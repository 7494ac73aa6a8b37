//! What a snapshot shows of the system that it was taken of.
use vstd::prelude::*;

use crate::double::Double;
use crate::laws::law_every_symbol_is_shown_once;
use crate::order::{alphabetical, law_alphabetical_order_is_total, text_le};
use crate::pivot_laws::lemma_zero;
use crate::snapshot::{
    external_names, is_external, system_model, value_or_zero, Row, SystemModel,
};
use crate::symbol::{kind_rank, symbol_kind, symbol_text, Symbol, SymbolKind, SymbolType, Variable};
use crate::tableau::{ColumnModel, EditView, Tableau};
use crate::text::nat_text;

verus! {

/// A symbol is shown as artificial if it is the artificial variable, and by
/// its type otherwise.
pub proof fn law_kinds(s: Symbol, artificial: Option<Symbol>)
    ensures
        artificial == Some(s) ==> symbol_kind(s, artificial) == SymbolKind::Artificial,
        artificial != Some(s) ==> symbol_kind(s, artificial) == match s.1 {
            SymbolType::External => SymbolKind::External,
            SymbolType::Slack => SymbolKind::Slack,
            SymbolType::Error => SymbolKind::Error,
            SymbolType::Dummy => SymbolKind::Dummy,
            SymbolType::Invalid => SymbolKind::Invalid,
        },
{
}

/// The kinds are shown External first, then Slack, Error, Dummy and
/// Artificial, and Invalid last.
pub proof fn law_order_of_kinds()
    ensures
        kind_rank(SymbolKind::External) == 0,
        kind_rank(SymbolKind::Invalid) == 5,
        kind_rank(SymbolKind::External) < kind_rank(SymbolKind::Slack),
        kind_rank(SymbolKind::Slack) < kind_rank(SymbolKind::Error),
        kind_rank(SymbolKind::Error) < kind_rank(SymbolKind::Dummy),
        kind_rank(SymbolKind::Dummy) < kind_rank(SymbolKind::Artificial),
        kind_rank(SymbolKind::Artificial) < kind_rank(SymbolKind::Invalid),
{
}

/// An external symbol has the name of its variable, where that has one. Every
/// other is named by the letter of its kind and its id, and an invalid one by
/// a question mark.
pub proof fn law_labels(
    s: Symbol,
    kind: SymbolKind,
    var_for_symbol: Map<Symbol, Variable>,
    names: Map<Variable, Seq<char>>,
)
    ensures
        ({
            let label = symbol_text(s, kind, var_for_symbol, names);
            let named = var_for_symbol.contains_key(s) && names.contains_key(var_for_symbol[s]);
            let id = nat_text(s.0 as nat);
            match kind {
                SymbolKind::External => label == if named {
                    names[var_for_symbol[s]]
                } else {
                    seq!['x'] + id
                },
                SymbolKind::Slack => label == seq!['s'] + id,
                SymbolKind::Error => label == seq!['e'] + id,
                SymbolKind::Dummy => label == seq!['d'] + id,
                SymbolKind::Artificial => label == seq!['a'] + id,
                SymbolKind::Invalid => label == seq!['?'],
            }
        }),
{
    reveal_strlit("x");
    reveal_strlit("s");
    reveal_strlit("e");
    reveal_strlit("d");
    reveal_strlit("a");
    reveal_strlit("?");
    assert("x"@ =~= seq!['x']);
    assert("s"@ =~= seq!['s']);
    assert("e"@ =~= seq!['e']);
    assert("d"@ =~= seq!['d']);
    assert("a"@ =~= seq!['a']);
    assert("?"@ =~= seq!['?']);
}

/// What a symbol has no entry for is zero.
pub proof fn law_missing_entries_are_zero(values: Map<Symbol, Double>, s: Symbol)
    ensures
        values.contains_key(s) ==> value_or_zero(values, s) == values[s],
        !values.contains_key(s) ==> value_or_zero(values, s) == (Double { bits: 0 }),
{
    lemma_zero();
}

/// There is one column for each symbol that occurs in a row, in the objective
/// or in the phase-I objective and is not basic, and for no other.
pub proof fn law_columns_are_the_nonbasic_symbols(sys: SystemModel, s: Symbol)
    requires
        sys.is_finite(),
    ensures
        ({
            let t = sys.snapshot();
            let list = sys.column_symbols();
            &&& t.columns.len() == list.len()
            &&& t.column_ids.len() == list.len()
            &&& list.no_duplicates()
            &&& list.contains(s) <==> !sys.rows.contains_key(s) && {
                ||| exists|b: Symbol|
                    #[trigger] sys.rows.contains_key(b) && sys.rows[b].cells.contains_key(s)
                ||| sys.objective.cells.contains_key(s)
                ||| sys.artificial is Some && sys.artificial->0.cells.contains_key(s)
            }
        }),
{
    law_every_symbol_is_shown_once(sys, s);
}

/// There is one row for each basic symbol, and for no other.
pub proof fn law_rows_are_the_basic_symbols(sys: SystemModel, s: Symbol)
    requires
        sys.is_finite(),
    ensures
        ({
            let t = sys.snapshot();
            let list = sys.row_symbols();
            &&& t.rows.len() == list.len()
            &&& t.row_ids.len() == list.len()
            &&& list.no_duplicates()
            &&& list.contains(s) <==> sys.rows.contains_key(s)
        }),
{
    law_every_symbol_is_shown_once(sys, s);
}

/// A column shows the id, the kind and the label of its symbol, and its cost:
/// zero where it has none.
pub proof fn law_column_shows_its_symbol(sys: SystemModel, j: int)
    requires
        0 <= j < sys.column_symbols().len(),
    ensures
        ({
            let t = sys.snapshot();
            let s = sys.column_symbols()[j];
            let c = t.columns[j];
            &&& t.column_ids[j] == s.0
            &&& c.kind == symbol_kind(s, sys.artificial_symbol)
            &&& c.name == symbol_text(
                s,
                symbol_kind(s, sys.artificial_symbol),
                sys.var_for_symbol,
                sys.names,
            )
            &&& sys.costs.contains_key(s) ==> c.cost == sys.costs[s]
            &&& !sys.costs.contains_key(s) ==> c.cost == (Double { bits: 0 })
        }),
{
    lemma_zero();
}

/// A row shows the id, the kind and the label of its symbol, its cost, its
/// constant, and whether it waits for the dual simplex. It has no ratio yet.
pub proof fn law_row_shows_its_symbol(sys: SystemModel, i: int)
    requires
        sys.is_finite(),
        0 <= i < sys.row_symbols().len(),
    ensures
        ({
            let t = sys.snapshot();
            let s = sys.row_symbols()[i];
            let r = t.rows[i];
            &&& sys.rows.contains_key(s)
            &&& t.row_ids[i] == s.0
            &&& r.kind == symbol_kind(s, sys.artificial_symbol)
            &&& r.basis == symbol_text(
                s,
                symbol_kind(s, sys.artificial_symbol),
                sys.var_for_symbol,
                sys.names,
            )
            &&& sys.costs.contains_key(s) ==> r.c_b == sys.costs[s]
            &&& !sys.costs.contains_key(s) ==> r.c_b == (Double { bits: 0 })
            &&& r.rhs == sys.rows[s].constant
            &&& r.infeasible <==> sys.infeasible.contains(s)
            &&& r.ratio is None
            &&& r.coeffs.len() == t.columns.len()
        }),
{
    lemma_zero();
    law_every_symbol_is_shown_once(sys, sys.row_symbols()[i]);
}

/// Where a row and a column meet stands the row's coefficient of the column's
/// symbol, and zero where it has none.
pub proof fn law_cells_are_coefficients(sys: SystemModel, i: int, j: int)
    requires
        0 <= i < sys.row_symbols().len(),
        0 <= j < sys.column_symbols().len(),
    ensures
        ({
            let cells = sys.rows[sys.row_symbols()[i]].cells;
            let s = sys.column_symbols()[j];
            let shown = sys.snapshot().rows[i].coeffs[j];
            &&& cells.contains_key(s) ==> shown == cells[s]
            &&& !cells.contains_key(s) ==> shown == (Double { bits: 0 })
        }),
{
    lemma_zero();
}

/// The objective row carries the objective's constant, and shows under each
/// column the objective's coefficient of its symbol, zero where it has none.
pub proof fn law_objective_row(sys: SystemModel, j: int)
    requires
        0 <= j < sys.column_symbols().len(),
    ensures
        ({
            let cells = sys.objective.cells;
            let s = sys.column_symbols()[j];
            let shown = sys.snapshot().objective.reduced[j];
            &&& cells.contains_key(s) ==> shown == cells[s]
            &&& !cells.contains_key(s) ==> shown == (Double { bits: 0 })
        }),
{
    lemma_zero();
}

/// There is a phase-I objective exactly while the system has one. It shows
/// under each column the coefficient of the column's symbol in that row, and
/// not in the objective; zero where it has none.
pub proof fn law_phase_one_row(sys: SystemModel, j: int)
    requires
        0 <= j < sys.column_symbols().len(),
    ensures
        sys.snapshot().phase_one is Some <==> sys.artificial is Some,
        sys.artificial is Some ==> {
            let cells = sys.artificial->0.cells;
            let s = sys.column_symbols()[j];
            let shown = sys.snapshot().phase_one->0.reduced[j];
            &&& cells.contains_key(s) ==> shown == cells[s]
            &&& !cells.contains_key(s) ==> shown == (Double { bits: 0 })
        },
{
    lemma_zero();
}

/// The constants of both objectives are carried as they are, the edits are
/// those of the system, and a new snapshot has no marks and no ratios.
pub proof fn law_new_snapshots(sys: SystemModel)
    ensures
        ({
            let t = sys.snapshot();
            &&& t.objective.carried_constant == sys.objective.constant
            &&& t.objective.reduced.len() == t.columns.len()
            &&& match sys.artificial {
                Some(a) => t.phase_one is Some && t.phase_one->0.carried_constant == a.constant
                    && t.phase_one->0.reduced.len() == t.columns.len(),
                None => t.phase_one is None,
            }
            &&& t.edits == sys.edits
            &&& t.pivot_col is None
            &&& t.pivot_row is None
            &&& t.dual_ratios is None
        }),
{
}

/// The nonbasic externals are the names of the external columns, each as often
/// as it occurs there, in alphabetical order.
pub proof fn law_nonbasic_externals_are_listed(sys: SystemModel)
    ensures
        sys.snapshot().nonbasic_externals.to_multiset() == sys.snapshot().columns.filter(
            |c: ColumnModel| c.kind == SymbolKind::External,
        ).map_values(|c: ColumnModel| c.name).to_multiset(),
        forall|k: int, l: int|
            0 <= k < l < sys.snapshot().nonbasic_externals.len() ==> text_le(
                #[trigger] sys.snapshot().nonbasic_externals[k],
                #[trigger] sys.snapshot().nonbasic_externals[l],
            ),
{
    let names = external_names(sys.columns());
    law_alphabetical_order_is_total();
    names.lemma_sort_by_ensures(alphabetical());
    assert(is_external() =~= (|c: ColumnModel| c.kind == SymbolKind::External));
    let list = sys.snapshot().nonbasic_externals;
    assert forall|k: int, l: int| 0 <= k < l < list.len() implies text_le(
        #[trigger] list[k],
        #[trigger] list[l],
    ) by {
        assert(alphabetical()(list[k], list[l]));
    }
}

/// The alphabetical order goes by the first character that differs, and a text
/// comes before those that it begins.
pub proof fn law_alphabetical_order(a: Seq<char>, b: Seq<char>, k: int)
    requires
        0 <= k <= a.len(),
        k <= b.len(),
        forall|i: int| 0 <= i < k ==> a[i] == b[i],
    ensures
        k == a.len() ==> text_le(a, b),
        k < a.len() && k < b.len() && a[k] < b[k] ==> text_le(a, b) && !text_le(b, a),
        k < a.len() && k == b.len() ==> !text_le(a, b),
    decreases k,
{
    if k > 0 {
        let c = a.drop_first();
        let d = b.drop_first();
        assert forall|i: int| 0 <= i < k - 1 implies c[i] == d[i] by {
            assert(a[i + 1] == b[i + 1]);
        }
        law_alphabetical_order(c, d, k - 1);
        assert(a[0] == b[0]);
    }
}

/// The system that a snapshot is taken of holds what its parts say: their
/// entries, their constants, the names, the symbols that wait, and the edits.
pub proof fn law_system_holds_its_parts(
    rows: Map<Symbol, Row>,
    objective: Row,
    artificial: Option<&Row>,
    costs: Map<Symbol, Double>,
    artificial_symbol: Option<Symbol>,
    var_for_symbol: Map<Symbol, Variable>,
    names: Map<Variable, String>,
    infeasible: Seq<Symbol>,
    edits: Seq<EditView>,
    s: Symbol,
    v: Variable,
    k: int,
)
    ensures
        ({
            let sys = system_model(
                rows,
                objective,
                artificial,
                costs,
                artificial_symbol,
                var_for_symbol,
                names,
                infeasible,
                edits,
            );
            &&& sys.rows.contains_key(s) <==> rows.contains_key(s)
            &&& rows.contains_key(s) ==> sys.rows[s].cells == rows[s].cells@ && sys.rows[s].constant
                == rows[s].constant
            &&& sys.objective.cells == objective.cells@
            &&& sys.objective.constant == objective.constant
            &&& match artificial {
                Some(a) => sys.artificial is Some && sys.artificial->0.cells == a.cells@
                    && sys.artificial->0.constant == a.constant,
                None => sys.artificial is None,
            }
            &&& sys.costs == costs
            &&& sys.artificial_symbol == artificial_symbol
            &&& sys.var_for_symbol == var_for_symbol
            &&& sys.names.contains_key(v) <==> names.contains_key(v)
            &&& names.contains_key(v) ==> sys.names[v] == names[v]@
            &&& sys.infeasible.contains(s) <==> exists|i: int|
                0 <= i < infeasible.len() && #[trigger] infeasible[i] == s
            &&& sys.edits.len() == edits.len()
            &&& 0 <= k < edits.len() ==> sys.edits[k].name == edits[k].name@ && sys.edits[k].value
                == edits[k].value && sys.edits[k].strength == edits[k].strength
        }),
{
}

/// What a snapshot says is what its fields hold.
pub proof fn law_snapshots_say_their_fields(t: Tableau, i: int, j: int, k: int)
    ensures
        t@.columns.len() == t.columns@.len(),
        0 <= j < t.columns@.len() ==> t@.columns[j].name == t.columns@[j].name@
            && t@.columns[j].kind == t.columns@[j].kind && t@.columns[j].cost
            == t.columns@[j].cost,
        t@.rows.len() == t.rows@.len(),
        0 <= i < t.rows@.len() ==> {
            let row = t.rows@[i];
            &&& t@.rows[i].basis == row.basis@
            &&& t@.rows[i].kind == row.kind
            &&& t@.rows[i].c_b == row.c_b
            &&& t@.rows[i].coeffs == row.coeffs@
            &&& t@.rows[i].rhs == row.rhs
            &&& t@.rows[i].infeasible == row.infeasible
            &&& t@.rows[i].ratio == row.ratio
        },
        t@.objective.reduced == t.objective.reduced@,
        t@.objective.carried_constant == t.objective.carried_constant,
        match t.phase_one {
            Some(p) => t@.phase_one is Some && t@.phase_one->0.reduced == p.reduced@
                && t@.phase_one->0.carried_constant == p.carried_constant,
            None => t@.phase_one is None,
        },
        t@.edits.len() == t.edits@.len(),
        0 <= k < t.edits@.len() ==> t@.edits[k].name == t.edits@[k].name@ && t@.edits[k].value
            == t.edits@[k].value && t@.edits[k].strength == t.edits@[k].strength,
        t@.nonbasic_externals.len() == t.nonbasic_externals@.len(),
        0 <= k < t.nonbasic_externals@.len() ==> t@.nonbasic_externals[k]
            == t.nonbasic_externals@[k]@,
        t@.pivot_col == t.pivot_col,
        t@.pivot_row == t.pivot_row,
        match t.dual_ratios {
            Some(d) => t@.dual_ratios == Some(d@),
            None => t@.dual_ratios is None,
        },
        t@.column_ids == t.column_ids@,
        t@.row_ids == t.row_ids@,
{
}

} // verus!
