//! Taking a snapshot of a solver's system.
use vstd::prelude::*;
use vstd::relations::sorted_by;

use crate::double::{whole, Double};
use crate::order::{
    alphabetical, insert_symbol, insert_text, lemma_listing_unique, lemma_sorted_texts, listing,
};
use crate::symbol::{
    kind_of, name_texts, symbol_kind, symbol_le, symbol_name, symbol_text, Symbol, SymbolKind,
    Variable,
};
use crate::table::Table;
use crate::tableau::{
    column_models, edit_models, ColumnHeader, ColumnModel, EditModel, EditView, ObjectiveModel,
    ObjectiveRow, RowModel, Tableau, TableauModel, TableauRow,
};
use crate::text::texts;

verus! {

/// A row of a solver in dictionary (solved) form:
/// `basic = constant + sum(cells[j] * nonbasic_j)`.
#[derive(Clone, Debug)]
pub struct Row {
    pub cells: Table<Symbol, Double>,
    pub constant: Double,
}

/// What a row of a solver says.
#[verifier::ext_equal]
pub struct RowData {
    pub cells: Map<Symbol, Double>,
    pub constant: Double,
}

impl View for Row {
    type V = RowData;

    open spec fn view(&self) -> RowData {
        RowData { cells: self.cells@, constant: self.constant }
    }
}

/// The value of a key, or zero.
pub open spec fn value_or_zero(values: Map<Symbol, Double>, s: Symbol) -> Double {
    if values.contains_key(s) {
        values[s]
    } else {
        whole(0)
    }
}

/// What a solver's system says, at one moment.
#[verifier::ext_equal]
pub struct SystemModel {
    /// The rows, by their basic symbols.
    pub rows: Map<Symbol, RowData>,
    pub objective: RowData,
    /// The phase-I objective, while there is one.
    pub artificial: Option<RowData>,
    /// Objective coefficients.
    pub costs: Map<Symbol, Double>,
    /// The artificial variable, while there is one.
    pub artificial_symbol: Option<Symbol>,
    pub var_for_symbol: Map<Symbol, Variable>,
    pub names: Map<Variable, Seq<char>>,
    /// The basic symbols of the rows that wait for the dual simplex.
    pub infeasible: Set<Symbol>,
    pub edits: Seq<EditModel>,
}

impl SystemModel {
    /// A symbol occurs in a row or an objective.
    pub open spec fn mentions(self, s: Symbol) -> bool {
        ||| exists|b: Symbol|
            #[trigger] self.rows.contains_key(b) && self.rows[b].cells.contains_key(s)
        ||| self.objective.cells.contains_key(s)
        ||| self.artificial is Some && self.artificial->0.cells.contains_key(s)
    }

    /// The symbols that occur somewhere and are not basic.
    pub open spec fn nonbasic(self) -> Set<Symbol> {
        Set::new(|s: Symbol| self.mentions(s) && !self.rows.contains_key(s))
    }

    /// The system has finitely many symbols.
    pub open spec fn is_finite(self) -> bool {
        self.nonbasic().finite() && self.rows.dom().finite()
    }

    /// The symbols of the columns.
    pub open spec fn column_symbols(self) -> Seq<Symbol> {
        listing(self.nonbasic(), self.artificial_symbol)
    }

    /// The symbols of the rows.
    pub open spec fn row_symbols(self) -> Seq<Symbol> {
        listing(self.rows.dom(), self.artificial_symbol)
    }

    /// The kind that a symbol is shown as.
    pub open spec fn kind(self, s: Symbol) -> SymbolKind {
        symbol_kind(s, self.artificial_symbol)
    }

    /// The name that a symbol is shown by.
    pub open spec fn name(self, s: Symbol) -> Seq<char> {
        symbol_text(s, self.kind(s), self.var_for_symbol, self.names)
    }

    /// The column of a nonbasic symbol.
    pub open spec fn column(self, s: Symbol) -> ColumnModel {
        ColumnModel {
            name: self.name(s),
            kind: self.kind(s),
            cost: value_or_zero(self.costs, s),
        }
    }

    /// The coefficients of a row, one for each column.
    pub open spec fn spread(self, cells: Map<Symbol, Double>) -> Seq<Double> {
        self.column_symbols().map_values(|c: Symbol| value_or_zero(cells, c))
    }

    /// The row of a basic symbol.
    pub open spec fn row(self, s: Symbol) -> RowModel {
        RowModel {
            basis: self.name(s),
            kind: self.kind(s),
            c_b: value_or_zero(self.costs, s),
            coeffs: self.spread(self.rows[s].cells),
            rhs: self.rows[s].constant,
            infeasible: self.infeasible.contains(s),
            ratio: None,
        }
    }

    /// An objective over the columns.
    pub open spec fn objective_row(self, row: RowData) -> ObjectiveModel {
        ObjectiveModel { reduced: self.spread(row.cells), carried_constant: row.constant }
    }

    /// The columns.
    pub open spec fn columns(self) -> Seq<ColumnModel> {
        self.column_symbols().map_values(|s: Symbol| self.column(s))
    }

    /// The names of the external variables that are not basic, in
    /// alphabetical order.
    pub open spec fn nonbasic_externals(self) -> Seq<Seq<char>> {
        external_names(self.columns()).sort_by(alphabetical())
    }

    /// The snapshot of the system.
    pub open spec fn snapshot(self) -> TableauModel {
        TableauModel {
            columns: self.columns(),
            rows: self.row_symbols().map_values(|s: Symbol| self.row(s)),
            objective: self.objective_row(self.objective),
            phase_one: match self.artificial {
                Some(a) => Some(self.objective_row(a)),
                None => None,
            },
            edits: self.edits,
            nonbasic_externals: self.nonbasic_externals(),
            pivot_col: None,
            pivot_row: None,
            dual_ratios: None,
            column_ids: self.column_symbols().map_values(|s: Symbol| s.0),
            row_ids: self.row_symbols().map_values(|s: Symbol| s.0),
        }
    }
}

/// Whether a column is external.
pub open spec fn is_external() -> spec_fn(ColumnModel) -> bool {
    |c: ColumnModel| c.kind == SymbolKind::External
}

/// The names of the external columns, from left to right.
pub open spec fn external_names(columns: Seq<ColumnModel>) -> Seq<Seq<char>> {
    columns.filter(is_external()).map_values(|c: ColumnModel| c.name)
}

/// What the rows of a solver say.
pub open spec fn row_data(rows: Map<Symbol, Row>) -> Map<Symbol, RowData> {
    rows.map_values(|r: Row| r@)
}

/// What a phase-I objective says, if there is one.
pub open spec fn optional_data(row: Option<&Row>) -> Option<RowData> {
    match row {
        Some(r) => Some(r@),
        None => None,
    }
}

impl Row {
    /// The coefficient of a symbol; zero where the row has none.
    pub fn coefficient_for(&self, s: Symbol) -> (r: Double)
        ensures
            r == value_or_zero(self@.cells, s),
    {
        lookup(&self.cells, s)
    }
}

/// The value of a symbol, or zero.
fn lookup(values: &Table<Symbol, Double>, s: Symbol) -> (r: Double)
    ensures
        r == value_or_zero(values@, s),
{
    match values.get(s) {
        Some(v) => *v,
        None => Double::from_u64(0),
    }
}

/// Adds the symbols of a row that are not basic to those in display order.
fn collect(
    list: &mut Vec<Symbol>,
    cells: &Table<Symbol, Double>,
    rows: &Table<Symbol, Row>,
    artificial: Option<Symbol>,
)
    requires
        old(list)@.no_duplicates(),
        sorted_by(old(list)@, symbol_le(artificial)),
    ensures
        final(list)@.no_duplicates(),
        sorted_by(final(list)@, symbol_le(artificial)),
        forall|x: Symbol|
            #[trigger] final(list)@.contains(x) <==> old(list)@.contains(x) || (
            cells@.contains_key(x) && !rows@.contains_key(x)),
{
    let ghost before = list@;
    let n: usize = cells.len();
    let mut i: usize = 0;
    while i < n
        invariant
            i <= n,
            n == cells.keys().len(),
            list@.no_duplicates(),
            sorted_by(list@, symbol_le(artificial)),
            forall|x: Symbol| #[trigger]
                list@.contains(x) <==> before.contains(x) || (!rows@.contains_key(x) && exists|
                    k: int,
                |
                    0 <= k < i && #[trigger] cells.keys()[k] == x),
        decreases n - i,
    {
        let (s, _) = cells.entry(i);
        if rows.get(s).is_none() {
            insert_symbol(list, s, artificial);
        }
        i = i + 1;
    }
}

/// The nonbasic symbols of a system, in display order.
fn list_columns(
    rows: &Table<Symbol, Row>,
    objective: &Row,
    artificial: Option<&Row>,
    artificial_symbol: Option<Symbol>,
) -> (r: Vec<Symbol>)
    ensures
        forall|sys: SystemModel|
            sys.rows == row_data(rows@) && sys.objective == objective@ && sys.artificial
                == optional_data(artificial) && sys.artificial_symbol == artificial_symbol ==> r@
                == #[trigger] sys.column_symbols() && sys.nonbasic().finite(),
{
    let mut list: Vec<Symbol> = Vec::new();
    let n: usize = rows.len();
    let mut i: usize = 0;
    while i < n
        invariant
            i <= n,
            n == rows.keys().len(),
            list@.no_duplicates(),
            sorted_by(list@, symbol_le(artificial_symbol)),
            forall|x: Symbol| #[trigger]
                list@.contains(x) <==> !rows@.contains_key(x) && exists|k: int|
                    0 <= k < i && rows@[#[trigger] rows.keys()[k]]@.cells.contains_key(x),
        decreases n - i,
    {
        let (_, row) = rows.entry(i);
        collect(&mut list, &row.cells, rows, artificial_symbol);
        i = i + 1;
    }
    let ghost in_rows = list@;
    collect(&mut list, &objective.cells, rows, artificial_symbol);
    if let Some(a) = artificial {
        collect(&mut list, &a.cells, rows, artificial_symbol);
    }
    proof {
        assert forall|sys: SystemModel|
            sys.rows == row_data(rows@) && sys.objective == objective@ && sys.artificial
                == optional_data(artificial) && sys.artificial_symbol
                == artificial_symbol implies list@ == #[trigger] sys.column_symbols()
            && sys.nonbasic().finite() by {
            assert forall|x: Symbol| #[trigger] list@.contains(x) <==> sys.nonbasic().contains(
                x,
            ) by {
                if in_rows.contains(x) {
                    let k = choose|k: int|
                        0 <= k < rows.keys().len() && rows@[#[trigger] rows.keys()[k]]@
                            .cells.contains_key(x);
                    let b = rows.keys()[k];
                    assert(sys.rows.contains_key(b) && sys.rows[b].cells.contains_key(x));
                }
            }
            lemma_listing_unique(list@, sys.nonbasic(), artificial_symbol);
        }
    }
    list
}

/// The basic symbols of a system, in display order.
fn list_rows(rows: &Table<Symbol, Row>, artificial_symbol: Option<Symbol>) -> (r: Vec<Symbol>)
    ensures
        r@ == listing(row_data(rows@).dom(), artificial_symbol),
        row_data(rows@).dom().finite(),
        forall|x: Symbol| #[trigger] r@.contains(x) <==> rows@.contains_key(x),
{
    let mut list: Vec<Symbol> = Vec::new();
    let n: usize = rows.len();
    let mut i: usize = 0;
    while i < n
        invariant
            i <= n,
            n == rows.keys().len(),
            list@.no_duplicates(),
            sorted_by(list@, symbol_le(artificial_symbol)),
            forall|x: Symbol| #[trigger]
                list@.contains(x) <==> exists|k: int|
                    0 <= k < i && #[trigger] rows.keys()[k] == x,
        decreases n - i,
    {
        let (b, _) = rows.entry(i);
        insert_symbol(&mut list, b, artificial_symbol);
        i = i + 1;
    }
    proof {
        lemma_listing_unique(list@, row_data(rows@).dom(), artificial_symbol);
    }
    list
}

/// The values of the given symbols, zero where there is none.
fn spread_cells(cells: &Table<Symbol, Double>, cols: &Vec<Symbol>) -> (r: Vec<Double>)
    ensures
        r@ == cols@.map_values(|c: Symbol| value_or_zero(cells@, c)),
{
    let mut out: Vec<Double> = Vec::new();
    let mut i: usize = 0;
    while i < cols.len()
        invariant
            i <= cols@.len(),
            out@.len() == i,
            forall|k: int| 0 <= k < i ==> #[trigger] out@[k] == value_or_zero(cells@, cols@[k]),
        decreases cols@.len() - i,
    {
        out.push(lookup(cells, cols[i]));
        i = i + 1;
    }
    out
}

/// The ids of the given symbols.
fn ids_of(list: &Vec<Symbol>) -> (r: Vec<usize>)
    ensures
        r@ == list@.map_values(|s: Symbol| s.0),
{
    let mut out: Vec<usize> = Vec::new();
    let mut i: usize = 0;
    while i < list.len()
        invariant
            i <= list@.len(),
            out@.len() == i,
            forall|k: int| 0 <= k < i ==> #[trigger] out@[k] == list@[k].0,
        decreases list@.len() - i,
    {
        out.push(list[i].0);
        i = i + 1;
    }
    out
}

/// Whether a symbol is among the given ones.
fn is_among(list: &[Symbol], s: Symbol) -> (r: bool)
    ensures
        r == list@.to_set().contains(s),
{
    let mut i: usize = 0;
    while i < list.len()
        invariant
            i <= list@.len(),
            forall|k: int| 0 <= k < i ==> list@[k] != s,
        decreases list@.len() - i,
    {
        if list[i] == s {
            return true;
        }
        i = i + 1;
    }
    false
}

/// The names of the external columns, in alphabetical order.
fn list_externals(columns: &Vec<ColumnHeader>) -> (r: Vec<String>)
    ensures
        texts(r@) == external_names(column_models(columns@)).sort_by(alphabetical()),
{
    let ghost all = column_models(columns@);
    let mut out: Vec<String> = Vec::new();
    let mut i: usize = 0;
    proof {
        reveal(Seq::filter);
        assert(texts(out@) =~= external_names(all.take(0)));
    }
    while i < columns.len()
        invariant
            i <= columns@.len(),
            all == column_models(columns@),
            sorted_by(texts(out@), alphabetical()),
            texts(out@).to_multiset() == external_names(all.take(i as int)).to_multiset(),
        decreases columns@.len() - i,
    {
        proof {
            reveal(Seq::filter);
            assert(all.take(i + 1).drop_last() =~= all.take(i as int));
        }
        if columns[i].kind == SymbolKind::External {
            let ghost name = columns@[i as int].name@;
            let ghost before = external_names(all.take(i as int));
            assert(external_names(all.take(i + 1)) =~= before.push(name));
            insert_text(&mut out, columns[i].name.clone());
            proof {
                vstd::seq_lib::to_multiset_build(before, name);
            }
        }
        i = i + 1;
    }
    proof {
        assert(all.take(i as int) =~= all);
        lemma_sorted_texts(texts(out@), external_names(all));
    }
    out
}

/// What the parts of a system say together.
pub open spec fn system_model(
    rows: Map<Symbol, Row>,
    objective: Row,
    artificial: Option<&Row>,
    costs: Map<Symbol, Double>,
    artificial_symbol: Option<Symbol>,
    var_for_symbol: Map<Symbol, Variable>,
    names: Map<Variable, String>,
    infeasible: Seq<Symbol>,
    edits: Seq<EditView>,
) -> SystemModel {
    SystemModel {
        rows: row_data(rows),
        objective: objective@,
        artificial: optional_data(artificial),
        costs,
        artificial_symbol,
        var_for_symbol,
        names: name_texts(names),
        infeasible: infeasible.to_set(),
        edits: edit_models(edits),
    }
}

/// Takes a snapshot of a system.
///
/// The columns are the symbols that occur somewhere and are not basic; the
/// rows are the basic symbols. Both stand in display order, whatever the order
/// in which the tables hold their entries.
pub fn build(
    rows: &Table<Symbol, Row>,
    objective: &Row,
    artificial: Option<&Row>,
    costs: &Table<Symbol, Double>,
    artificial_symbol: Option<Symbol>,
    var_for_symbol: &Table<Symbol, Variable>,
    names: &Table<Variable, String>,
    infeasible: &[Symbol],
    edits: Vec<EditView>,
) -> (r: Tableau)
    ensures
        ({
            let sys = system_model(
                rows@,
                *objective,
                artificial,
                costs@,
                artificial_symbol,
                var_for_symbol@,
                names@,
                infeasible@,
                edits@,
            );
            r@ == sys.snapshot() && sys.is_finite()
        }),
        r@.wf(),
{
    let ghost sys = system_model(
        rows@,
        *objective,
        artificial,
        costs@,
        artificial_symbol,
        var_for_symbol@,
        names@,
        infeasible@,
        edits@,
    );
    let cols: Vec<Symbol> = list_columns(rows, objective, artificial, artificial_symbol);
    let mut columns: Vec<ColumnHeader> = Vec::new();
    let mut j: usize = 0;
    while j < cols.len()
        invariant
            j <= cols@.len(),
            columns@.len() == j,
            sys.artificial_symbol == artificial_symbol,
            sys.var_for_symbol == var_for_symbol@,
            sys.names == name_texts(names@),
            sys.costs == costs@,
            forall|k: int| 0 <= k < j ==> (#[trigger] columns@[k])@ == sys.column(cols@[k]),
        decreases cols@.len() - j,
    {
        let s: Symbol = cols[j];
        let kind: SymbolKind = kind_of(s, artificial_symbol);
        columns.push(
            ColumnHeader {
                name: symbol_name(s, kind, var_for_symbol, names),
                kind,
                cost: lookup(costs, s),
            },
        );
        j = j + 1;
    }
    assert(column_models(columns@) =~= sys.columns());

    let basis: Vec<Symbol> = list_rows(rows, artificial_symbol);
    let mut out_rows: Vec<TableauRow> = Vec::new();
    let mut i: usize = 0;
    while i < basis.len()
        invariant
            i <= basis@.len(),
            out_rows@.len() == i,
            cols@ == sys.column_symbols(),
            sys.rows == row_data(rows@),
            sys.artificial_symbol == artificial_symbol,
            sys.var_for_symbol == var_for_symbol@,
            sys.names == name_texts(names@),
            sys.costs == costs@,
            sys.infeasible == infeasible@.to_set(),
            forall|x: Symbol| #[trigger] basis@.contains(x) <==> rows@.contains_key(x),
            forall|k: int| 0 <= k < i ==> (#[trigger] out_rows@[k])@ == sys.row(basis@[k]),
        decreases basis@.len() - i,
    {
        let s: Symbol = basis[i];
        assert(basis@.contains(s));
        if let Some(row) = rows.get(s) {
            let kind: SymbolKind = kind_of(s, artificial_symbol);
            out_rows.push(
                TableauRow {
                    basis: symbol_name(s, kind, var_for_symbol, names),
                    kind,
                    c_b: lookup(costs, s),
                    coeffs: spread_cells(&row.cells, &cols),
                    rhs: row.constant,
                    infeasible: is_among(infeasible, s),
                    ratio: None,
                },
            );
        }
        i = i + 1;
    }

    let reduced: Vec<Double> = spread_cells(&objective.cells, &cols);
    let phase_one: Option<ObjectiveRow> = match artificial {
        Some(a) => Some(
            ObjectiveRow {
                reduced: spread_cells(&a.cells, &cols),
                carried_constant: a.constant,
            },
        ),
        None => None,
    };
    let nonbasic_externals: Vec<String> = list_externals(&columns);
    Tableau {
        columns,
        rows: out_rows,
        objective: ObjectiveRow { reduced, carried_constant: objective.constant },
        phase_one,
        edits,
        nonbasic_externals,
        pivot_col: None,
        pivot_row: None,
        dual_ratios: None,
        column_ids: ids_of(&cols),
        row_ids: ids_of(&basis),
    }
}

} // verus!
