//! Snapshots of a solver's tableau, and what can be read off them.
use vstd::prelude::*;

use crate::double::{difference, less, negation, product, quotient, sum, whole, Double, SIGN};
use crate::format::{is_near_zero, near_zero};
use crate::symbol::SymbolKind;

verus! {

/// One nonbasic column of the tableau.
#[derive(Clone, Debug)]
pub struct ColumnHeader {
    pub name: String,
    pub kind: SymbolKind,
    /// Objective coefficient `c_j`. Nonzero only for `Error` symbols.
    pub cost: Double,
}

/// One basic row: `basis = rhs + sum(coeffs[j] * column_j)`.
#[derive(Clone, Debug)]
pub struct TableauRow {
    pub basis: String,
    pub kind: SymbolKind,
    /// Objective coefficient of the basic symbol.
    pub c_b: Double,
    /// Parallel to `Tableau::columns`; absent cells are zero.
    pub coeffs: Vec<Double>,
    /// The current value of the basic symbol: the basic feasible solution.
    pub rhs: Double,
    /// The row waits for the dual simplex to make it feasible.
    pub infeasible: bool,
    /// Minimum-ratio test result, filled in by `Tableau::compute_ratios`.
    pub ratio: Option<Double>,
}

/// An objective row in dictionary form.
#[derive(Clone, Debug)]
pub struct ObjectiveRow {
    /// Reduced costs, parallel to `Tableau::columns`.
    pub reduced: Vec<Double>,
    /// The constant that the solver carries in its objective row.
    ///
    /// **This is not reliably the objective value.** Suggesting a value for an
    /// edit variable shifts row constants directly, without the matching
    /// correction to this constant, so it drifts across edits. Use
    /// `Tableau::objective_value` instead.
    pub carried_constant: Double,
}

/// An active edit variable.
#[derive(Clone, Debug)]
pub struct EditView {
    pub name: String,
    pub value: Double,
    pub strength: Double,
}

/// A self-contained snapshot of a solver's tableau.
///
/// Owned and decoupled from the solver, so a snapshot outlives the mutation
/// that produced it and successive snapshots can be compared.
#[derive(Clone, Debug)]
pub struct Tableau {
    pub columns: Vec<ColumnHeader>,
    pub rows: Vec<TableauRow>,
    pub objective: ObjectiveRow,
    /// The phase-I objective, present only while an artificial variable is
    /// being driven out.
    pub phase_one: Option<ObjectiveRow>,
    pub edits: Vec<EditView>,
    /// External variables that are not basic, and therefore zero.
    pub nonbasic_externals: Vec<String>,
    /// Entering column of the pivot that this snapshot is about to undergo.
    pub pivot_col: Option<usize>,
    /// Leaving row of that pivot.
    pub pivot_row: Option<usize>,
    /// Dual ratio test results, parallel to `columns`, filled in by
    /// `compute_dual_ratios`.
    pub dual_ratios: Option<Vec<Option<Double>>>,
    /// Symbol ids behind `columns`, so that a pivot can be located by symbol
    /// rather than by display name. Ids are unique across symbol types.
    pub column_ids: Vec<usize>,
    /// Symbol ids behind `rows`.
    pub row_ids: Vec<usize>,
}

/// What a column header says.
#[verifier::ext_equal]
pub struct ColumnModel {
    pub name: Seq<char>,
    pub kind: SymbolKind,
    pub cost: Double,
}

/// What a row says.
#[verifier::ext_equal]
pub struct RowModel {
    pub basis: Seq<char>,
    pub kind: SymbolKind,
    pub c_b: Double,
    pub coeffs: Seq<Double>,
    pub rhs: Double,
    pub infeasible: bool,
    pub ratio: Option<Double>,
}

/// What an objective row says.
#[verifier::ext_equal]
pub struct ObjectiveModel {
    pub reduced: Seq<Double>,
    pub carried_constant: Double,
}

/// What an edit says.
#[verifier::ext_equal]
pub struct EditModel {
    pub name: Seq<char>,
    pub value: Double,
    pub strength: Double,
}

/// What a snapshot says.
#[verifier::ext_equal]
pub struct TableauModel {
    pub columns: Seq<ColumnModel>,
    pub rows: Seq<RowModel>,
    pub objective: ObjectiveModel,
    pub phase_one: Option<ObjectiveModel>,
    pub edits: Seq<EditModel>,
    pub nonbasic_externals: Seq<Seq<char>>,
    pub pivot_col: Option<usize>,
    pub pivot_row: Option<usize>,
    pub dual_ratios: Option<Seq<Option<Double>>>,
    pub column_ids: Seq<usize>,
    pub row_ids: Seq<usize>,
}

impl View for ColumnHeader {
    type V = ColumnModel;

    open spec fn view(&self) -> ColumnModel {
        ColumnModel { name: self.name@, kind: self.kind, cost: self.cost }
    }
}

impl View for TableauRow {
    type V = RowModel;

    open spec fn view(&self) -> RowModel {
        RowModel {
            basis: self.basis@,
            kind: self.kind,
            c_b: self.c_b,
            coeffs: self.coeffs@,
            rhs: self.rhs,
            infeasible: self.infeasible,
            ratio: self.ratio,
        }
    }
}

impl View for ObjectiveRow {
    type V = ObjectiveModel;

    open spec fn view(&self) -> ObjectiveModel {
        ObjectiveModel { reduced: self.reduced@, carried_constant: self.carried_constant }
    }
}

impl View for EditView {
    type V = EditModel;

    open spec fn view(&self) -> EditModel {
        EditModel { name: self.name@, value: self.value, strength: self.strength }
    }
}

/// What the columns of a tableau say.
pub open spec fn column_models(columns: Seq<ColumnHeader>) -> Seq<ColumnModel> {
    columns.map_values(|c: ColumnHeader| c@)
}

/// What the rows of a tableau say.
pub open spec fn row_models(rows: Seq<TableauRow>) -> Seq<RowModel> {
    rows.map_values(|r: TableauRow| r@)
}

/// What the edits of a tableau say.
pub open spec fn edit_models(edits: Seq<EditView>) -> Seq<EditModel> {
    edits.map_values(|e: EditView| e@)
}

impl View for Tableau {
    type V = TableauModel;

    open spec fn view(&self) -> TableauModel {
        TableauModel {
            columns: column_models(self.columns@),
            rows: row_models(self.rows@),
            objective: self.objective@,
            phase_one: match self.phase_one {
                Some(p) => Some(p@),
                None => None,
            },
            edits: edit_models(self.edits@),
            nonbasic_externals: crate::text::texts(self.nonbasic_externals@),
            pivot_col: self.pivot_col,
            pivot_row: self.pivot_row,
            dual_ratios: match self.dual_ratios {
                Some(d) => Some(d@),
                None => None,
            },
            column_ids: self.column_ids@,
            row_ids: self.row_ids@,
        }
    }
}

/// The sum of the given terms, from the first to the last. An empty sum is
/// negative zero, to which adding a term gives that term.
pub open spec fn total(terms: Seq<Double>) -> Double
    decreases terms.len(),
{
    if terms.len() == 0 {
        Double { bits: SIGN }
    } else {
        sum(total(terms.drop_last()), terms.last())
    }
}

impl TableauModel {
    /// The parts of the snapshot fit together: what is parallel to the columns
    /// or the rows is as long as they are, and a marked pivot lies inside.
    pub open spec fn wf(self) -> bool {
        &&& self.objective.reduced.len() == self.columns.len()
        &&& self.phase_one is Some ==> self.phase_one->0.reduced.len() == self.columns.len()
        &&& forall|i: int|
            0 <= i < self.rows.len() ==> (#[trigger] self.rows[i]).coeffs.len()
                == self.columns.len()
        &&& self.pivot_col is Some ==> self.pivot_col->0 < self.columns.len()
        &&& self.pivot_row is Some ==> self.pivot_row->0 < self.rows.len()
        &&& self.dual_ratios is Some ==> self.dual_ratios->0.len() == self.columns.len()
        &&& self.column_ids.len() == self.columns.len()
        &&& self.row_ids.len() == self.rows.len()
    }

    /// Column `j` may enter the basis: bringing it in lowers the objective.
    /// Dummy columns mark REQUIRED equalities and must stay at zero.
    pub open spec fn may_enter(self, j: int) -> bool {
        &&& self.columns[j].kind != SymbolKind::Dummy
        &&& less(self.objective.reduced[j], whole(0))
    }

    /// `c` is the first column that may enter.
    pub open spec fn is_entering(self, c: usize) -> bool {
        &&& c < self.columns.len()
        &&& self.may_enter(c as int)
        &&& forall|j: int| 0 <= j < c ==> !#[trigger] self.may_enter(j)
    }

    /// The first column that may enter, if there is one.
    pub open spec fn entering(self) -> Option<usize> {
        if exists|c: usize| self.is_entering(c) {
            Some(choose|c: usize| self.is_entering(c))
        } else {
            None
        }
    }

    /// No column may enter the basis.
    pub open spec fn optimal(self) -> bool {
        forall|j: int| 0 <= j < self.columns.len() ==> !#[trigger] self.may_enter(j)
    }

    /// The snapshot with the minimum-ratio test run on a column.
    pub open spec fn with_ratios(self, entering: int) -> TableauModel {
        TableauModel {
            rows: self.rows.map_values(
                |r: RowModel| RowModel { ratio: ratio_of(r, entering), ..r },
            ),
            ..self
        }
    }

    /// The dual ratio of column `j` in a row: a column can enter only if it is
    /// not a dummy and its coefficient in the leaving row is positive.
    pub open spec fn dual_ratio(self, leaving_row: int, j: int) -> Option<Double> {
        let coeff = self.rows[leaving_row].coeffs[j];
        if self.columns[j].kind != SymbolKind::Dummy && less(whole(0), coeff) {
            Some(quotient(self.objective.reduced[j], coeff))
        } else {
            None
        }
    }

    /// The snapshot with the dual ratio test run along a row.
    pub open spec fn with_dual_ratios(self, leaving_row: int) -> TableauModel {
        TableauModel {
            dual_ratios: Some(
                Seq::new(self.columns.len(), |j: int| self.dual_ratio(leaving_row, j)),
            ),
            ..self
        }
    }

    /// The snapshot with a pivot marked in it, by the ids of its symbols.
    pub open spec fn with_pivot(self, entering_id: usize, leaving_id: usize) -> TableauModel {
        TableauModel {
            pivot_col: first_place(self.column_ids, entering_id),
            pivot_row: first_place(self.row_ids, leaving_id),
            ..self
        }
    }

    /// The snapshot with a primal pivot marked, and the minimum-ratio test run
    /// on the entering column.
    pub open spec fn with_primal_pivot(
        self,
        entering_id: usize,
        leaving_id: usize,
    ) -> TableauModel {
        let marked = self.with_pivot(entering_id, leaving_id);
        match marked.pivot_col {
            Some(c) => marked.with_ratios(c as int),
            None => marked,
        }
    }

    /// The snapshot with a dual pivot marked, and the dual ratio test run
    /// along the leaving row.
    pub open spec fn with_dual_pivot(
        self,
        entering_id: usize,
        leaving_id: usize,
    ) -> TableauModel {
        let marked = self.with_pivot(entering_id, leaving_id);
        match marked.pivot_row {
            Some(r) => marked.with_dual_ratios(r as int),
            None => marked,
        }
    }

    /// The coefficient that the marked pivot divides by.
    pub open spec fn pivot_element(self) -> Option<Double> {
        match (self.pivot_row, self.pivot_col) {
            (Some(r), Some(c)) => Some(self.rows[r as int].coeffs[c as int]),
            _ => None,
        }
    }

    /// The objective value: the sum of cost times value over the basis.
    pub open spec fn objective_value(self) -> Double {
        total(self.rows.map_values(|r: RowModel| product(r.c_b, r.rhs)))
    }

    /// How far the carried constant is from the objective value.
    pub open spec fn drift(self) -> Double {
        difference(self.objective.carried_constant, self.objective_value())
    }

    /// `Z_j`: the sum of cost times coefficient, in textbook signs, down a
    /// column.
    pub open spec fn column_total(self, j: int) -> Double {
        total(self.rows.map_values(|r: RowModel| product(r.c_b, negation(r.coeffs[j]))))
    }

    /// `Z_j` of every column.
    pub open spec fn column_totals(self) -> Seq<Double> {
        Seq::new(self.columns.len(), |j: int| self.column_total(j))
    }

    /// Column `j` is not zero in the objective and in every row.
    pub open spec fn is_live(self, j: int) -> bool {
        ||| !is_near_zero(self.objective.reduced[j])
        ||| exists|i: int|
            0 <= i < self.rows.len() && !is_near_zero((#[trigger] self.rows[i]).coeffs[j])
    }

    /// The first `n` columns without those that are zero throughout.
    pub open spec fn live_before(self, n: nat) -> Seq<usize>
        decreases n,
    {
        if n == 0 {
            seq![]
        } else {
            let rest = self.live_before((n - 1) as nat);
            if self.is_live(n - 1) {
                rest.push((n - 1) as usize)
            } else {
                rest
            }
        }
    }
}

/// The ratio of a row in the minimum-ratio test: only a row whose basis is not
/// External and whose coefficient in the entering column is negative can leave.
pub open spec fn ratio_of(row: RowModel, entering: int) -> Option<Double> {
    let coeff = row.coeffs[entering];
    if row.kind != SymbolKind::External && less(coeff, whole(0)) {
        Some(quotient(negation(row.rhs), coeff))
    } else {
        None
    }
}

/// `i` is the first place of an id.
pub open spec fn is_first_place(ids: Seq<usize>, id: usize, i: usize) -> bool {
    &&& i < ids.len()
    &&& ids[i as int] == id
    &&& forall|k: int| 0 <= k < i ==> ids[k] != id
}

/// The first place of an id, if it is there.
pub open spec fn first_place(ids: Seq<usize>, id: usize) -> Option<usize> {
    if exists|i: usize| is_first_place(ids, id, i) {
        Some(choose|i: usize| is_first_place(ids, id, i))
    } else {
        None
    }
}

/// Finds the first place of an id.
fn find_id(ids: &Vec<usize>, id: usize) -> (r: Option<usize>)
    ensures
        r == first_place(ids@, id),
        r is Some ==> r->0 < ids@.len(),
{
    let mut i: usize = 0;
    while i < ids.len()
        invariant
            i <= ids@.len(),
            forall|k: int| 0 <= k < i ==> ids@[k] != id,
        decreases ids@.len() - i,
    {
        if ids[i] == id {
            assert(is_first_place(ids@, id, i));
            return Some(i);
        }
        i = i + 1;
    }
    None
}

impl Tableau {
    /// Whether the parts of the snapshot fit together, as the other methods
    /// need them to. Those of a snapshot that nobody has changed by hand do.
    pub fn is_consistent(&self) -> (r: bool)
        ensures
            r == self@.wf(),
    {
        let n: usize = self.columns.len();
        let mut i: usize = 0;
        while i < self.rows.len()
            invariant
                n == self.columns@.len(),
                i <= self.rows@.len(),
                forall|k: int|
                    0 <= k < i ==> (#[trigger] self@.rows[k]).coeffs.len() == self@.columns.len(),
            decreases self.rows@.len() - i,
        {
            assert(self@.rows[i as int] == self.rows@[i as int]@);
            if self.rows[i].coeffs.len() != n {
                return false;
            }
            i = i + 1;
        }
        let phase_one: bool = match &self.phase_one {
            Some(p) => p.reduced.len() == n,
            None => true,
        };
        let pivot_col: bool = match self.pivot_col {
            Some(c) => c < n,
            None => true,
        };
        let pivot_row: bool = match self.pivot_row {
            Some(r) => r < self.rows.len(),
            None => true,
        };
        let dual_ratios: bool = match &self.dual_ratios {
            Some(d) => d.len() == n,
            None => true,
        };
        self.objective.reduced.len() == n && phase_one && pivot_col && pivot_row && dual_ratios
            && self.column_ids.len() == n && self.row_ids.len() == self.rows.len()
    }

    /// Index of the first column with a negative reduced cost.
    ///
    /// Dummy columns are skipped: a dummy is the marker of a REQUIRED equality
    /// and must stay nonbasic at zero, so its reduced cost says nothing about
    /// optimality. A tableau showing a negative reduced cost under a dummy
    /// column is still optimal.
    ///
    /// This identifies *a* valid entering candidate, not necessarily the one
    /// that a solver would take.
    pub fn entering_candidate(&self) -> (r: Option<usize>)
        requires
            self@.wf(),
        ensures
            match r {
                Some(c) => c < self@.columns.len() && self@.may_enter(c as int) && forall|j: int|
                    0 <= j < c ==> !#[trigger] self@.may_enter(j),
                None => self@.optimal(),
            },
            r == self@.entering(),
    {
        let mut j: usize = 0;
        while j < self.columns.len()
            invariant
                self@.wf(),
                j <= self.columns@.len(),
                forall|i: int| 0 <= i < j ==> !#[trigger] self@.may_enter(i),
            decreases self.columns@.len() - j,
        {
            let kind: SymbolKind = self.columns[j].kind;
            let reduced: Double = self.objective.reduced[j];
            if kind != SymbolKind::Dummy && reduced.less_than(Double::from_u64(0)) {
                assert(self@.is_entering(j));
                return Some(j);
            }
            j = j + 1;
        }
        None
    }

    /// Whether the tableau is optimal: no non-dummy column has a negative
    /// reduced cost.
    pub fn is_optimal(&self) -> (r: bool)
        requires
            self@.wf(),
        ensures
            r == self@.optimal(),
    {
        self.entering_candidate().is_none()
    }

    /// Fills in the minimum-ratio column for a given entering column: only rows
    /// whose basis is not External and whose coefficient in that column is
    /// negative can leave.
    pub fn compute_ratios(&mut self, entering: usize)
        requires
            old(self)@.wf(),
            old(self)@.rows.len() > 0 ==> entering < old(self)@.columns.len(),
        ensures
            final(self)@ == old(self)@.with_ratios(entering as int),
            final(self)@.wf(),
    {
        let ghost before = self@;
        let n: usize = self.rows.len();
        let mut i: usize = 0;
        while i < n
            invariant
                i <= n,
                n == before.rows.len(),
                self.rows@.len() == n,
                before.wf(),
                n > 0 ==> entering < before.columns.len(),
                self@ == (TableauModel { rows: self@.rows, ..before }),
                forall|k: int|
                    0 <= k < n ==> #[trigger] self@.rows[k] == if k < i {
                        before.with_ratios(entering as int).rows[k]
                    } else {
                        before.rows[k]
                    },
            decreases n - i,
        {
            assert(self@.rows[i as int] == before.rows[i as int]);
            let coeff: Double = self.rows[i].coeffs[entering];
            let kind: SymbolKind = self.rows[i].kind;
            let rhs: Double = self.rows[i].rhs;
            let ratio: Option<Double> = if kind != SymbolKind::External && coeff.less_than(
                Double::from_u64(0),
            ) {
                Some(rhs.negate().over(coeff))
            } else {
                None
            };
            let ghost unmarked = self.rows@;
            self.rows[i].ratio = ratio;
            proof {
                assert forall|k: int| 0 <= k < n implies #[trigger] self@.rows[k] == if k <= i {
                    before.with_ratios(entering as int).rows[k]
                } else {
                    before.rows[k]
                } by {
                    assert(row_models(unmarked)[k] == unmarked[k]@);
                }
            }
            i = i + 1;
        }
    }

    /// Fills in the dual ratio row for a given leaving row: a column can enter
    /// only if it is non-dummy and its coefficient in the leaving row is
    /// *positive*, and the entering column is the one minimising
    /// `reduced_cost / coefficient`.
    ///
    /// This ratio runs along a row, not down a column, which is why it is
    /// stored parallel to `columns` rather than in `TableauRow::ratio`.
    pub fn compute_dual_ratios(&mut self, leaving_row: usize)
        requires
            old(self)@.wf(),
            leaving_row < old(self)@.rows.len(),
        ensures
            final(self)@ == old(self)@.with_dual_ratios(leaving_row as int),
            final(self)@.wf(),
    {
        let ghost before = self@;
        let mut ratios: Vec<Option<Double>> = Vec::new();
        let mut j: usize = 0;
        while j < self.columns.len()
            invariant
                before == self@,
                before.wf(),
                leaving_row < before.rows.len(),
                before.rows[leaving_row as int] == self.rows@[leaving_row as int]@,
                j <= self.columns@.len(),
                ratios@.len() == j,
                forall|k: int|
                    0 <= k < j ==> #[trigger] ratios@[k] == before.dual_ratio(
                        leaving_row as int,
                        k,
                    ),
            decreases self.columns@.len() - j,
        {
            let coeff: Double = self.rows[leaving_row].coeffs[j];
            if self.columns[j].kind != SymbolKind::Dummy && Double::from_u64(0).less_than(coeff) {
                ratios.push(Some(self.objective.reduced[j].over(coeff)));
            } else {
                ratios.push(None);
            }
            j = j + 1;
        }
        self.dual_ratios = Some(ratios);
    }

    /// Locates a symbol id among the columns.
    pub fn column_of_id(&self, id: usize) -> (r: Option<usize>)
        ensures
            r == first_place(self@.column_ids, id),
            r is Some ==> r->0 < self@.column_ids.len(),
    {
        find_id(&self.column_ids, id)
    }

    /// Locates a symbol id among the basis rows.
    pub fn row_of_id(&self, id: usize) -> (r: Option<usize>)
        ensures
            r == first_place(self@.row_ids, id),
            r is Some ==> r->0 < self@.row_ids.len(),
    {
        find_id(&self.row_ids, id)
    }

    /// Marks the primal pivot that this snapshot is about to undergo, and runs
    /// the minimum-ratio test on the entering column.
    pub fn mark_pivot(&mut self, entering_id: usize, leaving_id: usize)
        requires
            old(self)@.wf(),
        ensures
            final(self)@ == old(self)@.with_primal_pivot(entering_id, leaving_id),
            final(self)@.wf(),
    {
        self.pivot_col = self.column_of_id(entering_id);
        self.pivot_row = self.row_of_id(leaving_id);
        if let Some(c) = self.pivot_col {
            self.compute_ratios(c);
        }
    }

    /// Marks the dual pivot that this snapshot is about to undergo, and runs
    /// the dual ratio test along the leaving row.
    pub fn mark_dual_pivot(&mut self, entering_id: usize, leaving_id: usize)
        requires
            old(self)@.wf(),
        ensures
            final(self)@ == old(self)@.with_dual_pivot(entering_id, leaving_id),
            final(self)@.wf(),
    {
        self.pivot_col = self.column_of_id(entering_id);
        self.pivot_row = self.row_of_id(leaving_id);
        if let Some(r) = self.pivot_row {
            self.compute_dual_ratios(r);
        }
    }

    /// The coefficient that the pivot will divide through by, in dictionary
    /// signs. `None` unless both `pivot_row` and `pivot_col` are set.
    pub fn pivot_element(&self) -> (r: Option<Double>)
        requires
            self@.wf(),
        ensures
            r == self@.pivot_element(),
    {
        match (self.pivot_row, self.pivot_col) {
            (Some(r), Some(c)) => {
                Some(self.rows[r].coeffs[c])
            },
            _ => None,
        }
    }

    /// The objective value, `sum(c_B(i) * rhs_i)`.
    ///
    /// Computed from the basis rather than read from the carried constant,
    /// which drifts - see `ObjectiveRow::carried_constant`. Correct because
    /// nonbasic variables are zero at a vertex.
    pub fn objective_value(&self) -> (r: Double)
        ensures
            r == self@.objective_value(),
    {
        let ghost terms = self@.rows.map_values(|r: RowModel| product(r.c_b, r.rhs));
        let mut z: Double = Double { bits: SIGN };
        let mut i: usize = 0;
        while i < self.rows.len()
            invariant
                i <= self.rows@.len(),
                terms == self@.rows.map_values(|r: RowModel| product(r.c_b, r.rhs)),
                z == total(terms.take(i as int)),
            decreases self.rows@.len() - i,
        {
            assert(terms.take(i + 1).drop_last() =~= terms.take(i as int));
            z = z.plus(self.rows[i].c_b.times(self.rows[i].rhs));
            i = i + 1;
        }
        assert(terms.take(i as int) =~= terms);
        z
    }

    /// Deprecated spelling of `objective_value`.
    pub fn objective_from_basis(&self) -> (r: Double)
        ensures
            r == self@.objective_value(),
    {
        self.objective_value()
    }

    /// How far the carried objective constant has drifted from the true
    /// objective value.
    pub fn carried_constant_drift(&self) -> (r: Double)
        ensures
            r == self@.drift(),
    {
        self.objective.carried_constant.minus(self.objective_value())
    }

    /// `Z_j` of one column.
    fn zj_of(&self, j: usize) -> (r: Double)
        requires
            self@.wf(),
            j < self@.columns.len(),
        ensures
            r == self@.column_total(j as int),
    {
        let ghost f = |r: RowModel| product(r.c_b, negation(r.coeffs[j as int]));
        let ghost terms = self@.rows.map_values(f);
        let mut z: Double = Double { bits: SIGN };
        let mut i: usize = 0;
        while i < self.rows.len()
            invariant
                self@.wf(),
                j < self@.columns.len(),
                i <= self.rows@.len(),
                f == (|r: RowModel| product(r.c_b, negation(r.coeffs[j as int]))),
                terms == self@.rows.map_values(f),
                z == total(terms.take(i as int)),
            decreases self.rows@.len() - i,
        {
            assert(self@.rows[i as int] == self.rows@[i as int]@);
            assert(terms.take(i + 1).drop_last() =~= terms.take(i as int));
            z = z.plus(self.rows[i].c_b.times(self.rows[i].coeffs[j].negate()));
            i = i + 1;
        }
        assert(terms.take(i as int) =~= terms);
        z
    }

    /// `Z_j = sum(c_B(i) * a_ij)`, in textbook signs.
    pub fn zj(&self) -> (r: Vec<Double>)
        requires
            self@.wf(),
        ensures
            r@ == self@.column_totals(),
    {
        let mut out: Vec<Double> = Vec::new();
        let mut j: usize = 0;
        while j < self.columns.len()
            invariant
                self@.wf(),
                j <= self.columns@.len(),
                out@.len() == j,
                forall|k: int| 0 <= k < j ==> #[trigger] out@[k] == self@.column_total(k),
            decreases self.columns@.len() - j,
        {
            out.push(self.zj_of(j));
            j = j + 1;
        }
        out
    }

    /// Whether a column is not zero in the objective and in every row.
    fn column_is_live(&self, j: usize) -> (r: bool)
        requires
            self@.wf(),
            j < self@.columns.len(),
        ensures
            r == self@.is_live(j as int),
    {
        if !near_zero(self.objective.reduced[j]) {
            return true;
        }
        let mut i: usize = 0;
        while i < self.rows.len()
            invariant
                self@.wf(),
                j < self@.columns.len(),
                i <= self.rows@.len(),
                forall|k: int|
                    0 <= k < i ==> is_near_zero((#[trigger] self@.rows[k]).coeffs[j as int]),
            decreases self.rows@.len() - i,
        {
            assert(self@.rows[i as int] == self.rows@[i as int]@);
            if !near_zero(self.rows[i].coeffs[j]) {
                return true;
            }
            i = i + 1;
        }
        false
    }

    /// The columns that are not zero in every row and in the objective.
    pub fn live_columns(&self) -> (r: Vec<usize>)
        requires
            self@.wf(),
        ensures
            r@ == self@.live_before(self@.columns.len()),
    {
        let mut out: Vec<usize> = Vec::new();
        let mut j: usize = 0;
        while j < self.columns.len()
            invariant
                self@.wf(),
                j <= self.columns@.len(),
                out@ == self@.live_before(j as nat),
            decreases self.columns@.len() - j,
        {
            if self.column_is_live(j) {
                out.push(j);
            }
            j = j + 1;
        }
        out
    }
}

} // verus!
