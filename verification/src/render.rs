//! Snapshots as text.
use vstd::prelude::*;

use crate::double::{negation, product, whole, Double};
use crate::format::{fmt_num, fmt_strength, is_near_zero, near_zero, num_text, strength_text};
use crate::grid::{grid, grid_text, line_models, Line, LineModel};
use crate::options::RenderOpts;
use crate::tableau::{EditModel, EditView, Tableau, TableauModel};
use crate::text::{concatenated, joined, nat_text, push_joined, push_nat, texts};

verus! {

/// The text of an optional addition.
pub open spec fn optional_text(shown: bool, text: Seq<char>) -> Seq<char> {
    if shown {
        text
    } else {
        seq![]
    }
}

/// A number that may be missing, where a dash stands for it.
pub open spec fn optional_num(v: Option<Double>, opts: RenderOpts) -> Seq<char> {
    match v {
        Some(x) => num_text(x, opts),
        None => "-"@,
    }
}

/// The layout of a line: `Basis | CB | <variables> | b | [ratio]`.
pub open spec fn laid_out(
    first: Seq<char>,
    second: Seq<char>,
    middle: Seq<Seq<char>>,
    b: Seq<char>,
    ratio: Option<Seq<char>>,
) -> LineModel {
    let cells = (seq![first, second] + middle).push(b);
    LineModel::Cells(
        match ratio {
            Some(r) => cells.push(r),
            None => cells,
        },
    )
}

/// The factor that turns a coefficient into the one that is shown.
pub open spec fn shown_sign(opts: RenderOpts) -> Double {
    if opts.textbook_signs {
        negation(whole(1))
    } else {
        whole(1)
    }
}

/// There is a row of `Z_j` above the reduced costs.
pub open spec fn shows_zj(opts: RenderOpts) -> bool {
    opts.show_zj && opts.textbook_signs
}

impl TableauModel {
    /// The columns that are shown.
    pub open spec fn shown_columns(self, opts: RenderOpts) -> Seq<usize> {
        if opts.elide_zero_columns {
            self.live_before(self.columns.len())
        } else {
            Seq::new(self.columns.len(), |j: int| j as usize)
        }
    }

    /// `live` lists the columns that are shown.
    pub open spec fn lists_shown(self, live: Seq<usize>, opts: RenderOpts) -> bool {
        &&& live == self.shown_columns(opts)
        &&& forall|k: int| 0 <= k < live.len() ==> #[trigger] live[k] < self.columns.len()
    }

    /// There is a column of ratios.
    pub open spec fn shows_ratios(self, opts: RenderOpts) -> bool {
        opts.show_ratios && exists|i: int|
            0 <= i < self.rows.len() && (#[trigger] self.rows[i]).ratio is Some
    }

    /// The text of the ratio column, where there is one.
    pub open spec fn in_ratio_column(self, text: Seq<char>, opts: RenderOpts) -> Option<
        Seq<char>,
    > {
        if self.shows_ratios(opts) {
            Some(text)
        } else {
            None
        }
    }

    /// A text for each column that is shown.
    pub open spec fn across(self, f: spec_fn(int) -> Seq<char>, opts: RenderOpts) -> Seq<
        Seq<char>,
    > {
        self.shown_columns(opts).map_values(|j: usize| f(j as int))
    }

    /// The name of column `j`; a star marks the entering one.
    pub open spec fn heading(self, j: int) -> Seq<char> {
        self.columns[j].name + optional_text(
            self.pivot_col is Some && self.pivot_col->0 == j,
            "*"@,
        )
    }

    /// The label of row `i`: `!` marks an infeasible one, `<` the leaving one.
    pub open spec fn row_label(self, i: int) -> Seq<char> {
        self.rows[i].basis + optional_text(self.rows[i].infeasible, " !"@) + optional_text(
            self.pivot_row is Some && self.pivot_row->0 == i,
            " <"@,
        )
    }

    /// The line of costs.
    pub open spec fn cost_line(self, opts: RenderOpts) -> LineModel {
        laid_out(
            seq![],
            "Cj"@,
            self.across(|j: int| strength_text(self.columns[j].cost, opts), opts),
            seq![],
            self.in_ratio_column(seq![], opts),
        )
    }

    /// The line of names.
    pub open spec fn heading_line(self, opts: RenderOpts) -> LineModel {
        laid_out(
            "Basis"@,
            "CB"@,
            self.across(|j: int| self.heading(j), opts),
            "b"@,
            self.in_ratio_column("ratio"@, opts),
        )
    }

    /// The line of row `i`.
    pub open spec fn row_line(self, i: int, opts: RenderOpts) -> LineModel {
        laid_out(
            self.row_label(i),
            strength_text(self.rows[i].c_b, opts),
            self.across(
                |j: int| num_text(product(shown_sign(opts), self.rows[i].coeffs[j]), opts),
                opts,
            ),
            num_text(self.rows[i].rhs, opts),
            self.in_ratio_column(optional_num(self.rows[i].ratio, opts), opts),
        )
    }

    /// The line of `Z_j`.
    pub open spec fn zj_line(self, opts: RenderOpts) -> LineModel {
        laid_out(
            "Zj"@,
            seq![],
            self.across(|j: int| num_text(self.column_total(j), opts), opts),
            num_text(self.objective_value(), opts),
            self.in_ratio_column(seq![], opts),
        )
    }

    /// The line of reduced costs. These are not negated, unlike the body: they
    /// are already what a text calls `Cj - Zj`.
    pub open spec fn reduced_line(self, opts: RenderOpts) -> LineModel {
        laid_out(
            if opts.textbook_signs {
                "Cj-Zj"@
            } else {
                "cj-zj"@
            },
            seq![],
            self.across(|j: int| num_text(self.objective.reduced[j], opts), opts),
            optional_text(!shows_zj(opts), "z="@ + num_text(self.objective_value(), opts)),
            self.in_ratio_column(seq![], opts),
        )
    }

    /// The line of dual ratios.
    pub open spec fn dual_line(self, opts: RenderOpts) -> LineModel {
        laid_out(
            "dual ratio"@,
            seq![],
            self.across(|j: int| optional_num(self.dual_ratios->0[j], opts), opts),
            seq![],
            self.in_ratio_column(seq![], opts),
        )
    }

    /// The lines of the grid.
    pub open spec fn lines(self, opts: RenderOpts) -> Seq<LineModel> {
        let sep = LineModel::Sep;
        seq![sep, self.cost_line(opts), sep, self.heading_line(opts), sep] + Seq::new(
            self.rows.len(),
            |i: int| self.row_line(i, opts),
        ) + seq![sep] + (if shows_zj(opts) {
            seq![self.zj_line(opts), sep]
        } else {
            seq![]
        }) + seq![self.reduced_line(opts), sep] + (if self.dual_ratios is Some {
            seq![self.dual_line(opts), sep]
        } else {
            seq![]
        })
    }

    /// The number of columns of the grid.
    pub open spec fn grid_columns(self, opts: RenderOpts) -> nat {
        3 + self.shown_columns(opts).len() + (if self.shows_ratios(opts) {
            1nat
        } else {
            0nat
        })
    }

    /// What is said of the pending pivot.
    pub open spec fn pivot_note(self, opts: RenderOpts) -> Seq<char> {
        let entering = match self.pivot_col {
            Some(c) => self.columns[c as int].name,
            None => "?"@,
        };
        let leaving = match self.pivot_row {
            Some(r) => self.rows[r as int].basis,
            None => "?"@,
        };
        let element = match self.pivot_element() {
            Some(p) => ", pivot element = "@ + num_text(product(shown_sign(opts), p), opts),
            None => seq![],
        };
        optional_text(
            self.pivot_col is Some || self.pivot_row is Some,
            "  pivot: "@ + entering + "* enters, "@ + leaving + " < leaves"@ + element + "\n"@
                + "  (this tableau is the state *before* that pivot)\n"@,
        )
    }

    /// What is said of the phase-I objective.
    pub open spec fn phase_note(self, opts: RenderOpts) -> Seq<char> {
        match self.phase_one {
            Some(p) => "  phase-I objective: w="@ + num_text(p.carried_constant, opts)
                + " (artificial variable active)\n"@,
            None => seq![],
        }
    }

    /// What is said of the external variables that are not basic.
    pub open spec fn externals_note(self) -> Seq<char> {
        optional_text(
            self.nonbasic_externals.len() > 0,
            "  nonbasic externals (=0): "@ + joined(self.nonbasic_externals, ", "@) + "\n"@,
        )
    }

    /// What is said of the edits.
    pub open spec fn edits_note(self, opts: RenderOpts) -> Seq<char> {
        concatenated(self.edits.len(), |i: int| edit_note(self.edits[i], opts))
    }

    /// What is said of optimality.
    pub open spec fn optimality_note(self) -> Seq<char> {
        "  minimisation: optimal when all cj-zj >= 0, dummy columns exempt (currently "@ + (
        if self.optimal() {
            "optimal"@
        } else {
            "not optimal"@
        }) + ")\n"@
    }

    /// What is said of a carried constant that has drifted.
    pub open spec fn drift_note(self, opts: RenderOpts) -> Seq<char> {
        optional_text(
            !is_near_zero(self.drift()),
            "  note: z is computed as sum(c_B*rhs); the solver's carried objective constant reads "@
                + num_text(self.objective.carried_constant, opts)
                + " (drifts across suggest_value)\n"@,
        )
    }

    /// What is said of infeasible rows.
    pub open spec fn infeasible_note(self) -> Seq<char> {
        optional_text(
            exists|i: int| 0 <= i < self.rows.len() && (#[trigger] self.rows[i]).infeasible,
            "  ! = infeasible row, pending dual_optimise\n"@,
        )
    }

    /// What is said of columns that are not shown.
    pub open spec fn elided_note(self, opts: RenderOpts) -> Seq<char> {
        let shown = self.shown_columns(opts).len();
        optional_text(
            shown < self.columns.len(),
            "  "@ + nat_text((self.columns.len() - shown) as nat)
                + " all-zero column(s) elided\n"@,
        )
    }

    /// The snapshot as text: the grid, and the notes below it.
    pub open spec fn text(self, opts: RenderOpts) -> Seq<char> {
        grid_text(self.lines(opts), self.grid_columns(opts)) + self.pivot_note(opts)
            + self.phase_note(opts) + self.externals_note() + self.edits_note(opts)
            + self.optimality_note() + self.drift_note(opts) + self.infeasible_note()
            + self.elided_note(opts)
    }
}

/// What is said of an edit.
pub open spec fn edit_note(edit: EditModel, opts: RenderOpts) -> Seq<char> {
    "  edit: "@ + edit.name + " = "@ + num_text(edit.value, opts) + " ("@ + strength_text(
        edit.strength,
        opts,
    ) + ")\n"@
}

/// The columns that are not zero throughout are those that `live_before`
/// lists, from left to right.
pub proof fn law_live_columns(t: TableauModel, n: nat)
    requires
        n <= usize::MAX,
    ensures
        t.live_before(n).len() <= n,
        forall|k: int| 0 <= k < t.live_before(n).len() ==> #[trigger] t.live_before(n)[k] < n,
        forall|k: int, l: int|
            0 <= k < l < t.live_before(n).len() ==> t.live_before(n)[k] < t.live_before(n)[l],
        forall|j: usize| #[trigger]
            t.live_before(n).contains(j) <==> j < n && t.is_live(j as int),
    decreases n,
{
    if n > 0 {
        let m = (n - 1) as nat;
        let rest = t.live_before(m);
        law_live_columns(t, m);
        assert forall|j: usize| #[trigger]
            t.live_before(n).contains(j) <==> j < n && t.is_live(j as int) by {
            if t.is_live(m as int) {
                let list = rest.push(m as usize);
                assert(list[rest.len() as int] == m as usize);
                if rest.contains(j) {
                    let k = choose|k: int| 0 <= k < rest.len() && rest[k] == j;
                    assert(list[k] == j);
                }
                if list.contains(j) && j != m {
                    let k = choose|k: int| 0 <= k < list.len() && list[k] == j;
                    assert(rest[k] == j);
                }
            }
        }
    }
}

/// A line is a rule or has the given number of cells.
pub open spec fn is_full(line: LineModel, ncols: nat) -> bool {
    match line {
        LineModel::Sep => true,
        LineModel::Cells(cells) => cells.len() == ncols,
    }
}

/// Every line of cells has the given number of cells.
pub open spec fn all_full(lines: Seq<LineModel>, ncols: nat) -> bool {
    forall|k: int| 0 <= k < lines.len() ==> is_full(#[trigger] lines[k], ncols)
}

/// Full lines below full lines are full.
proof fn lemma_full_below(a: Seq<LineModel>, b: Seq<LineModel>, ncols: nat)
    requires
        all_full(a, ncols),
        all_full(b, ncols),
    ensures
        all_full(a + b, ncols),
{
    assert forall|k: int| 0 <= k < (a + b).len() implies is_full(#[trigger] (a + b)[k], ncols) by {
        if k < a.len() {
            assert((a + b)[k] == a[k]);
        }
    }
}

/// Every line of cells has one cell for each column of the grid.
pub proof fn law_lines_are_full(t: TableauModel, opts: RenderOpts)
    ensures
        all_full(t.lines(opts), t.grid_columns(opts)),
{
    let n = t.grid_columns(opts);
    let sep = LineModel::Sep;
    let top = seq![sep, t.cost_line(opts), sep, t.heading_line(opts), sep];
    let rows = Seq::new(t.rows.len(), |i: int| t.row_line(i, opts));
    let zj = if shows_zj(opts) {
        seq![t.zj_line(opts), sep]
    } else {
        seq![]
    };
    let reduced = seq![t.reduced_line(opts), sep];
    let dual = if t.dual_ratios is Some {
        seq![t.dual_line(opts), sep]
    } else {
        seq![]
    };
    assert(all_full(top, n));
    assert(all_full(reduced, n));
    lemma_full_below(top + rows + seq![sep] + zj + reduced, dual, n);
}

/// Lays out a line.
fn lay_out(
    first: String,
    second: String,
    middle: Vec<String>,
    b: String,
    ratio: Option<String>,
) -> (r: Line)
    ensures
        r@ == laid_out(
            first@,
            second@,
            texts(middle@),
            b@,
            match ratio {
                Some(t) => Some(t@),
                None => None,
            },
        ),
{
    let mut cells: Vec<String> = Vec::new();
    cells.push(first);
    cells.push(second);
    let mut rest: Vec<String> = middle;
    cells.append(&mut rest);
    cells.push(b);
    if let Some(t) = ratio {
        cells.push(t);
    }
    Line::Cells(cells)
}

/// The factor that turns a coefficient into the one that is shown.
fn sign_of(opts: &RenderOpts) -> (r: Double)
    ensures
        r == shown_sign(*opts),
{
    if opts.textbook_signs {
        Double::from_u64(1).negate()
    } else {
        Double::from_u64(1)
    }
}

/// A number that may be missing.
fn show_optional(v: Option<Double>, opts: &RenderOpts) -> (r: String)
    ensures
        r@ == optional_num(v, *opts),
{
    match v {
        Some(x) => fmt_num(x, opts),
        None => String::from_str("-"),
    }
}

/// What is said of an edit.
fn show_edit(edit: &EditView, opts: &RenderOpts) -> (r: String)
    ensures
        r@ == edit_note(edit@, *opts),
{
    let mut out: String = String::from_str("  edit: ");
    out.append(edit.name.as_str());
    out.append(" = ");
    out.append(fmt_num(edit.value, opts).as_str());
    out.append(" (");
    out.append(fmt_strength(edit.strength, opts).as_str());
    out.append(")\n");
    out
}

impl Tableau {
    /// The columns that are shown.
    fn list_shown(&self, opts: &RenderOpts) -> (r: Vec<usize>)
        requires
            self@.wf(),
        ensures
            self@.lists_shown(r@, *opts),
    {
        let n: usize = self.columns.len();
        proof {
            law_live_columns(self@, n as nat);
        }
        if opts.elide_zero_columns {
            return self.live_columns();
        }
        let mut out: Vec<usize> = Vec::new();
        let mut j: usize = 0;
        while j < n
            invariant
                j <= n,
                out@.len() == j,
                forall|k: int| 0 <= k < j ==> #[trigger] out@[k] == k,
            decreases n - j,
        {
            out.push(j);
            j = j + 1;
        }
        assert(out@ =~= self@.shown_columns(*opts));
        out
    }

    /// Whether there is a column of ratios.
    fn wants_ratios(&self, opts: &RenderOpts) -> (r: bool)
        ensures
            r == self@.shows_ratios(*opts),
    {
        if !opts.show_ratios {
            return false;
        }
        let mut i: usize = 0;
        while i < self.rows.len()
            invariant
                i <= self.rows@.len(),
                opts.show_ratios,
                forall|k: int| 0 <= k < i ==> (#[trigger] self@.rows[k]).ratio is None,
            decreases self.rows@.len() - i,
        {
            assert(self@.rows[i as int] == self.rows@[i as int]@);
            if self.rows[i].ratio.is_some() {
                return true;
            }
            i = i + 1;
        }
        false
    }

    /// The line of costs.
    fn show_costs(&self, live: &Vec<usize>, want_ratio: bool, opts: &RenderOpts) -> (r: Line)
        requires
            self@.wf(),
            self@.lists_shown(live@, *opts),
            want_ratio == self@.shows_ratios(*opts),
        ensures
            r@ == self@.cost_line(*opts),
    {
        let mut middle: Vec<String> = Vec::new();
        let mut k: usize = 0;
        while k < live.len()
            invariant
                self@.wf(),
                self@.lists_shown(live@, *opts),
                k <= live@.len(),
                middle@.len() == k,
                forall|l: int|
                    0 <= l < k ==> (#[trigger] middle@[l])@ == strength_text(
                        self@.columns[live@[l] as int].cost,
                        *opts,
                    ),
            decreases live@.len() - k,
        {
            let j: usize = live[k];
            middle.push(fmt_strength(self.columns[j].cost, opts));
            k = k + 1;
        }
        let ratio: Option<String> = if want_ratio {
            Some(String::new())
        } else {
            None
        };
        lay_out(String::new(), String::from_str("Cj"), middle, String::new(), ratio)
    }

    /// The line of names.
    fn show_headings(&self, live: &Vec<usize>, want_ratio: bool, opts: &RenderOpts) -> (r: Line)
        requires
            self@.wf(),
            self@.lists_shown(live@, *opts),
            want_ratio == self@.shows_ratios(*opts),
        ensures
            r@ == self@.heading_line(*opts),
    {
        let mut middle: Vec<String> = Vec::new();
        let mut k: usize = 0;
        while k < live.len()
            invariant
                self@.wf(),
                self@.lists_shown(live@, *opts),
                k <= live@.len(),
                middle@.len() == k,
                forall|l: int|
                    0 <= l < k ==> (#[trigger] middle@[l])@ == self@.heading(live@[l] as int),
            decreases live@.len() - k,
        {
            let j: usize = live[k];
            let mut name: String = self.columns[j].name.clone();
            let entering: bool = match self.pivot_col {
                Some(c) => c == j,
                None => false,
            };
            if entering {
                name.append("*");
            }
            middle.push(name);
            k = k + 1;
        }
        let ratio: Option<String> = if want_ratio {
            Some(String::from_str("ratio"))
        } else {
            None
        };
        lay_out(
            String::from_str("Basis"),
            String::from_str("CB"),
            middle,
            String::from_str("b"),
            ratio,
        )
    }

    /// The label of a row.
    fn show_label(&self, i: usize) -> (r: String)
        requires
            i < self@.rows.len(),
        ensures
            r@ == self@.row_label(i as int),
    {
        let mut label: String = self.rows[i].basis.clone();
        if self.rows[i].infeasible {
            label.append(" !");
        }
        let leaving: bool = match self.pivot_row {
            Some(r) => r == i,
            None => false,
        };
        if leaving {
            label.append(" <");
        }
        label
    }

    /// The line of a row.
    fn show_row(
        &self,
        i: usize,
        live: &Vec<usize>,
        want_ratio: bool,
        opts: &RenderOpts,
    ) -> (r: Line)
        requires
            self@.wf(),
            self@.lists_shown(live@, *opts),
            want_ratio == self@.shows_ratios(*opts),
            i < self@.rows.len(),
        ensures
            r@ == self@.row_line(i as int, *opts),
    {
        let mut middle: Vec<String> = Vec::new();
        let mut k: usize = 0;
        let sign: Double = sign_of(opts);
        while k < live.len()
            invariant
                self@.wf(),
                self@.lists_shown(live@, *opts),
                i < self@.rows.len(),
                sign == shown_sign(*opts),
                self@.rows[i as int] == self.rows@[i as int]@,
                k <= live@.len(),
                middle@.len() == k,
                forall|l: int|
                    0 <= l < k ==> (#[trigger] middle@[l])@ == num_text(
                        product(shown_sign(*opts), self@.rows[i as int].coeffs[live@[l] as int]),
                        *opts,
                    ),
            decreases live@.len() - k,
        {
            let j: usize = live[k];
            middle.push(fmt_num(sign.times(self.rows[i].coeffs[j]), opts));
            k = k + 1;
        }
        let ratio: Option<String> = if want_ratio {
            Some(show_optional(self.rows[i].ratio, opts))
        } else {
            None
        };
        lay_out(
            self.show_label(i),
            fmt_strength(self.rows[i].c_b, opts),
            middle,
            fmt_num(self.rows[i].rhs, opts),
            ratio,
        )
    }

    /// The line of `Z_j`.
    fn show_zj(&self, live: &Vec<usize>, want_ratio: bool, opts: &RenderOpts) -> (r: Line)
        requires
            self@.wf(),
            self@.lists_shown(live@, *opts),
            want_ratio == self@.shows_ratios(*opts),
        ensures
            r@ == self@.zj_line(*opts),
    {
        let mut middle: Vec<String> = Vec::new();
        let mut k: usize = 0;
        let zj: Vec<Double> = self.zj();
        while k < live.len()
            invariant
                self@.wf(),
                self@.lists_shown(live@, *opts),
                zj@ == self@.column_totals(),
                k <= live@.len(),
                middle@.len() == k,
                forall|l: int|
                    0 <= l < k ==> (#[trigger] middle@[l])@ == num_text(
                        self@.column_total(live@[l] as int),
                        *opts,
                    ),
            decreases live@.len() - k,
        {
            let j: usize = live[k];
            middle.push(fmt_num(zj[j], opts));
            k = k + 1;
        }
        let ratio: Option<String> = if want_ratio {
            Some(String::new())
        } else {
            None
        };
        lay_out(
            String::from_str("Zj"),
            String::new(),
            middle,
            fmt_num(self.objective_value(), opts),
            ratio,
        )
    }

    /// The objective value, where the line of reduced costs shows it.
    fn show_objective(&self, opts: &RenderOpts) -> (r: String)
        ensures
            r@ == optional_text(
                !shows_zj(*opts),
                "z="@ + num_text(self@.objective_value(), *opts),
            ),
    {
        if opts.show_zj && opts.textbook_signs {
            String::new()
        } else {
            let mut z: String = String::from_str("z=");
            z.append(fmt_num(self.objective_value(), opts).as_str());
            z
        }
    }

    /// The line of reduced costs.
    fn show_reduced(&self, live: &Vec<usize>, want_ratio: bool, opts: &RenderOpts) -> (r: Line)
        requires
            self@.wf(),
            self@.lists_shown(live@, *opts),
            want_ratio == self@.shows_ratios(*opts),
        ensures
            r@ == self@.reduced_line(*opts),
    {
        let mut middle: Vec<String> = Vec::new();
        let mut k: usize = 0;
        let label: String = if opts.textbook_signs {
            String::from_str("Cj-Zj")
        } else {
            String::from_str("cj-zj")
        };
        while k < live.len()
            invariant
                self@.wf(),
                self@.lists_shown(live@, *opts),
                k <= live@.len(),
                middle@.len() == k,
                forall|l: int|
                    0 <= l < k ==> (#[trigger] middle@[l])@ == num_text(
                        self@.objective.reduced[live@[l] as int],
                        *opts,
                    ),
            decreases live@.len() - k,
        {
            let j: usize = live[k];
            middle.push(fmt_num(self.objective.reduced[j], opts));
            k = k + 1;
        }
        let ratio: Option<String> = if want_ratio {
            Some(String::new())
        } else {
            None
        };
        lay_out(label, String::new(), middle, self.show_objective(opts), ratio)
    }

    /// The line of dual ratios.
    fn show_dual(
        &self,
        ratios: &Vec<Option<Double>>,
        live: &Vec<usize>,
        want_ratio: bool,
        opts: &RenderOpts,
    ) -> (r: Line)
        requires
            self@.wf(),
            self@.lists_shown(live@, *opts),
            want_ratio == self@.shows_ratios(*opts),
            self@.dual_ratios == Some(ratios@),
        ensures
            r@ == self@.dual_line(*opts),
    {
        let mut middle: Vec<String> = Vec::new();
        let mut k: usize = 0;
        while k < live.len()
            invariant
                self@.wf(),
                self@.lists_shown(live@, *opts),
                self@.dual_ratios == Some(ratios@),
                k <= live@.len(),
                middle@.len() == k,
                forall|l: int|
                    0 <= l < k ==> (#[trigger] middle@[l])@ == optional_num(
                        self@.dual_ratios->0[live@[l] as int],
                        *opts,
                    ),
            decreases live@.len() - k,
        {
            let j: usize = live[k];
            middle.push(show_optional(ratios[j], opts));
            k = k + 1;
        }
        let ratio: Option<String> = if want_ratio {
            Some(String::new())
        } else {
            None
        };
        lay_out(String::from_str("dual ratio"), String::new(), middle, String::new(), ratio)
    }

    /// The lines of the grid.
    fn list_lines(&self, live: &Vec<usize>, want_ratio: bool, opts: &RenderOpts) -> (r: Vec<Line>)
        requires
            self@.wf(),
            self@.lists_shown(live@, *opts),
            want_ratio == self@.shows_ratios(*opts),
        ensures
            line_models(r@) == self@.lines(*opts),
    {
        let ghost sep = LineModel::Sep;
        let ghost body = Seq::new(self@.rows.len(), |i: int| self@.row_line(i, *opts));
        let ghost top = seq![sep, self@.cost_line(*opts), sep, self@.heading_line(*opts), sep];
        let mut lines: Vec<Line> = Vec::new();
        lines.push(Line::Sep);
        lines.push(self.show_costs(live, want_ratio, opts));
        lines.push(Line::Sep);
        lines.push(self.show_headings(live, want_ratio, opts));
        lines.push(Line::Sep);
        let mut i: usize = 0;
        while i < self.rows.len()
            invariant
                self@.wf(),
                self@.lists_shown(live@, *opts),
                want_ratio == self@.shows_ratios(*opts),
                i <= self.rows@.len(),
                body == Seq::new(self@.rows.len(), |i: int| self@.row_line(i, *opts)),
                line_models(lines@) == top + body.take(i as int),
            decreases self.rows@.len() - i,
        {
            let ghost sofar = line_models(lines@);
            lines.push(self.show_row(i, live, want_ratio, opts));
            assert(sofar.push(body[i as int]) =~= top + body.take(i + 1));
            i = i + 1;
        }
        assert(body.take(i as int) =~= body);
        lines.push(Line::Sep);
        if opts.show_zj && opts.textbook_signs {
            lines.push(self.show_zj(live, want_ratio, opts));
            lines.push(Line::Sep);
        }
        lines.push(self.show_reduced(live, want_ratio, opts));
        lines.push(Line::Sep);
        if let Some(ratios) = &self.dual_ratios {
            lines.push(self.show_dual(ratios, live, want_ratio, opts));
            lines.push(Line::Sep);
        }
        lines
    }

    /// Appends what is said of the pending pivot.
    fn push_pivot_note(&self, out: &mut String, opts: &RenderOpts)
        requires
            self@.wf(),
        ensures
            final(out)@ == old(out)@ + self@.pivot_note(*opts),
    {
        if self.pivot_col.is_some() || self.pivot_row.is_some() {
            let entering: &str = match self.pivot_col {
                Some(c) => {
                    self.columns[c].name.as_str()
                },
                None => "?",
            };
            let leaving: &str = match self.pivot_row {
                Some(r) => {
                    self.rows[r].basis.as_str()
                },
                None => "?",
            };
            out.append("  pivot: ");
            out.append(entering);
            out.append("* enters, ");
            out.append(leaving);
            out.append(" < leaves");
            if let Some(p) = self.pivot_element() {
                out.append(", pivot element = ");
                out.append(fmt_num(sign_of(opts).times(p), opts).as_str());
            }
            out.append("\n");
            out.append("  (this tableau is the state *before* that pivot)\n");
        }
    }

    /// Appends what is said of the phase-I objective.
    fn push_phase_note(&self, out: &mut String, opts: &RenderOpts)
        ensures
            final(out)@ == old(out)@ + self@.phase_note(*opts),
    {
        if let Some(p) = &self.phase_one {
            out.append("  phase-I objective: w=");
            out.append(fmt_num(p.carried_constant, opts).as_str());
            out.append(" (artificial variable active)\n");
        }
    }

    /// Appends what is said of the external variables that are not basic.
    fn push_externals_note(&self, out: &mut String)
        ensures
            final(out)@ == old(out)@ + self@.externals_note(),
    {
        if self.nonbasic_externals.len() > 0 {
            out.append("  nonbasic externals (=0): ");
            push_joined(out, &self.nonbasic_externals, ", ");
            out.append("\n");
        }
    }

    /// Appends what is said of the edits.
    fn push_edits_note(&self, out: &mut String, opts: &RenderOpts)
        ensures
            final(out)@ == old(out)@ + self@.edits_note(*opts),
    {
        let ghost f = |i: int| edit_note(self@.edits[i], *opts);
        let mut i: usize = 0;
        while i < self.edits.len()
            invariant
                i <= self.edits@.len(),
                f == (|i: int| edit_note(self@.edits[i], *opts)),
                out@ == old(out)@ + concatenated(i as nat, f),
            decreases self.edits@.len() - i,
        {
            let note: String = show_edit(&self.edits[i], opts);
            out.append(note.as_str());
            i = i + 1;
        }
    }

    /// Appends what is said of optimality.
    fn push_optimality_note(&self, out: &mut String)
        requires
            self@.wf(),
        ensures
            final(out)@ == old(out)@ + self@.optimality_note(),
    {
        out.append("  minimisation: optimal when all cj-zj >= 0, dummy columns exempt (currently ");
        if self.is_optimal() {
            out.append("optimal");
        } else {
            out.append("not optimal");
        }
        out.append(")\n");
    }

    /// Appends what is said of a carried constant that has drifted.
    fn push_drift_note(&self, out: &mut String, opts: &RenderOpts)
        ensures
            final(out)@ == old(out)@ + self@.drift_note(*opts),
    {
        if !near_zero(self.carried_constant_drift()) {
            out.append(
                "  note: z is computed as sum(c_B*rhs); the solver's carried objective constant reads ",
            );
            out.append(fmt_num(self.objective.carried_constant, opts).as_str());
            out.append(" (drifts across suggest_value)\n");
        }
    }

    /// Appends what is said of infeasible rows.
    fn push_infeasible_note(&self, out: &mut String)
        ensures
            final(out)@ == old(out)@ + self@.infeasible_note(),
    {
        let ghost before = out@;
        let mut i: usize = 0;
        while i < self.rows.len()
            invariant
                i <= self.rows@.len(),
                out@ == before,
                before == old(out)@,
                forall|k: int| 0 <= k < i ==> !(#[trigger] self@.rows[k]).infeasible,
            decreases self.rows@.len() - i,
        {
            assert(self@.rows[i as int] == self.rows@[i as int]@);
            if self.rows[i].infeasible {
                out.append("  ! = infeasible row, pending dual_optimise\n");
                return;
            }
            i = i + 1;
        }
    }

    /// Appends what is said of columns that are not shown.
    fn push_elided_note(&self, out: &mut String, live: &Vec<usize>, opts: &RenderOpts)
        requires
            self@.lists_shown(live@, *opts),
        ensures
            final(out)@ == old(out)@ + self@.elided_note(*opts),
    {
        if live.len() < self.columns.len() {
            out.append("  ");
            push_nat(out, (self.columns.len() - live.len()) as u64);
            out.append(" all-zero column(s) elided\n");
        }
    }

    /// The grid of the snapshot.
    fn show_grid(&self, live: &Vec<usize>, opts: &RenderOpts) -> (r: String)
        requires
            self@.wf(),
            self@.lists_shown(live@, *opts),
        ensures
            r@ == grid_text(self@.lines(*opts), self@.grid_columns(*opts)),
    {
        let want_ratio: bool = self.wants_ratios(opts);
        let lines: Vec<Line> = self.list_lines(live, want_ratio, opts);
        proof {
            law_lines_are_full(self@, *opts);
            assert(line_models(lines@)[1] == lines@[1]@);
        }
        let ncols: usize = match &lines[1] {
            Line::Sep => 0,
            Line::Cells(cells) => cells.len(),
        };
        grid(lines.as_slice(), ncols)
    }

    /// The snapshot as text: the grid, and notes below it.
    pub fn render(&self, opts: &RenderOpts) -> (r: String)
        requires
            self@.wf(),
        ensures
            r@ == self@.text(*opts),
    {
        let live: Vec<usize> = self.list_shown(opts);
        let mut out: String = self.show_grid(&live, opts);
        self.push_pivot_note(&mut out, opts);
        self.push_phase_note(&mut out, opts);
        self.push_externals_note(&mut out);
        self.push_edits_note(&mut out, opts);
        self.push_optimality_note(&mut out);
        self.push_drift_note(&mut out, opts);
        self.push_infeasible_note(&mut out);
        self.push_elided_note(&mut out, &live, opts);
        out
    }
}

} // verus!
