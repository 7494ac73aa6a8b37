//! What stands in the lines and the notes of a rendered snapshot.
use vstd::prelude::*;

use crate::double::{negation, product, Double};
use crate::format::{num_text, strength_text, EPSILON};
use crate::grid::{cell, grid_text, LineModel};
use crate::options::RenderOpts;
use crate::pivot_laws::{law_live_columns_are_not_zero, law_near_zero, lemma_zero};
use crate::render::{
    edit_note, laid_out, law_live_columns, optional_num, shown_sign, shows_zj,
};
use crate::symbol::SymbolKind;
use crate::tableau::{EditModel, ObjectiveModel, TableauModel};
use crate::text::{concatenated, joined, nat_text};
use crate::text_laws::lemma_shown;

verus! {

/// All columns are shown from left to right, without those that are zero
/// throughout if the options say so.
pub proof fn law_shown_columns(t: TableauModel, opts: RenderOpts, j: int)
    requires
        t.columns.len() <= usize::MAX,
        0 <= j < t.columns.len(),
    ensures
        t.shown_columns(opts).contains(j as usize) <==> {
            ||| !opts.elide_zero_columns
            ||| t.objective.reduced[j].index() >= EPSILON
            ||| exists|i: int|
                0 <= i < t.rows.len() && (#[trigger] t.rows[i]).coeffs[j].index() >= EPSILON
        },
        forall|k: int|
            0 <= k < t.shown_columns(opts).len() ==> #[trigger] t.shown_columns(opts)[k]
                < t.columns.len(),
        forall|k: int, l: int|
            0 <= k < l < t.shown_columns(opts).len() ==> t.shown_columns(opts)[k]
                < t.shown_columns(opts)[l],
{
    law_live_columns_are_not_zero(t, j);
    law_live_columns(t, t.columns.len());
    if !opts.elide_zero_columns {
        assert(t.shown_columns(opts)[j] == j as usize);
    }
}

/// There is a column of ratios exactly when the options ask for it and some
/// row has a ratio.
pub proof fn law_ratio_column(t: TableauModel, opts: RenderOpts)
    ensures
        t.shows_ratios(opts) <==> opts.show_ratios && exists|i: int|
            0 <= i < t.rows.len() && (#[trigger] t.rows[i]).ratio is Some,
        t.grid_columns(opts) == 2 + t.shown_columns(opts).len() + 1 + if t.shows_ratios(opts) {
            1int
        } else {
            0int
        },
{
}

/// The lines of the grid: the costs and the names between rules, the rows, the
/// totals of the columns in textbook signs on request, the reduced costs, and
/// the dual ratios where there are any.
pub proof fn law_lines(t: TableauModel, opts: RenderOpts, i: int)
    ensures
        ({
            let lines = t.lines(opts);
            let n = t.rows.len() as int;
            let z = if opts.textbook_signs && opts.show_zj {
                2int
            } else {
                0int
            };
            let d = if t.dual_ratios is Some {
                2int
            } else {
                0int
            };
            &&& lines.len() == n + 8 + z + d
            &&& lines[0] is Sep && lines[2] is Sep && lines[4] is Sep && lines[5 + n] is Sep
            &&& lines[1] == t.cost_line(opts)
            &&& lines[3] == t.heading_line(opts)
            &&& 0 <= i < n ==> lines[5 + i] == t.row_line(i, opts)
            &&& z > 0 ==> lines[6 + n] == t.zj_line(opts) && lines[7 + n] is Sep
            &&& lines[6 + n + z] == t.reduced_line(opts)
            &&& lines[7 + n + z] is Sep
            &&& d > 0 ==> lines[8 + n + z] == t.dual_line(opts) && lines[9 + n + z] is Sep
        }),
{
    lemma_parts(
        t.cost_line(opts),
        t.heading_line(opts),
        Seq::new(t.rows.len(), |i: int| t.row_line(i, opts)),
        t.zj_line(opts),
        shows_zj(opts),
        t.reduced_line(opts),
        t.dual_line(opts),
        t.dual_ratios is Some,
        i,
    );
}

/// The lines of a grid, from their parts.
proof fn lemma_parts(
    cost: LineModel,
    heading: LineModel,
    rows: Seq<LineModel>,
    zj: LineModel,
    with_zj: bool,
    reduced: LineModel,
    dual: LineModel,
    with_dual: bool,
    i: int,
)
    ensures
        ({
            let sep = LineModel::Sep;
            let lines = seq![sep, cost, sep, heading, sep] + rows + seq![sep] + (if with_zj {
                seq![zj, sep]
            } else {
                seq![]
            }) + seq![reduced, sep] + (if with_dual {
                seq![dual, sep]
            } else {
                seq![]
            });
            let n = rows.len() as int;
            let z = if with_zj {
                2int
            } else {
                0int
            };
            let d = if with_dual {
                2int
            } else {
                0int
            };
            &&& lines.len() == n + 8 + z + d
            &&& lines[0] == sep && lines[2] == sep && lines[4] == sep && lines[5 + n] == sep
            &&& lines[1] == cost
            &&& lines[3] == heading
            &&& 0 <= i < n ==> lines[5 + i] == rows[i]
            &&& with_zj ==> lines[6 + n] == zj && lines[7 + n] == sep
            &&& lines[6 + n + z] == reduced
            &&& lines[7 + n + z] == sep
            &&& with_dual ==> lines[8 + n + z] == dual && lines[9 + n + z] == sep
        }),
{
    let sep = LineModel::Sep;
    let d: Seq<LineModel> = if with_zj {
        seq![zj, sep]
    } else {
        seq![]
    };
    let f: Seq<LineModel> = if with_dual {
        seq![dual, sep]
    } else {
        seq![]
    };
    lemma_stacked(
        seq![sep, cost, sep, heading, sep],
        rows,
        seq![sep],
        d,
        seq![reduced, sep],
        f,
        i,
    );
}

/// Where the parts of the grid stand when they are stacked.
proof fn lemma_stacked(
    a: Seq<LineModel>,
    b: Seq<LineModel>,
    c: Seq<LineModel>,
    d: Seq<LineModel>,
    e: Seq<LineModel>,
    f: Seq<LineModel>,
    i: int,
)
    requires
        a.len() == 5,
        c.len() == 1,
        d.len() == 0 || d.len() == 2,
        e.len() == 2,
        f.len() == 0 || f.len() == 2,
    ensures
        ({
            let all = a + b + c + d + e + f;
            let n = b.len() as int;
            let z = d.len() as int;
            &&& all.len() == n + 8 + z + f.len()
            &&& all[0] == a[0] && all[1] == a[1] && all[2] == a[2] && all[3] == a[3] && all[4]
                == a[4]
            &&& 0 <= i < n ==> all[5 + i] == b[i]
            &&& all[5 + n] == c[0]
            &&& z > 0 ==> all[6 + n] == d[0] && all[7 + n] == d[1]
            &&& all[6 + n + z] == e[0] && all[7 + n + z] == e[1]
            &&& f.len() > 0 ==> all[8 + n + z] == f[0] && all[9 + n + z] == f[1]
        }),
{
}

/// Where the parts of a line stand.
proof fn lemma_laid_out(
    first: Seq<char>,
    second: Seq<char>,
    middle: Seq<Seq<char>>,
    b: Seq<char>,
    ratio: Option<Seq<char>>,
)
    ensures
        ({
            let line = laid_out(first, second, middle, b, ratio);
            let m = middle.len() as int;
            &&& cell(line, 0) == first
            &&& cell(line, 1) == second
            &&& forall|k: int| 0 <= k < m ==> #[trigger] cell(line, 2 + k) == middle[k]
            &&& cell(line, 2 + m) == b
            &&& cell(line, 3 + m) == match ratio {
                Some(r) => r,
                None => Seq::<char>::empty(),
            }
        }),
{
    let cells = (seq![first, second] + middle).push(b);
    let m = middle.len() as int;
    assert(cells.len() == 3 + m);
    assert(cells[0] == first && cells[1] == second && cells[2 + m] == b);
    assert forall|k: int| 0 <= k < m implies cells[2 + k] == middle[k] by {}
}

/// The line of costs: what each column that is shown costs.
pub proof fn law_cost_cells(t: TableauModel, opts: RenderOpts, k: int)
    ensures
        ({
            let line = t.cost_line(opts);
            let m = t.shown_columns(opts).len() as int;
            let j = t.shown_columns(opts)[k] as int;
            &&& cell(line, 0) == Seq::<char>::empty()
            &&& cell(line, 1) == "Cj"@
            &&& 0 <= k < m ==> cell(line, 2 + k) == strength_text(t.columns[j].cost, opts)
            &&& cell(line, 2 + m) == Seq::<char>::empty()
            &&& cell(line, 3 + m) == Seq::<char>::empty()
        }),
{
}

/// The line of names: those of the columns that are shown, with a star behind
/// the one that is about to enter and behind no other.
pub proof fn law_heading_cells(t: TableauModel, opts: RenderOpts, k: int)
    ensures
        ({
            let line = t.heading_line(opts);
            let m = t.shown_columns(opts).len() as int;
            let j = t.shown_columns(opts)[k];
            &&& cell(line, 0) == "Basis"@
            &&& cell(line, 1) == "CB"@
            &&& 0 <= k < m && t.pivot_col == Some(j) ==> cell(line, 2 + k)
                == t.columns[j as int].name + "*"@
            &&& 0 <= k < m && t.pivot_col != Some(j) ==> cell(line, 2 + k)
                == t.columns[j as int].name
            &&& cell(line, 2 + m) == "b"@
            &&& cell(line, 3 + m) == if t.shows_ratios(opts) {
                "ratio"@
            } else {
                Seq::<char>::empty()
            }
        }),
{
    let j = t.shown_columns(opts)[k];
    assert(t.columns[j as int].name + seq![] =~= t.columns[j as int].name);
}

/// The line of a row shows its coefficient in each column that is shown,
/// negated in textbook signs.
pub proof fn law_row_cells(t: TableauModel, opts: RenderOpts, i: int, k: int)
    requires
        0 <= k < t.shown_columns(opts).len(),
    ensures
        ({
            let line = t.row_line(i, opts);
            let j = t.shown_columns(opts)[k] as int;
            let c = t.rows[i].coeffs[j];
            &&& opts.textbook_signs ==> cell(line, 2 + k) == num_text(negation(c), opts)
            &&& !opts.textbook_signs ==> cell(line, 2 + k) == num_text(c, opts)
        }),
{
    let j = t.shown_columns(opts)[k] as int;
    let row = t.rows[i];
    let f = |j: int| num_text(product(shown_sign(opts), row.coeffs[j]), opts);
    lemma_laid_out(
        t.row_label(i),
        strength_text(row.c_b, opts),
        t.across(f, opts),
        num_text(row.rhs, opts),
        t.in_ratio_column(optional_num(row.ratio, opts), opts),
    );
    assert(t.across(f, opts)[k] == f(j));
    lemma_shown(row.coeffs[j], RenderOpts { textbook_signs: false, ..opts });
}

/// The ends of the line of a row: its label, with `!` behind it if it is
/// infeasible and `<` if it is about to leave, its cost, its value, and its
/// ratio, where there is a column of ratios, or a dash.
pub proof fn law_row_ends(t: TableauModel, opts: RenderOpts, i: int)
    ensures
        ({
            let line = t.row_line(i, opts);
            let m = t.shown_columns(opts).len() as int;
            let row = t.rows[i];
            let leaves = t.pivot_row is Some && t.pivot_row->0 == i;
            &&& cell(line, 0) == match (row.infeasible, leaves) {
                (true, true) => row.basis + " !"@ + " <"@,
                (true, false) => row.basis + " !"@,
                (false, true) => row.basis + " <"@,
                (false, false) => row.basis,
            }
            &&& cell(line, 1) == strength_text(row.c_b, opts)
            &&& cell(line, 2 + m) == num_text(row.rhs, opts)
            &&& cell(line, 3 + m) == if !t.shows_ratios(opts) {
                Seq::<char>::empty()
            } else {
                match row.ratio {
                    Some(r) => num_text(r, opts),
                    None => "-"@,
                }
            }
        }),
{
    let row = t.rows[i];
    let f = |j: int| num_text(product(shown_sign(opts), row.coeffs[j]), opts);
    lemma_laid_out(
        t.row_label(i),
        strength_text(row.c_b, opts),
        t.across(f, opts),
        num_text(row.rhs, opts),
        t.in_ratio_column(optional_num(row.ratio, opts), opts),
    );
    lemma_row_label(t, i);
}

/// The label of a row, with its marks.
proof fn lemma_row_label(t: TableauModel, i: int)
    ensures
        ({
            let row = t.rows[i];
            let leaves = t.pivot_row is Some && t.pivot_row->0 == i;
            t.row_label(i) == match (row.infeasible, leaves) {
                (true, true) => row.basis + " !"@ + " <"@,
                (true, false) => row.basis + " !"@,
                (false, true) => row.basis + " <"@,
                (false, false) => row.basis,
            }
        }),
{
    let row = t.rows[i];
    assert(row.basis + seq![] =~= row.basis);
    assert(row.basis + " !"@ + seq![] =~= row.basis + " !"@);
}

/// The line of totals: `Z_j` of each column that is shown, and the objective
/// value, computed from the basis.
pub proof fn law_zj_cells(t: TableauModel, opts: RenderOpts, k: int)
    ensures
        ({
            let line = t.zj_line(opts);
            let m = t.shown_columns(opts).len() as int;
            &&& cell(line, 0) == "Zj"@
            &&& cell(line, 1) == Seq::<char>::empty()
            &&& 0 <= k < m ==> cell(line, 2 + k) == num_text(
                t.column_total(t.shown_columns(opts)[k] as int),
                opts,
            )
            &&& cell(line, 2 + m) == num_text(t.objective_value(), opts)
            &&& cell(line, 3 + m) == Seq::<char>::empty()
        }),
{
}

/// The line of reduced costs, which are never negated. It shows the objective
/// value where no line of totals does.
pub proof fn law_reduced_cells(t: TableauModel, opts: RenderOpts, k: int)
    ensures
        ({
            let line = t.reduced_line(opts);
            let m = t.shown_columns(opts).len() as int;
            &&& cell(line, 0) == if opts.textbook_signs {
                "Cj-Zj"@
            } else {
                "cj-zj"@
            }
            &&& cell(line, 1) == Seq::<char>::empty()
            &&& 0 <= k < m ==> cell(line, 2 + k) == num_text(
                t.objective.reduced[t.shown_columns(opts)[k] as int],
                opts,
            )
            &&& cell(line, 2 + m) == if opts.textbook_signs && opts.show_zj {
                Seq::<char>::empty()
            } else {
                "z="@ + num_text(t.objective_value(), opts)
            }
            &&& cell(line, 3 + m) == Seq::<char>::empty()
        }),
{
}

/// The line of dual ratios: that of each column that is shown, or a dash.
pub proof fn law_dual_cells(t: TableauModel, opts: RenderOpts, k: int)
    ensures
        ({
            let line = t.dual_line(opts);
            let m = t.shown_columns(opts).len() as int;
            &&& cell(line, 0) == "dual ratio"@
            &&& cell(line, 1) == Seq::<char>::empty()
            &&& 0 <= k < m ==> cell(line, 2 + k) == match t.dual_ratios->0[t.shown_columns(
                opts,
            )[k] as int] {
                Some(r) => num_text(r, opts),
                None => "-"@,
            }
            &&& cell(line, 2 + m) == Seq::<char>::empty()
            &&& cell(line, 3 + m) == Seq::<char>::empty()
        }),
{
}

/// Every presentation shows the objective value, computed from the basis, and
/// shows it once: in the line of totals where there is one, and else in the
/// line of reduced costs.
pub proof fn law_grid_shows_the_objective_value(t: TableauModel, opts: RenderOpts)
    ensures
        ({
            let lines = t.lines(opts);
            let n = t.rows.len() as int;
            let m = t.shown_columns(opts).len() as int;
            let z = num_text(t.objective_value(), opts);
            if opts.textbook_signs && opts.show_zj {
                cell(lines[6 + n], 2 + m) == z && cell(lines[8 + n], 2 + m) == Seq::<char>::empty()
            } else {
                cell(lines[6 + n], 2 + m) == "z="@ + z
            }
        }),
{
    law_lines(t, opts, 0);
    law_zj_cells(t, opts, 0);
    law_reduced_cells(t, opts, 0);
}

/// The grid shows the columns, the rows, the reduced costs, the marks and the
/// ratios, and depends on nothing else: snapshots that agree on these have the
/// same grid, whatever constants they carry and whatever their edits, external
/// variables, phase-I objectives and ids are.
pub proof fn law_grid_shows_the_tableau_alone(t: TableauModel, u: TableauModel, opts: RenderOpts)
    requires
        t.columns == u.columns,
        t.rows == u.rows,
        t.objective.reduced == u.objective.reduced,
        t.pivot_col == u.pivot_col,
        t.pivot_row == u.pivot_row,
        t.dual_ratios == u.dual_ratios,
    ensures
        t.lines(opts) == u.lines(opts),
        t.grid_columns(opts) == u.grid_columns(opts),
        grid_text(t.lines(opts), t.grid_columns(opts)) == grid_text(
            u.lines(opts),
            u.grid_columns(opts),
        ),
{
    lemma_same_live(t, u, t.columns.len());
    assert(t.shown_columns(opts) == u.shown_columns(opts));
    assert(t.cost_line(opts) == u.cost_line(opts)) by {
        assert(t.across(|j: int| strength_text(t.columns[j].cost, opts), opts) =~= u.across(
            |j: int| strength_text(u.columns[j].cost, opts),
            opts,
        ));
    }
    assert(t.heading_line(opts) == u.heading_line(opts)) by {
        assert(t.across(|j: int| t.heading(j), opts) =~= u.across(|j: int| u.heading(j), opts));
    }
    assert forall|i: int| 0 <= i < t.rows.len() implies #[trigger] t.row_line(i, opts)
        == u.row_line(i, opts) by {
        assert(t.across(
            |j: int| num_text(product(shown_sign(opts), t.rows[i].coeffs[j]), opts),
            opts,
        ) =~= u.across(
            |j: int| num_text(product(shown_sign(opts), u.rows[i].coeffs[j]), opts),
            opts,
        ));
    }
    assert(Seq::new(t.rows.len(), |i: int| t.row_line(i, opts)) =~= Seq::new(
        u.rows.len(),
        |i: int| u.row_line(i, opts),
    ));
    assert(t.zj_line(opts) == u.zj_line(opts)) by {
        assert(t.across(|j: int| num_text(t.column_total(j), opts), opts) =~= u.across(
            |j: int| num_text(u.column_total(j), opts),
            opts,
        ));
    }
    assert(t.reduced_line(opts) == u.reduced_line(opts)) by {
        assert(t.across(|j: int| num_text(t.objective.reduced[j], opts), opts) =~= u.across(
            |j: int| num_text(u.objective.reduced[j], opts),
            opts,
        ));
    }
    assert(t.dual_line(opts) == u.dual_line(opts)) by {
        assert(t.across(|j: int| optional_num(t.dual_ratios->0[j], opts), opts) =~= u.across(
            |j: int| optional_num(u.dual_ratios->0[j], opts),
            opts,
        ));
    }
}

/// Snapshots with the same numbers have the same live columns.
proof fn lemma_same_live(t: TableauModel, u: TableauModel, n: nat)
    requires
        t.rows == u.rows,
        t.objective.reduced == u.objective.reduced,
    ensures
        t.live_before(n) == u.live_before(n),
    decreases n,
{
    if n > 0 {
        lemma_same_live(t, u, (n - 1) as nat);
        assert(t.is_live(n - 1) == u.is_live(n - 1));
    }
}

/// What the solver's objective row carries as its constant is not shown in the
/// grid: changing it changes no line. The optimality stays the same, and so do
/// all notes but the one on the drift.
pub proof fn law_carried_constant_changes_no_cell(
    t: TableauModel,
    constant: Double,
    opts: RenderOpts,
)
    ensures
        ({
            let u = TableauModel {
                objective: ObjectiveModel { carried_constant: constant, ..t.objective },
                ..t
            };
            &&& u.lines(opts) == t.lines(opts)
            &&& u.grid_columns(opts) == t.grid_columns(opts)
            &&& u.pivot_note(opts) == t.pivot_note(opts)
            &&& u.phase_note(opts) == t.phase_note(opts)
            &&& u.externals_note() == t.externals_note()
            &&& u.edits_note(opts) == t.edits_note(opts)
            &&& u.optimality_note() == t.optimality_note()
            &&& u.infeasible_note() == t.infeasible_note()
            &&& u.elided_note(opts) == t.elided_note(opts)
        }),
{
    let u = TableauModel {
        objective: ObjectiveModel { carried_constant: constant, ..t.objective },
        ..t
    };
    law_grid_shows_the_tableau_alone(t, u, opts);
    lemma_same_live(t, u, t.columns.len());
    assert(forall|j: int| t.may_enter(j) == u.may_enter(j));
    assert(t.optimal() == u.optimal());
    lemma_same_edits(t.edits.len(), t, u, opts);
}

/// The same edits read the same.
proof fn lemma_same_edits(n: nat, t: TableauModel, u: TableauModel, opts: RenderOpts)
    requires
        t.edits == u.edits,
    ensures
        concatenated(n, |i: int| edit_note(t.edits[i], opts)) == concatenated(
            n,
            |i: int| edit_note(u.edits[i], opts),
        ),
    decreases n,
{
    if n > 0 {
        lemma_same_edits((n - 1) as nat, t, u, opts);
    }
}

/// The text is the grid and, below it, what is said of the pivot, the phase-I
/// objective, the external variables, the edits, the optimality, the drift,
/// the infeasible rows and the columns left out.
pub proof fn law_text_is_the_grid_and_the_notes(t: TableauModel, opts: RenderOpts)
    ensures
        t.text(opts) == grid_text(t.lines(opts), t.grid_columns(opts)) + t.pivot_note(opts)
            + t.phase_note(opts) + t.externals_note() + t.edits_note(opts) + t.optimality_note()
            + t.drift_note(opts) + t.infeasible_note() + t.elided_note(opts),
{
}

/// A pivot is announced as soon as a column or a row is marked; a question
/// mark stands for the one that is not. The pivot element is announced if both
/// are, negated in textbook signs.
pub proof fn law_pivot_note(t: TableauModel, opts: RenderOpts)
    ensures
        ({
            let note = t.pivot_note(opts);
            let enters = match t.pivot_col {
                Some(c) => t.columns[c as int].name,
                None => "?"@,
            };
            let leaves = match t.pivot_row {
                Some(r) => t.rows[r as int].basis,
                None => "?"@,
            };
            let words = "  pivot: "@ + enters + "* enters, "@ + leaves + " < leaves"@;
            let last = "  (this tableau is the state *before* that pivot)\n"@;
            match (t.pivot_col, t.pivot_row) {
                (None, None) => note == Seq::<char>::empty(),
                (Some(c), Some(r)) => {
                    let p = t.rows[r as int].coeffs[c as int];
                    let shown = if opts.textbook_signs {
                        num_text(negation(p), opts)
                    } else {
                        num_text(p, opts)
                    };
                    note == words + (", pivot element = "@ + shown) + "\n"@ + last
                },
                _ => note == words + "\n"@ + last,
            }
        }),
{
    let dictionary = RenderOpts { textbook_signs: false, ..opts };
    match (t.pivot_col, t.pivot_row) {
        (Some(c), Some(r)) => {
            lemma_shown(t.rows[r as int].coeffs[c as int], dictionary);
        },
        (None, None) => {},
        _ => {
            let enters = match t.pivot_col {
                Some(c) => t.columns[c as int].name,
                None => "?"@,
            };
            let leaves = match t.pivot_row {
                Some(r) => t.rows[r as int].basis,
                None => "?"@,
            };
            let words = "  pivot: "@ + enters + "* enters, "@ + leaves + " < leaves"@;
            assert(words + seq![] =~= words);
        },
    }
}

/// A phase-I objective is announced with its constant while there is one.
pub proof fn law_phase_note(t: TableauModel, opts: RenderOpts)
    ensures
        match t.phase_one {
            Some(p) => t.phase_note(opts) == "  phase-I objective: w="@ + num_text(
                p.carried_constant,
                opts,
            ) + " (artificial variable active)\n"@,
            None => t.phase_note(opts) == Seq::<char>::empty(),
        },
{
}

/// The external variables that are not basic are listed, with commas between
/// them, unless there are none.
pub proof fn law_externals_note(t: TableauModel)
    ensures
        t.nonbasic_externals.len() == 0 ==> t.externals_note() == Seq::<char>::empty(),
        t.nonbasic_externals.len() > 0 ==> t.externals_note() == "  nonbasic externals (=0): "@
            + joined(t.nonbasic_externals, ", "@) + "\n"@,
{
}

/// Each edit has a line with its name, its value and its strength, in the
/// order of the edits: another edit adds a line below the others.
pub proof fn law_edits_note(t: TableauModel, edit: EditModel, opts: RenderOpts)
    ensures
        t.edits.len() == 0 ==> t.edits_note(opts) == Seq::<char>::empty(),
        (TableauModel { edits: t.edits.push(edit), ..t }).edits_note(opts) == t.edits_note(opts) + (
        "  edit: "@ + edit.name + " = "@ + num_text(edit.value, opts) + " ("@ + strength_text(
            edit.strength,
            opts,
        ) + ")\n"@),
{
    let u = TableauModel { edits: t.edits.push(edit), ..t };
    let n = t.edits.len();
    lemma_first_edits(n, t, u, opts);
    assert(u.edits[n as int] == edit);
}

/// Edits that come later do not change the lines of those before.
proof fn lemma_first_edits(n: nat, t: TableauModel, u: TableauModel, opts: RenderOpts)
    requires
        forall|i: int| 0 <= i < n ==> t.edits[i] == u.edits[i],
    ensures
        concatenated(n, |i: int| edit_note(t.edits[i], opts)) == concatenated(
            n,
            |i: int| edit_note(u.edits[i], opts),
        ),
    decreases n,
{
    if n > 0 {
        lemma_first_edits((n - 1) as nat, t, u, opts);
        assert(t.edits[n - 1] == u.edits[n - 1]);
    }
}

/// The text says what an optimal tableau is, and whether this is one: no column
/// but dummies has a negative reduced cost.
pub proof fn law_optimality_note(t: TableauModel)
    ensures
        t.optimality_note()
            == "  minimisation: optimal when all cj-zj >= 0, dummy columns exempt (currently "@ + (
        if forall|j: int|
            0 <= j < t.columns.len() ==> (#[trigger] t.columns[j]).kind == SymbolKind::Dummy
                || t.objective.reduced[j].is_nan() || t.objective.reduced[j].value() >= 0 {
            "optimal"@
        } else {
            "not optimal"@
        }) + ")\n"@,
{
    lemma_zero();
    if t.optimal() {
        assert forall|j: int| 0 <= j < t.columns.len() implies (#[trigger] t.columns[j]).kind
            == SymbolKind::Dummy || t.objective.reduced[j].is_nan()
            || t.objective.reduced[j].value() >= 0 by {
            assert(!t.may_enter(j));
        }
    } else {
        let j = choose|j: int| 0 <= j < t.columns.len() && t.may_enter(j);
        assert(t.columns[j].kind != SymbolKind::Dummy);
    }
}

/// The carried constant is noted exactly when it has drifted from the
/// objective value by `EPSILON` or more.
pub proof fn law_drift_note(t: TableauModel, opts: RenderOpts)
    ensures
        t.drift().index() < EPSILON ==> t.drift_note(opts) == Seq::<char>::empty(),
        t.drift().index() >= EPSILON ==> t.drift_note(opts)
            == "  note: z is computed as sum(c_B*rhs); the solver's carried objective constant reads "@
            + num_text(t.objective.carried_constant, opts) + " (drifts across suggest_value)\n"@,
{
    law_near_zero(t.drift());
}

/// The mark of infeasible rows is explained exactly when there is one.
pub proof fn law_infeasible_note(t: TableauModel)
    ensures
        t.infeasible_note() == if exists|i: int|
            0 <= i < t.rows.len() && (#[trigger] t.rows[i]).infeasible {
            "  ! = infeasible row, pending dual_optimise\n"@
        } else {
            Seq::<char>::empty()
        },
{
}

/// It is said how many columns are left out, if any are.
pub proof fn law_elided_note(t: TableauModel, opts: RenderOpts)
    ensures
        ({
            let shown = t.shown_columns(opts).len();
            t.elided_note(opts) == if shown < t.columns.len() {
                "  "@ + nat_text((t.columns.len() - shown) as nat)
                    + " all-zero column(s) elided\n"@
            } else {
                Seq::<char>::empty()
            }
        }),
{
}

} // verus!
