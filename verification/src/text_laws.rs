//! What holds of the text of every snapshot and of every recording.
use vstd::prelude::*;

use crate::double::{absolute, negation, not_a_number, product, Double};
use crate::exact::{law_signs, lemma_signed};
use crate::format::{band_texts, is_near_zero, num_text, strength_text};
use crate::grid::{grid_text, LineModel};
use crate::options::RenderOpts;
use crate::render::{laid_out, law_live_columns, optional_num, shown_sign};
use crate::tableau::TableauModel;
use crate::text::{concatenated, nat_text};
use crate::trace::Trace;

verus! {

impl TableauModel {
    /// The line of row `i`, with `body` of each of its coefficients.
    pub open spec fn row_line_of(
        self,
        i: int,
        body: spec_fn(Double) -> Double,
        opts: RenderOpts,
    ) -> LineModel {
        laid_out(
            self.row_label(i),
            strength_text(self.rows[i].c_b, opts),
            self.across(|j: int| num_text(body(self.rows[i].coeffs[j]), opts), opts),
            num_text(self.rows[i].rhs, opts),
            self.in_ratio_column(optional_num(self.rows[i].ratio, opts), opts),
        )
    }

    /// The cells of the reduced costs.
    pub open spec fn reduced_cells(self, opts: RenderOpts) -> Seq<Seq<char>> {
        self.across(|j: int| num_text(self.objective.reduced[j], opts), opts)
    }
}

/// In textbook signs the body is negated and nothing else. A row shows its
/// coefficients negated; its label, `CB`, `b` and ratio stay the same, and so
/// do the lines of costs, names and dual ratios and the cells of the reduced
/// costs.
pub proof fn law_only_the_body_is_negated(t: TableauModel, dictionary: RenderOpts, i: int)
    requires
        !dictionary.textbook_signs,
        t.columns.len() <= usize::MAX,
    ensures
        ({
            let textbook = RenderOpts { textbook_signs: true, ..dictionary };
            &&& t.row_line(i, dictionary) == t.row_line_of(i, |c: Double| c, dictionary)
            &&& t.row_line(i, textbook) == t.row_line_of(i, |c: Double| negation(c), dictionary)
            &&& t.cost_line(textbook) == t.cost_line(dictionary)
            &&& t.heading_line(textbook) == t.heading_line(dictionary)
            &&& t.dual_line(textbook) == t.dual_line(dictionary)
            &&& t.reduced_cells(textbook) == t.reduced_cells(dictionary)
        }),
{
    let textbook = RenderOpts { textbook_signs: true, ..dictionary };
    let n = t.columns.len();
    let row = t.rows[i];
    assert forall|k: int| 0 <= k < t.shown_columns(dictionary).len() implies 0
        <= #[trigger] t.shown_columns(dictionary)[k] < n by {
        law_live_columns(t, n);
    }
    assert forall|v: Double| #[trigger] num_text(v, textbook) == num_text(v, dictionary) by {}
    assert forall|v: Double| #[trigger]
        strength_text(v, textbook) == strength_text(v, dictionary) by {
        lemma_signs_do_not_matter(v, dictionary);
    }
    assert forall|c: Double| #[trigger]
        num_text(product(shown_sign(dictionary), c), dictionary) == num_text(c, dictionary) by {
        lemma_shown(c, dictionary);
    }
    assert forall|c: Double| #[trigger]
        num_text(product(shown_sign(textbook), c), textbook) == num_text(
        negation(c),
        dictionary,
    ) by {
        lemma_shown(c, dictionary);
    }
    let cost = |j: int| strength_text(t.columns[j].cost, dictionary);
    let textbook_cost = |j: int| strength_text(t.columns[j].cost, textbook);
    assert(t.across(textbook_cost, textbook) =~= t.across(cost, dictionary));
    let heading = |j: int| t.heading(j);
    assert(t.across(heading, textbook) =~= t.across(heading, dictionary));
    let dual = |j: int| optional_num(t.dual_ratios->0[j], dictionary);
    let textbook_dual = |j: int| optional_num(t.dual_ratios->0[j], textbook);
    assert(t.across(textbook_dual, textbook) =~= t.across(dual, dictionary));
    assert(t.reduced_cells(textbook) =~= t.reduced_cells(dictionary));
    let same = |c: Double| c;
    let negated = |c: Double| negation(c);
    let a = |j: int| num_text(product(shown_sign(dictionary), row.coeffs[j]), dictionary);
    let b = |j: int| num_text(same(row.coeffs[j]), dictionary);
    assert(t.across(a, dictionary) =~= t.across(b, dictionary));
    let c = |j: int| num_text(product(shown_sign(textbook), row.coeffs[j]), textbook);
    let d = |j: int| num_text(negated(row.coeffs[j]), dictionary);
    assert(t.across(c, textbook) =~= t.across(d, dictionary));
}

/// What a coefficient is shown as, in either presentation.
pub(crate) proof fn lemma_shown(c: Double, dictionary: RenderOpts)
    requires
        !dictionary.textbook_signs,
    ensures
        ({
            let textbook = RenderOpts { textbook_signs: true, ..dictionary };
            &&& num_text(product(shown_sign(dictionary), c), dictionary) == num_text(c, dictionary)
            &&& num_text(product(shown_sign(textbook), c), textbook) == num_text(
                negation(c),
                dictionary,
            )
        }),
{
    if c.is_nan() {
        lemma_signed(!c.is_neg(), c.index());
        assert(num_text(not_a_number(), dictionary) == num_text(c, dictionary));
    } else {
        law_signs(c);
    }
}

/// A strength is shown alike in either presentation.
proof fn lemma_signs_do_not_matter(v: Double, dictionary: RenderOpts)
    ensures
        strength_text(v, RenderOpts { textbook_signs: true, ..dictionary }) == strength_text(
            v,
            dictionary,
        ),
{
    let textbook = RenderOpts { textbook_signs: true, ..dictionary };
    assert(band_texts(v, textbook) =~= band_texts(v, dictionary));
}

/// A snapshot without marks says nothing of a pivot.
pub proof fn law_unmarked_snapshots_show_no_pivot(t: TableauModel, opts: RenderOpts)
    requires
        t.pivot_col is None,
        t.pivot_row is None,
    ensures
        t.pivot_note(opts) == Seq::<char>::empty(),
        t.pivot_element() is None,
        forall|j: int| t.heading(j) == t.columns[j].name,
        forall|i: int|
            t.row_label(i) == t.rows[i].basis + if t.rows[i].infeasible {
                " !"@
            } else {
                seq![]
            },
{
    assert forall|j: int| t.heading(j) == t.columns[j].name by {}
    assert forall|i: int| t.row_label(i) == t.rows[i].basis + if t.rows[i].infeasible {
        " !"@
    } else {
        seq![]
    } by {
        assert(t.row_label(i) =~= t.rows[i].basis + if t.rows[i].infeasible {
            " !"@
        } else {
            seq![]
        });
    }
}

/// A column is only left out if every cell in it would read `0`: in each row,
/// in either presentation, and in the reduced costs.
pub proof fn law_elided_columns_are_zeros(t: TableauModel, opts: RenderOpts, i: int, j: int)
    requires
        t.columns.len() <= usize::MAX,
        0 <= i < t.rows.len(),
        0 <= j < t.columns.len(),
        !t.shown_columns(opts).contains(j as usize),
    ensures
        num_text(product(shown_sign(opts), t.rows[i].coeffs[j]), opts) == "0"@,
        num_text(t.objective.reduced[j], opts) == "0"@,
{
    let c = t.rows[i].coeffs[j];
    if !opts.elide_zero_columns {
        assert(t.shown_columns(opts)[j] == j as usize);
    }
    law_live_columns(t, t.columns.len());
    assert(!t.is_live(j));
    assert(is_near_zero(c));
    lemma_signed(!c.is_neg(), c.index());
    lemma_signed(false, c.index());
    assert(absolute(c).index() == c.index());
    law_signs(c);
    assert(is_near_zero(negation(c)));
}

/// The column of a marked pivot is shown, unless its element is next to zero.
pub proof fn law_pivot_column_is_shown(t: TableauModel, opts: RenderOpts)
    requires
        t.wf(),
        t.columns.len() <= usize::MAX,
        t.pivot_element() is Some,
        !is_near_zero(t.pivot_element()->0),
    ensures
        t.shown_columns(opts).contains(t.pivot_col->0),
{
    let c = t.pivot_col->0;
    law_live_columns(t, t.columns.len());
    if !opts.elide_zero_columns {
        assert(t.shown_columns(opts)[c as int] == c);
    }
}

/// One text is part of a longer one.
pub open spec fn occurs_in(part: Seq<char>, text: Seq<char>) -> bool {
    exists|before: Seq<char>, after: Seq<char>| text == #[trigger] (before + part + after)
}

/// Each of the texts put together occurs in the result.
proof fn lemma_concatenated_part(n: nat, f: spec_fn(int) -> Seq<char>, i: int)
    requires
        0 <= i < n,
    ensures
        occurs_in(f(i), concatenated(n, f)),
    decreases n,
{
    let rest = concatenated((n - 1) as nat, f);
    if i == n - 1 {
        assert(concatenated(n, f) =~= rest + f(i) + seq![]);
    } else {
        lemma_concatenated_part((n - 1) as nat, f, i);
        let (before, after) = choose|before: Seq<char>, after: Seq<char>|
            rest == #[trigger] (before + f(i) + after);
        assert(concatenated(n, f) =~= before + f(i) + (after + f(n - 1)));
    }
}

/// What two texts are put together of occurs in the result.
proof fn lemma_occurs_beside(a: Seq<char>, b: Seq<char>)
    ensures
        occurs_in(a, a + b),
        occurs_in(b, a + b),
{
    let none = Seq::<char>::empty();
    assert(a + b =~= none + a + b);
    assert(a + b =~= a + b + none);
}

/// A part of a part is a part.
proof fn lemma_occurs_within(a: Seq<char>, b: Seq<char>, c: Seq<char>)
    requires
        occurs_in(a, b),
        occurs_in(b, c),
    ensures
        occurs_in(a, c),
{
    let (p, q) = choose|p: Seq<char>, q: Seq<char>| b == #[trigger] (p + a + q);
    let (r, s) = choose|r: Seq<char>, s: Seq<char>| c == #[trigger] (r + b + s);
    assert(c =~= (r + p) + a + (q + s));
}

/// A recording shows every step, under its number and the number of steps.
pub proof fn law_every_step_is_numbered(trace: Trace, opts: RenderOpts, i: int)
    requires
        0 <= i < trace.steps@.len(),
    ensures
        occurs_in(trace.step_text(i, opts), trace.text(opts)),
        occurs_in(
            "--- step "@ + nat_text((i + 1) as nat) + " of "@ + nat_text(trace.steps@.len())
                + ": "@,
            trace.text(opts),
        ),
        occurs_in(trace.steps@[i].tableau@.text(opts), trace.text(opts)),
{
    let f = |k: int| trace.step_text(k, opts);
    lemma_concatenated_part(trace.steps@.len(), f, i);
    let text = trace.text(opts);
    let step = trace.step_text(i, opts);
    let head = "--- step "@ + nat_text((i + 1) as nat) + " of "@ + nat_text(trace.steps@.len())
        + ": "@;
    let body = trace.steps@[i].tableau@.text(opts);
    let a = head + trace.steps@[i].event.description();
    let b = a + " "@;
    let c = b + "--------"@;
    let d = c + "\n"@;
    let e = d + body;
    lemma_occurs_beside(head, trace.steps@[i].event.description());
    lemma_occurs_beside(a, " "@);
    lemma_occurs_beside(b, "--------"@);
    lemma_occurs_beside(c, "\n"@);
    lemma_occurs_beside(d, body);
    lemma_occurs_beside(e, "\n"@);
    lemma_occurs_within(head, a, b);
    lemma_occurs_within(head, b, c);
    lemma_occurs_within(head, c, d);
    lemma_occurs_within(head, d, e);
    lemma_occurs_within(head, e, step);
    lemma_occurs_within(head, step, text);
    lemma_occurs_within(body, step, text);
}

/// A marked pivot is announced: the text shows the entering column's name with
/// a star, the leaving row's with `<`, the pivot element, and that the tableau
/// is the one before the pivot.
pub proof fn law_pivot_marks_appear(t: TableauModel, opts: RenderOpts)
    requires
        t.pivot_col is Some,
        t.pivot_row is Some,
    ensures
        occurs_in(t.columns[t.pivot_col->0 as int].name + "*"@, t.text(opts)),
        occurs_in(t.rows[t.pivot_row->0 as int].basis + " <"@, t.text(opts)),
        occurs_in(
            "pivot element = "@ + num_text(
                product(shown_sign(opts), t.pivot_element()->0),
                opts,
            ),
            t.text(opts),
        ),
        occurs_in("state *before* that pivot"@, t.text(opts)),
{
    let entering = t.columns[t.pivot_col->0 as int].name;
    let leaving = t.rows[t.pivot_row->0 as int].basis;
    let element = num_text(product(shown_sign(opts), t.pivot_element()->0), opts);
    let text = t.text(opts);
    let a = "  pivot: "@ + entering + "* enters, "@;
    let b = a + leaving;
    let c = b + " < leaves"@;
    let shown = ", pivot element = "@ + element;
    let d = c + shown;
    let e = d + "\n"@;
    let last = "  (this tableau is the state *before* that pivot)\n"@;
    let note = e + last;
    assert(t.pivot_note(opts) == note);
    lemma_note_occurs(t, opts);
    lemma_pivot_words();
    lemma_occurs_across("  pivot: "@, entering, "*"@, " enters, "@);
    lemma_occurs_across(a, leaving, " <"@, " leaves"@);
    assert(shown =~= ", "@ + ("pivot element = "@ + element));
    lemma_occurs_beside(", "@, "pivot element = "@ + element);
    lemma_occurs_beside(a, leaving);
    lemma_occurs_beside(b, " < leaves"@);
    lemma_occurs_beside(c, shown);
    lemma_occurs_beside(d, "\n"@);
    lemma_occurs_beside(e, last);
    let x = entering + "*"@;
    lemma_occurs_within(x, a, b);
    lemma_occurs_within(x, b, c);
    lemma_occurs_within(x, c, d);
    lemma_occurs_within(x, d, e);
    lemma_occurs_within(x, e, note);
    lemma_occurs_within(x, note, text);
    let y = leaving + " <"@;
    lemma_occurs_within(y, c, d);
    lemma_occurs_within(y, d, e);
    lemma_occurs_within(y, e, note);
    lemma_occurs_within(y, note, text);
    let z = "pivot element = "@ + element;
    lemma_occurs_within(z, shown, d);
    lemma_occurs_within(z, d, e);
    lemma_occurs_within(z, e, note);
    lemma_occurs_within(z, note, text);
    let w = "state *before* that pivot"@;
    lemma_occurs_within(w, last, note);
    lemma_occurs_within(w, note, text);
}

/// What is announced of a pivot, in parts.
proof fn lemma_pivot_words()
    ensures
        "* enters, "@ == "*"@ + " enters, "@,
        " < leaves"@ == " <"@ + " leaves"@,
        ", pivot element = "@ == ", "@ + "pivot element = "@,
        occurs_in(
            "state *before* that pivot"@,
            "  (this tableau is the state *before* that pivot)\n"@,
        ),
{
    reveal_strlit("*");
    reveal_strlit(" enters, ");
    reveal_strlit("* enters, ");
    reveal_strlit(" <");
    reveal_strlit(" leaves");
    reveal_strlit(" < leaves");
    reveal_strlit(", ");
    reveal_strlit("pivot element = ");
    reveal_strlit(", pivot element = ");
    reveal_strlit("  (this tableau is the ");
    reveal_strlit("state *before* that pivot");
    reveal_strlit(")\n");
    reveal_strlit("  (this tableau is the state *before* that pivot)\n");
    assert("  (this tableau is the state *before* that pivot)\n"@ =~= "  (this tableau is the "@
        + "state *before* that pivot"@ + ")\n"@);
}

/// What stands across the border of two texts occurs in them.
proof fn lemma_occurs_across(a: Seq<char>, b: Seq<char>, c: Seq<char>, d: Seq<char>)
    ensures
        occurs_in(b + c, a + b + (c + d)),
{
    assert(a + b + (c + d) =~= a + (b + c) + d);
}

/// What is said of the pivot is part of the text.
proof fn lemma_note_occurs(t: TableauModel, opts: RenderOpts)
    ensures
        occurs_in(t.pivot_note(opts), t.text(opts)),
{
    let note = t.pivot_note(opts);
    let a = grid_text(t.lines(opts), t.grid_columns(opts)) + note;
    let b = a + t.phase_note(opts);
    let c = b + t.externals_note();
    let d = c + t.edits_note(opts);
    let e = d + t.optimality_note();
    let f = e + t.drift_note(opts);
    let g = f + t.infeasible_note();
    lemma_occurs_beside(grid_text(t.lines(opts), t.grid_columns(opts)), note);
    lemma_occurs_beside(a, t.phase_note(opts));
    lemma_occurs_beside(b, t.externals_note());
    lemma_occurs_beside(c, t.edits_note(opts));
    lemma_occurs_beside(d, t.optimality_note());
    lemma_occurs_beside(e, t.drift_note(opts));
    lemma_occurs_beside(f, t.infeasible_note());
    lemma_occurs_beside(g, t.elided_note(opts));
    lemma_occurs_within(note, b, c);
    lemma_occurs_within(note, c, d);
    lemma_occurs_within(note, d, e);
    lemma_occurs_within(note, e, f);
    lemma_occurs_within(note, f, g);
    lemma_occurs_within(note, g, t.text(opts));
}

} // verus!
