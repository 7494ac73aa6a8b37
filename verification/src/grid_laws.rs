//! Where everything stands in a grid, character by character.
use vstd::prelude::*;

use crate::grid::{
    cell, cell_part, grid_text, law_grid_is_rectangular, lemma_width, line_models, line_text,
    rule_part, rule_text, width, Line, LineModel,
};
use crate::text::concatenated;

verus! {

/// A line has the cells that it was made of, and empty ones behind them.
pub proof fn law_lines_hold_their_cells(cells: Seq<Seq<char>>, i: int)
    ensures
        0 <= i < cells.len() ==> cell(LineModel::Cells(cells), i) == cells[i],
        i >= cells.len() ==> cell(LineModel::Cells(cells), i) == Seq::<char>::empty(),
        cell(LineModel::Sep, i) == Seq::<char>::empty(),
{
}

/// What a line of texts says is what its texts hold.
pub proof fn law_lines_say_their_texts(lines: Seq<Line>, k: int, i: int)
    requires
        0 <= k < lines.len(),
    ensures
        line_models(lines).len() == lines.len(),
        match lines[k] {
            Line::Sep => line_models(lines)[k] is Sep,
            Line::Cells(cells) => {
                &&& line_models(lines)[k] is Cells
                &&& line_models(lines)[k]->Cells_0.len() == cells@.len()
                &&& 0 <= i < cells@.len() ==> cell(line_models(lines)[k], i) == cells@[i]@
            },
        },
{
}

/// A column is as wide as its longest cell, and empty if it has none.
pub proof fn law_columns_are_as_wide_as_their_cells(lines: Seq<LineModel>, i: int)
    ensures
        forall|k: int|
            0 <= k < lines.len() ==> cell(#[trigger] lines[k], i).len() <= width(lines, i),
        width(lines, i) == 0 || exists|k: int|
            0 <= k < lines.len() && cell(#[trigger] lines[k], i).len() == width(lines, i),
    decreases lines.len(),
{
    assert forall|k: int| 0 <= k < lines.len() implies cell(#[trigger] lines[k], i).len() <= width(
        lines,
        i,
    ) by {
        lemma_width(lines, k, i);
    }
    if lines.len() > 0 && width(lines, i) > 0 {
        let above = lines.drop_last();
        if cell(lines.last(), i).len() == width(lines, i) {
            assert(lines[lines.len() - 1] == lines.last());
        } else {
            law_columns_are_as_wide_as_their_cells(above, i);
            let k = choose|k: int|
                0 <= k < above.len() && cell(#[trigger] above[k], i).len() == width(above, i);
            assert(lines[k] == above[k]);
        }
    }
}

/// Where column `i` begins: behind the border, and behind the columns to the
/// left with a space on either side and a border each.
pub open spec fn offset(lines: Seq<LineModel>, i: nat) -> nat
    decreases i,
{
    if i == 0 {
        1
    } else {
        offset(lines, (i - 1) as nat) + width(lines, i - 1) + 3
    }
}

/// Where the texts of the columns stand when they are put together.
proof fn lemma_placed(
    n: nat,
    f: spec_fn(int) -> Seq<char>,
    lines: Seq<LineModel>,
    i: int,
    p: int,
)
    requires
        forall|h: int| 0 <= h < n ==> (#[trigger] f(h)).len() == width(lines, h) + 3,
    ensures
        concatenated(n, f).len() + 1 == offset(lines, n),
        0 <= i < n && 0 <= p < width(lines, i) + 3 ==> {
            let at = offset(lines, i as nat) - 1 + p;
            0 <= at < concatenated(n, f).len() && concatenated(n, f)[at] == f(i)[p]
        },
    decreases n,
{
    if n > 0 {
        let m = (n - 1) as nat;
        lemma_placed(m, f, lines, i, p);
        assert(f(m as int).len() == width(lines, m as int) + 3);
    }
}

/// A rule: a cross at the left and behind each column, and dashes between.
pub proof fn law_rules(lines: Seq<LineModel>, ncols: nat, i: int, p: int)
    requires
        0 <= i < ncols,
        0 <= p < width(lines, i) + 3,
    ensures
        ({
            let rule = rule_text(lines, ncols);
            &&& rule.len() == offset(lines, ncols)
            &&& rule[0] == '+'
            &&& offset(lines, i as nat) + p < rule.len()
            &&& rule[offset(lines, i as nat) + p] == if p == width(lines, i) + 2 {
                '+'
            } else {
                '-'
            }
        }),
{
    let f = |h: int| rule_part(width(lines, h));
    reveal_strlit("+");
    assert forall|h: int| 0 <= h < ncols implies (#[trigger] f(h)).len() == width(lines, h) + 3 by {
    }
    lemma_placed(ncols, f, lines, i, p);
    let at = offset(lines, i as nat) - 1 + p;
    assert(rule_text(lines, ncols)[1 + at] == concatenated(ncols, f)[at]);
}

/// A line of cells: a border at the left and behind each column. The text of a
/// cell stands at the right of its column, that of the first column in the
/// middle, and there are only spaces round it.
pub proof fn law_cells(lines: Seq<LineModel>, ncols: nat, k: int, i: int, p: int)
    requires
        0 <= k < lines.len(),
        lines[k] is Cells,
        0 <= i < ncols,
        0 <= p < width(lines, i) + 3,
    ensures
        ({
            let line = line_text(lines, ncols, k);
            let text = cell(lines[k], i);
            let w = width(lines, i);
            let left = if i == 0 {
                1 + (w - text.len()) / 2
            } else {
                1 + w - text.len()
            };
            &&& line.len() == offset(lines, ncols)
            &&& line[0] == '|'
            &&& offset(lines, i as nat) + p < line.len()
            &&& line[offset(lines, i as nat) + p] == if p == w + 2 {
                '|'
            } else if left <= p < left + text.len() {
                text[p - left]
            } else {
                ' '
            }
        }),
{
    let f = |h: int| cell_part(cell(lines[k], h), width(lines, h), h);
    reveal_strlit("|");
    reveal_strlit(" ");
    reveal_strlit(" |");
    assert forall|h: int| 0 <= h < ncols implies (#[trigger] f(h)).len() == width(lines, h) + 3 by {
        lemma_width(lines, k, h);
    }
    lemma_placed(ncols, f, lines, i, p);
    lemma_width(lines, k, i);
    let at = offset(lines, i as nat) - 1 + p;
    assert(line_text(lines, ncols, k)[1 + at] == concatenated(ncols, f)[at]);
    lemma_cell_part(cell(lines[k], i), width(lines, i), i, p);
}

/// A cell, character by character.
proof fn lemma_cell_part(text: Seq<char>, w: nat, i: int, p: int)
    requires
        text.len() <= w,
        0 <= p < w + 3,
    ensures
        ({
            let left = if i == 0 {
                1 + (w - text.len()) / 2
            } else {
                1 + w - text.len()
            };
            cell_part(text, w, i)[p] == if p == w + 2 {
                '|'
            } else if left <= p < left + text.len() {
                text[p - left]
            } else {
                ' '
            }
        }),
{
    reveal_strlit(" ");
    reveal_strlit(" |");
}

/// The lines of a grid stand one below the other: all are equally long, and
/// each ends with a new line.
pub proof fn law_grid_layout(lines: Seq<LineModel>, ncols: nat, k: int, p: int)
    requires
        0 <= k < lines.len(),
        0 <= p < offset(lines, ncols),
    ensures
        ({
            let w = offset(lines, ncols);
            let text = grid_text(lines, ncols);
            &&& text.len() == lines.len() * (w + 1)
            &&& line_text(lines, ncols, k).len() == w
            &&& 0 <= k * (w + 1) + p < k * (w + 1) + w < text.len()
            &&& text[k * (w + 1) + p] == line_text(lines, ncols, k)[p]
            &&& text[k * (w + 1) + w] == '\n'
        }),
{
    let w = offset(lines, ncols);
    let f = |h: int| line_text(lines, ncols, h) + "\n"@;
    reveal_strlit("\n");
    law_grid_is_rectangular(lines, ncols);
    lemma_rule_len(lines, ncols);
    assert forall|h: int| 0 <= h < lines.len() implies (#[trigger] f(h)).len() == w + 1 by {
        assert(line_text(lines, ncols, h).len() == rule_text(lines, ncols).len());
    }
    lemma_stacked(lines.len(), f, w + 1, k, p);
    lemma_stacked(lines.len(), f, w + 1, k, w as int);
    assert(line_text(lines, ncols, k).len() == w);
    assert(f(k)[p] == line_text(lines, ncols, k)[p]);
    assert(f(k)[w as int] == '\n');
    assert(k * (w + 1) >= 0) by (nonlinear_arith)
        requires
            k >= 0,
            w >= 0,
    ;
}

/// How long a rule is.
proof fn lemma_rule_len(lines: Seq<LineModel>, ncols: nat)
    ensures
        rule_text(lines, ncols).len() == offset(lines, ncols),
{
    let f = |h: int| rule_part(width(lines, h));
    reveal_strlit("+");
    assert forall|h: int| 0 <= h < ncols implies (#[trigger] f(h)).len() == width(lines, h) + 3 by {
    }
    lemma_placed(ncols, f, lines, 0, 0);
}

/// Where equally long texts stand when they are put together.
proof fn lemma_stacked(n: nat, f: spec_fn(int) -> Seq<char>, w: nat, k: int, p: int)
    requires
        forall|h: int| 0 <= h < n ==> (#[trigger] f(h)).len() == w,
    ensures
        concatenated(n, f).len() == n * w,
        0 <= k < n && 0 <= p < w ==> k * w + p < n * w && concatenated(n, f)[k * w + p] == f(k)[p],
    decreases n,
{
    if n > 0 {
        let m = (n - 1) as nat;
        lemma_stacked(m, f, w, k, p);
        assert(f(m as int).len() == w);
        assert(n * w == m * w + w) by (nonlinear_arith)
            requires
                n == m + 1,
        ;
        if 0 <= k < n && 0 <= p < w {
            assert(k * w + p < n * w && k * w >= 0) by (nonlinear_arith)
                requires
                    0 <= k < n,
                    0 <= p < w,
            ;
            if k == m {
                assert(concatenated(n, f)[k * w + p] == f(k)[p]);
            }
        }
    } else {
        assert(n * w == 0) by (nonlinear_arith)
            requires
                n == 0,
        ;
    }
}

} // verus!
