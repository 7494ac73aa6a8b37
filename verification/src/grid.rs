//! Texts in a ruled grid.
use vstd::prelude::*;

use crate::text::{concatenated, push_repeated, repeated, texts};

verus! {

/// A line of a grid: a rule, or cells from left to right.
#[derive(Debug)]
pub enum Line {
    Sep,
    Cells(Vec<String>),
}

/// What a line of a grid says.
#[verifier::ext_equal]
pub enum LineModel {
    Sep,
    Cells(Seq<Seq<char>>),
}

impl View for Line {
    type V = LineModel;

    open spec fn view(&self) -> LineModel {
        match self {
            Line::Sep => LineModel::Sep,
            Line::Cells(cells) => LineModel::Cells(texts(cells@)),
        }
    }
}

/// What the lines of a grid say.
pub open spec fn line_models(lines: Seq<Line>) -> Seq<LineModel> {
    lines.map_values(|l: Line| l@)
}

/// The text in column `i` of a line; empty where the line has no such cell.
pub open spec fn cell(line: LineModel, i: int) -> Seq<char> {
    match line {
        LineModel::Sep => seq![],
        LineModel::Cells(cells) => if i < cells.len() {
            cells[i]
        } else {
            seq![]
        },
    }
}

/// The width of column `i`: that of its longest cell.
pub open spec fn width(lines: Seq<LineModel>, i: int) -> nat
    decreases lines.len(),
{
    if lines.len() == 0 {
        0
    } else {
        let above = width(lines.drop_last(), i);
        let here = cell(lines.last(), i).len();
        if here > above {
            here
        } else {
            above
        }
    }
}

/// The rule below a column.
pub open spec fn rule_part(w: nat) -> Seq<char> {
    repeated('-', w + 2) + "+"@
}

/// A cell in a column of width `w`: the leftmost column (basis labels) is
/// centred, every other is aligned to the right.
pub open spec fn cell_part(text: Seq<char>, w: nat, i: int) -> Seq<char> {
    let pad = (w - text.len()) as nat;
    if i == 0 {
        " "@ + repeated(' ', pad / 2) + text + repeated(' ', (pad - pad / 2) as nat) + " |"@
    } else {
        " "@ + repeated(' ', pad) + text + " |"@
    }
}

/// A rule across the grid.
pub open spec fn rule_text(lines: Seq<LineModel>, ncols: nat) -> Seq<char> {
    "+"@ + concatenated(ncols, |i: int| rule_part(width(lines, i)))
}

/// A line of cells across the grid.
pub open spec fn cells_text(lines: Seq<LineModel>, ncols: nat, line: LineModel) -> Seq<char> {
    "|"@ + concatenated(ncols, |i: int| cell_part(cell(line, i), width(lines, i), i))
}

/// Line `k` of a grid.
pub open spec fn line_text(lines: Seq<LineModel>, ncols: nat, k: int) -> Seq<char> {
    match lines[k] {
        LineModel::Sep => rule_text(lines, ncols),
        LineModel::Cells(_) => cells_text(lines, ncols, lines[k]),
    }
}

/// A grid: its lines one below the other.
pub open spec fn grid_text(lines: Seq<LineModel>, ncols: nat) -> Seq<char> {
    concatenated(lines.len(), |k: int| line_text(lines, ncols, k) + "\n"@)
}

/// No line of the grid has more cells than there are columns.
pub open spec fn fits(lines: Seq<LineModel>, ncols: nat) -> bool {
    forall|k: int|
        0 <= k < lines.len() ==> match #[trigger] lines[k] {
            LineModel::Sep => true,
            LineModel::Cells(cells) => cells.len() <= ncols,
        }
}

/// Every cell fits in its column.
pub(crate) proof fn lemma_width(lines: Seq<LineModel>, k: int, i: int)
    requires
        0 <= k < lines.len(),
    ensures
        cell(lines[k], i).len() <= width(lines, i),
    decreases lines.len(),
{
    if k < lines.len() - 1 {
        lemma_width(lines.drop_last(), k, i);
    }
}

/// Texts of the same lengths have the same length together.
proof fn lemma_concatenated_len(
    n: nat,
    f: spec_fn(int) -> Seq<char>,
    g: spec_fn(int) -> Seq<char>,
)
    requires
        forall|i: int| 0 <= i < n ==> (#[trigger] f(i)).len() == g(i).len(),
    ensures
        concatenated(n, f).len() == concatenated(n, g).len(),
    decreases n,
{
    if n > 0 {
        lemma_concatenated_len((n - 1) as nat, f, g);
    }
}

/// A grid is a rectangle: all its lines are as long as its rules.
pub proof fn law_grid_is_rectangular(lines: Seq<LineModel>, ncols: nat)
    ensures
        forall|k: int|
            0 <= k < lines.len() ==> (#[trigger] line_text(lines, ncols, k)).len() == rule_text(
                lines,
                ncols,
            ).len(),
{
    reveal_strlit("+");
    reveal_strlit("|");
    reveal_strlit(" ");
    reveal_strlit(" |");
    assert forall|k: int| 0 <= k < lines.len() implies (#[trigger] line_text(
        lines,
        ncols,
        k,
    )).len() == rule_text(lines, ncols).len() by {
        let f = |i: int| cell_part(cell(lines[k], i), width(lines, i), i);
        let g = |i: int| rule_part(width(lines, i));
        assert forall|i: int| 0 <= i < ncols implies (#[trigger] f(i)).len() == g(i).len() by {
            lemma_width(lines, k, i);
        }
        lemma_concatenated_len(ncols, f, g);
    }
}

/// The widths of the columns.
fn column_widths(lines: &[Line], ncols: usize) -> (r: Vec<usize>)
    requires
        fits(line_models(lines@), ncols as nat),
    ensures
        r@.len() == ncols,
        forall|i: int| 0 <= i < ncols ==> #[trigger] r@[i] == width(line_models(lines@), i),
{
    let ghost all = line_models(lines@);
    let mut widths: Vec<usize> = Vec::new();
    let mut i: usize = 0;
    while i < ncols
        invariant
            i <= ncols,
            widths@.len() == i,
            forall|c: int| 0 <= c < i ==> widths@[c] == 0,
        decreases ncols - i,
    {
        widths.push(0);
        i = i + 1;
    }
    let mut k: usize = 0;
    while k < lines.len()
        invariant
            k <= lines@.len(),
            all == line_models(lines@),
            fits(all, ncols as nat),
            widths@.len() == ncols,
            forall|c: int| 0 <= c < ncols ==> #[trigger] widths@[c] == width(all.take(k as int), c),
        decreases lines@.len() - k,
    {
        let ghost above = all.take(k as int);
        let ghost upto = all.take(k + 1);
        assert(upto.drop_last() =~= above);
        match &lines[k] {
            Line::Sep => {},
            Line::Cells(cells) => {
                let ghost line = all[k as int];
                let mut c: usize = 0;
                while c < cells.len()
                    invariant
                        c <= cells@.len() <= ncols,
                        line == LineModel::Cells(texts(cells@)),
                        upto.len() > 0,
                        upto.last() == line,
                        upto.drop_last() == above,
                        widths@.len() == ncols,
                        forall|b: int|
                            0 <= b < ncols ==> #[trigger] widths@[b] == if b < c {
                                width(upto, b)
                            } else {
                                width(above, b)
                            },
                    decreases cells@.len() - c,
                {
                    let n: usize = cells[c].as_str().unicode_len();
                    if n > widths[c] {
                        widths.set(c, n);
                    }
                    c = c + 1;
                }
            },
        }
        k = k + 1;
    }
    assert(all.take(k as int) =~= all);
    widths
}

/// Appends a rule across the grid.
fn push_rule(out: &mut String, widths: &Vec<usize>, Ghost(lines): Ghost<Seq<LineModel>>)
    requires
        forall|i: int| 0 <= i < widths@.len() ==> #[trigger] widths@[i] == width(lines, i),
    ensures
        final(out)@ == old(out)@ + rule_text(lines, widths@.len()),
{
    let ghost f = |i: int| rule_part(width(lines, i));
    out.append("+");
    let ghost start = out@;
    let mut i: usize = 0;
    while i < widths.len()
        invariant
            i <= widths@.len(),
            f == (|i: int| rule_part(width(lines, i))),
            forall|i: int| 0 <= i < widths@.len() ==> #[trigger] widths@[i] == width(lines, i),
            out@ == start + concatenated(i as nat, f),
        decreases widths@.len() - i,
    {
        proof {
            reveal_strlit("-");
            reveal_strlit("--");
        }
        push_repeated(out, "-", widths[i]);
        out.append("--");
        out.append("+");
        i = i + 1;
    }
}

/// Appends a line of cells across the grid.
fn push_cells(
    out: &mut String,
    cells: &Vec<String>,
    widths: &Vec<usize>,
    Ghost(lines): Ghost<Seq<LineModel>>,
)
    requires
        forall|i: int| 0 <= i < widths@.len() ==> #[trigger] widths@[i] == width(lines, i),
        forall|i: int|
            0 <= i < widths@.len() ==> cell(LineModel::Cells(texts(cells@)), i).len()
                <= #[trigger] widths@[i],
    ensures
        final(out)@ == old(out)@ + cells_text(
            lines,
            widths@.len(),
            LineModel::Cells(texts(cells@)),
        ),
{
    let ghost line = LineModel::Cells(texts(cells@));
    let ghost f = |i: int| cell_part(cell(line, i), width(lines, i), i);
    out.append("|");
    let ghost start = out@;
    let mut i: usize = 0;
    while i < widths.len()
        invariant
            i <= widths@.len(),
            line == LineModel::Cells(texts(cells@)),
            f == (|i: int| cell_part(cell(line, i), width(lines, i), i)),
            forall|i: int| 0 <= i < widths@.len() ==> #[trigger] widths@[i] == width(lines, i),
            forall|i: int|
                0 <= i < widths@.len() ==> cell(line, i).len() <= #[trigger] widths@[i],
            out@ == start + concatenated(i as nat, f),
        decreases widths@.len() - i,
    {
        proof {
            reveal_strlit(" ");
            reveal_strlit("");
        }
        let text: &str = if i < cells.len() {
            cells[i].as_str()
        } else {
            ""
        };
        assert(text@ =~= cell(line, i as int));
        let ghost here = out@;
        let pad: usize = widths[i] - text.unicode_len();
        let left: usize = if i == 0 {
            pad / 2
        } else {
            pad
        };
        out.append(" ");
        push_repeated(out, " ", left);
        out.append(text);
        push_repeated(out, " ", pad - left);
        out.append(" |");
        assert(out@ =~= here + f(i as int));
        assert(out@ =~= start + (concatenated(i as nat, f) + f(i as int)));
        i = i + 1;
    }
}

/// The given lines as a ruled grid.
pub fn grid(lines: &[Line], ncols: usize) -> (r: String)
    requires
        fits(line_models(lines@), ncols as nat),
    ensures
        r@ == grid_text(line_models(lines@), ncols as nat),
{
    let ghost all = line_models(lines@);
    let ghost f = |k: int| line_text(all, ncols as nat, k) + "\n"@;
    let widths: Vec<usize> = column_widths(lines, ncols);
    let mut out: String = String::new();
    let mut k: usize = 0;
    while k < lines.len()
        invariant
            k <= lines@.len(),
            all == line_models(lines@),
            f == (|k: int| line_text(all, ncols as nat, k) + "\n"@),
            widths@.len() == ncols,
            forall|i: int| 0 <= i < ncols ==> #[trigger] widths@[i] == width(all, i),
            out@ == concatenated(k as nat, f),
        decreases lines@.len() - k,
    {
        match &lines[k] {
            Line::Sep => {
                push_rule(&mut out, &widths, Ghost(all));
            },
            Line::Cells(cells) => {
                proof {
                    assert forall|i: int| 0 <= i < widths@.len() implies cell(
                        LineModel::Cells(texts(cells@)),
                        i,
                    ).len() <= #[trigger] widths@[i] by {
                        lemma_width(all, k as int, i);
                    }
                }
                push_cells(&mut out, cells, &widths, Ghost(all));
            },
        }
        out.append("\n");
        k = k + 1;
    }
    out
}

} // verus!
