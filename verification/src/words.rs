//! What the text of a snapshot says of optimality, and that nothing else in it
//! reads alike.
use vstd::prelude::*;

use crate::decimal::{fixed_text, half_even, special_text, thousandths_text};
use crate::double::{product, Double};
use crate::format::{
    band_text, band_texts, fraction_text, integer_numerator, is_denominator, medium_band, num_text,
    strength_text, strong_band, weak_band,
};
use crate::grid::{
    cell, cell_part, cells_text, grid_text, line_text, rule_part, rule_text, width, LineModel,
};
use crate::integral::{as_integer, rounded_off};
use crate::options::RenderOpts;
use crate::render::{
    edit_note, law_live_columns, laid_out, optional_num, optional_text, shown_sign, shows_zj,
};
use crate::scale::{mag, one};
use crate::tableau::TableauModel;
use crate::text::{concatenated, int_text, joined, nat_text, repeated};
use crate::text_laws::occurs_in;

verus! {

/// The words that what is said of optimality begins with.
spec fn mark() -> Seq<char> {
    seq!['(', 'c', 'u', 'r', 'r', 'e', 'n', 't', 'l', 'y']
}

/// The mark, as it is written.
proof fn lemma_mark()
    ensures
        "(currently"@ == mark(),
        mark().len() == 10,
{
    reveal_strlit("(currently");
    assert("(currently"@ =~= mark());
}

/// The mark does not begin at place `i`, whatever follows the text.
spec fn refuted(s: Seq<char>, i: int) -> bool {
    exists|d: int| 0 <= d < 10 && i + d < s.len() && s[i + d] != #[trigger] mark()[d]
}

/// The mark begins at no place of the text, whatever follows it.
spec fn clean(s: Seq<char>) -> bool {
    forall|i: int| 0 <= i < s.len() ==> #[trigger] refuted(s, i)
}

/// The mark is not part of the text.
spec fn tame(s: Seq<char>) -> bool {
    forall|i: int| 0 <= i <= s.len() - 10 ==> #[trigger] refuted(s, i)
}

/// A text that begins with no letter of the mark.
spec fn breaks(s: Seq<char>) -> bool {
    s.len() > 0 && forall|d: int| 1 <= d < 10 ==> s[0] != #[trigger] mark()[d]
}

/// A text of digits, signs and letters, as numbers and strengths are shown.
spec fn numeric(s: Seq<char>) -> bool {
    &&& s.len() > 0
    &&& forall|i: int| 0 <= i < s.len() ==> #[trigger] s[i] != '(' && s[i] != 'c'
}

/// What is refuted stays so in a longer text.
proof fn lemma_refuted(a: Seq<char>, b: Seq<char>, i: int)
    requires
        0 <= i,
    ensures
        refuted(a, i) ==> refuted(a + b, i),
        refuted(b, i) ==> refuted(a + b, a.len() + i),
{
    if refuted(a, i) {
        let d = choose|d: int|
            0 <= d < 10 && i + d < a.len() && a[i + d] != #[trigger] mark()[d];
        assert((a + b)[i + d] == a[i + d]);
    }
    if refuted(b, i) {
        let d = choose|d: int|
            0 <= d < 10 && i + d < b.len() && b[i + d] != #[trigger] mark()[d];
        assert((a + b)[a.len() + i + d] == b[i + d]);
    }
}

/// Two clean texts are clean together.
proof fn lemma_clean_clean(a: Seq<char>, b: Seq<char>)
    requires
        clean(a),
        clean(b),
    ensures
        clean(a + b),
{
    assert forall|i: int| 0 <= i < (a + b).len() implies #[trigger] refuted(a + b, i) by {
        if i < a.len() {
            assert(refuted(a, i));
            lemma_refuted(a, b, i);
        } else {
            assert(refuted(b, i - a.len()));
            lemma_refuted(a, b, i - a.len());
        }
    }
}

/// A tame text stays so behind a clean one.
proof fn lemma_clean_tame(a: Seq<char>, b: Seq<char>)
    requires
        clean(a),
        tame(b),
    ensures
        tame(a + b),
{
    assert forall|i: int| 0 <= i <= (a + b).len() - 10 implies #[trigger] refuted(a + b, i) by {
        if i < a.len() {
            assert(refuted(a, i));
            lemma_refuted(a, b, i);
        } else {
            assert(refuted(b, i - a.len()));
            lemma_refuted(a, b, i - a.len());
        }
    }
}

/// A tame text is clean with a clean one behind it that breaks off the mark.
proof fn lemma_tame_clean(a: Seq<char>, b: Seq<char>)
    requires
        tame(a),
        clean(b),
        breaks(b),
    ensures
        clean(a + b),
{
    assert forall|i: int| 0 <= i < (a + b).len() implies #[trigger] refuted(a + b, i) by {
        if i <= a.len() - 10 {
            assert(refuted(a, i));
            lemma_refuted(a, b, i);
        } else if i < a.len() {
            let d = a.len() - i;
            assert((a + b)[i + d] != mark()[d]);
        } else {
            assert(refuted(b, i - a.len()));
            lemma_refuted(a, b, i - a.len());
        }
    }
}

/// What is clean is tame.
proof fn lemma_clean_is_tame(s: Seq<char>)
    requires
        clean(s),
    ensures
        tame(s),
{
}

/// Where no bracket opens, the mark does not begin.
proof fn lemma_plain(s: Seq<char>)
    requires
        forall|i: int| 0 <= i < s.len() ==> #[trigger] s[i] != '(',
    ensures
        clean(s),
        tame(s),
{
    assert forall|i: int| 0 <= i < s.len() implies #[trigger] refuted(s, i) by {
        assert(s[i + 0] != mark()[0]);
    }
}

/// One bracket that opens, with something else than the mark behind it.
proof fn lemma_one_bracket(s: Seq<char>, p: int, d: int)
    requires
        0 <= p,
        0 <= d < 10,
        p + d < s.len(),
        s[p + d] != mark()[d],
        forall|i: int| 0 <= i < s.len() && i != p ==> #[trigger] s[i] != '(',
    ensures
        clean(s),
{
    assert forall|i: int| 0 <= i < s.len() implies #[trigger] refuted(s, i) by {
        if i != p {
            assert(s[i + 0] != mark()[0]);
        }
    }
}

/// A name that the mark is not part of.
proof fn lemma_tame(s: Seq<char>)
    requires
        !occurs_in("(currently"@, s),
    ensures
        tame(s),
{
    lemma_mark();
    assert forall|i: int| 0 <= i <= s.len() - 10 implies #[trigger] refuted(s, i) by {
        let before = s.subrange(0, i);
        let after = s.subrange(i + 10, s.len() as int);
        if !refuted(s, i) {
            assert forall|d: int| 0 <= d < 10 implies s[i + d] == #[trigger] mark()[d] by {}
            assert(s =~= before + "(currently"@ + after) by {
                assert forall|k: int| 0 <= k < s.len() implies s[k] == (before + mark()
                    + after)[k] by {
                    if i <= k < i + 10 {
                        assert(s[i + (k - i)] == mark()[k - i]);
                    }
                }
            }
        }
    }
}

/// A numeric text is clean, also behind a bracket.
proof fn lemma_numeric(s: Seq<char>)
    requires
        numeric(s),
    ensures
        clean(s),
        tame(s),
        clean(" ("@ + s),
{
    lemma_plain(s);
    reveal_strlit(" (");
    let t = " ("@ + s;
    assert(t[2] == s[0]);
    lemma_one_bracket(t, 1, 1);
}

/// Natural numbers are numeric.
proof fn lemma_nat_is_numeric(n: nat)
    ensures
        numeric(nat_text(n)),
    decreases n,
{
    if n >= 10 {
        lemma_nat_is_numeric(n / 10);
    }
}

/// Integers are numeric.
proof fn lemma_int_is_numeric(n: int)
    ensures
        numeric(int_text(n)),
{
    lemma_nat_is_numeric((-n) as nat);
    lemma_nat_is_numeric(n as nat);
}

/// Numbers with three places are numeric.
proof fn lemma_fixed_is_numeric(x: Double)
    ensures
        numeric(fixed_text(x)),
{
    let n = half_even(1000 * mag(x.index()), one());
    lemma_nat_is_numeric(n / 1000);
    assert(numeric(thousandths_text(n)));
}

/// Fractions are numeric.
proof fn lemma_fraction_is_numeric(v: Double, q: int)
    ensures
        numeric(fraction_text(v, q)),
{
    lemma_int_is_numeric(integer_numerator(v, q));
    lemma_nat_is_numeric(q as nat);
    reveal_strlit("/");
}

/// Every number is shown by a text without brackets.
proof fn lemma_num_is_numeric(v: Double, opts: RenderOpts)
    ensures
        numeric(num_text(v, opts)),
{
    lemma_fixed_is_numeric(v);
    lemma_int_is_numeric(as_integer(rounded_off(v)));
    lemma_fraction_is_numeric(v, choose|q: int| is_denominator(v, q));
    reveal_strlit("0");
    reveal_strlit("NaN");
    reveal_strlit("inf");
    reveal_strlit("-inf");
    assert(numeric(special_text(v)));
}

/// All of the texts are numeric.
spec fn all_numeric(parts: Seq<Seq<char>>) -> bool {
    forall|i: int| 0 <= i < parts.len() ==> numeric(#[trigger] parts[i])
}

/// Numeric texts beside numeric texts.
proof fn lemma_all_numeric(a: Seq<Seq<char>>, b: Seq<Seq<char>>)
    requires
        all_numeric(a),
        all_numeric(b),
    ensures
        all_numeric(a + b),
{
}

/// A band is numeric.
proof fn lemma_band_is_numeric(v: Double, letter: Seq<char>, opts: RenderOpts)
    requires
        numeric(letter),
    ensures
        all_numeric(band_text(v, letter, opts)),
{
    lemma_num_is_numeric(v, opts);
}

/// Numeric texts with `+` between them are numeric.
proof fn lemma_joined_is_numeric(parts: Seq<Seq<char>>)
    requires
        parts.len() > 0,
        all_numeric(parts),
    ensures
        numeric(joined(parts, "+"@)),
    decreases parts.len(),
{
    reveal_strlit("+");
    assert(numeric(parts[parts.len() - 1]));
    if parts.len() > 1 {
        lemma_joined_is_numeric(parts.drop_last());
    }
}

/// The bands of a strength are numeric.
proof fn lemma_bands_are_numeric(s: Double, opts: RenderOpts)
    ensures
        all_numeric(band_texts(s, opts)),
{
    reveal_strlit("S");
    reveal_strlit("M");
    reveal_strlit("W");
    let a = band_text(strong_band(s), "S"@, opts);
    let b = band_text(medium_band(s), "M"@, opts);
    let c = band_text(weak_band(s), "W"@, opts);
    lemma_band_is_numeric(strong_band(s), "S"@, opts);
    lemma_band_is_numeric(medium_band(s), "M"@, opts);
    lemma_band_is_numeric(weak_band(s), "W"@, opts);
    lemma_all_numeric(a, b);
    lemma_all_numeric(a + b, c);
}

/// Every strength is shown by a text without brackets.
proof fn lemma_strength_is_numeric(s: Double, opts: RenderOpts)
    ensures
        numeric(strength_text(s, opts)),
{
    reveal_strlit("0");
    reveal_strlit("REQ");
    lemma_num_is_numeric(s, opts);
    let bands = band_texts(s, opts);
    lemma_bands_are_numeric(s, opts);
    if bands.len() > 0 {
        lemma_joined_is_numeric(bands);
    }
}

/// Clean texts one after the other are clean.
proof fn lemma_concatenated_clean(n: nat, f: spec_fn(int) -> Seq<char>)
    requires
        forall|i: int| 0 <= i < n ==> clean(#[trigger] f(i)),
    ensures
        clean(concatenated(n, f)),
    decreases n,
{
    if n > 0 {
        lemma_concatenated_clean((n - 1) as nat, f);
        lemma_clean_clean(concatenated((n - 1) as nat, f), f(n - 1));
    }
}

/// Tame texts with commas between them are tame.
proof fn lemma_joined_tame(parts: Seq<Seq<char>>)
    requires
        forall|i: int| 0 <= i < parts.len() ==> tame(#[trigger] parts[i]),
    ensures
        tame(joined(parts, ", "@)),
    decreases parts.len(),
{
    reveal_strlit(", ");
    if parts.len() > 1 {
        lemma_joined_tame(parts.drop_last());
        lemma_plain(", "@);
        lemma_tame_clean(joined(parts.drop_last(), ", "@), ", "@);
        lemma_clean_tame(joined(parts.drop_last(), ", "@) + ", "@, parts.last());
    }
}

/// Every cell of a line is tame.
spec fn tame_line(line: LineModel) -> bool {
    forall|i: int| 0 <= i ==> tame(#[trigger] cell(line, i))
}

/// A cell with a tame text is clean.
proof fn lemma_cell(text: Seq<char>, w: nat, i: int)
    requires
        tame(text),
    ensures
        clean(cell_part(text, w, i)),
{
    let pad = (w - text.len()) as nat;
    reveal_strlit(" ");
    reveal_strlit(" |");
    lemma_plain(" |"@);
    if i == 0 {
        let left = " "@ + repeated(' ', pad / 2);
        let right = repeated(' ', (pad - pad / 2) as nat) + " |"@;
        lemma_plain(left);
        lemma_plain(right);
        lemma_clean_tame(left, text);
        lemma_tame_clean(left + text, right);
        assert(cell_part(text, w, i) =~= left + text + right);
    } else {
        let left = " "@ + repeated(' ', pad);
        lemma_plain(left);
        lemma_clean_tame(left, text);
        lemma_tame_clean(left + text, " |"@);
    }
}

/// A rule is clean.
proof fn lemma_rule(lines: Seq<LineModel>, ncols: nat)
    ensures
        clean(rule_text(lines, ncols)),
{
    let f = |i: int| rule_part(width(lines, i));
    reveal_strlit("+");
    assert forall|i: int| 0 <= i < ncols implies clean(#[trigger] f(i)) by {
        lemma_plain(rule_part(width(lines, i)));
    }
    lemma_concatenated_clean(ncols, f);
    lemma_plain("+"@);
    lemma_clean_clean("+"@, concatenated(ncols, f));
}

/// A line of tame cells is clean.
proof fn lemma_cells(lines: Seq<LineModel>, ncols: nat, line: LineModel)
    requires
        tame_line(line),
    ensures
        clean(cells_text(lines, ncols, line)),
{
    let f = |i: int| cell_part(cell(line, i), width(lines, i), i);
    reveal_strlit("|");
    assert forall|i: int| 0 <= i < ncols implies clean(#[trigger] f(i)) by {
        lemma_cell(cell(line, i), width(lines, i), i);
    }
    lemma_concatenated_clean(ncols, f);
    lemma_plain("|"@);
    lemma_clean_clean("|"@, concatenated(ncols, f));
}

/// A grid of tame cells is clean.
proof fn lemma_grid(lines: Seq<LineModel>, ncols: nat)
    requires
        forall|k: int| 0 <= k < lines.len() ==> tame_line(#[trigger] lines[k]),
    ensures
        clean(grid_text(lines, ncols)),
{
    let f = |k: int| line_text(lines, ncols, k) + "\n"@;
    reveal_strlit("\n");
    lemma_plain("\n"@);
    assert forall|k: int| 0 <= k < lines.len() implies clean(#[trigger] f(k)) by {
        assert(tame_line(lines[k]));
        lemma_rule(lines, ncols);
        lemma_cells(lines, ncols, lines[k]);
        lemma_clean_clean(line_text(lines, ncols, k), "\n"@);
    }
    lemma_concatenated_clean(lines.len(), f);
}

/// A line laid out of tame texts is tame.
proof fn lemma_laid_out(
    first: Seq<char>,
    second: Seq<char>,
    middle: Seq<Seq<char>>,
    b: Seq<char>,
    ratio: Option<Seq<char>>,
)
    requires
        tame(first),
        tame(second),
        tame(b),
        ratio is Some ==> tame(ratio->0),
        forall|k: int| 0 <= k < middle.len() ==> tame(#[trigger] middle[k]),
    ensures
        tame_line(laid_out(first, second, middle, b, ratio)),
{
    let line = laid_out(first, second, middle, b, ratio);
    let cells = (seq![first, second] + middle).push(b);
    assert forall|i: int| 0 <= i implies tame(#[trigger] cell(line, i)) by {
        if i < cells.len() {
            assert(cell(line, i) == cells[i]);
            if 2 <= i < 2 + middle.len() {
                assert(cells[i] == middle[i - 2]);
            }
        }
    }
}

impl TableauModel {
    /// No name holds the given words.
    pub open spec fn names_avoid(self, words: Seq<char>) -> bool {
        &&& forall|j: int|
            0 <= j < self.columns.len() ==> !occurs_in(words, (#[trigger] self.columns[j]).name)
        &&& forall|i: int|
            0 <= i < self.rows.len() ==> !occurs_in(words, (#[trigger] self.rows[i]).basis)
        &&& forall|i: int|
            0 <= i < self.edits.len() ==> !occurs_in(words, (#[trigger] self.edits[i]).name)
        &&& forall|i: int|
            0 <= i < self.nonbasic_externals.len() ==> !occurs_in(
                words,
                #[trigger] self.nonbasic_externals[i],
            )
    }
}

/// The columns that are shown are columns of the snapshot.
proof fn lemma_shown(t: TableauModel, opts: RenderOpts, k: int)
    requires
        t.columns.len() <= usize::MAX,
        0 <= k < t.shown_columns(opts).len(),
    ensures
        t.shown_columns(opts)[k] < t.columns.len(),
{
    law_live_columns(t, t.columns.len());
}

/// A text for each column that is shown is tame if it is so for every column.
proof fn lemma_across(t: TableauModel, f: spec_fn(int) -> Seq<char>, opts: RenderOpts)
    requires
        t.columns.len() <= usize::MAX,
        forall|j: int| 0 <= j < t.columns.len() ==> tame(#[trigger] f(j)),
    ensures
        forall|k: int|
            0 <= k < t.across(f, opts).len() ==> tame(#[trigger] t.across(f, opts)[k]),
{
    assert forall|k: int| 0 <= k < t.across(f, opts).len() implies tame(
        #[trigger] t.across(f, opts)[k],
    ) by {
        lemma_shown(t, opts, k);
        assert(t.across(f, opts)[k] == f(t.shown_columns(opts)[k] as int));
    }
}

/// A number that may be missing is tame.
proof fn lemma_optional_num(v: Option<Double>, opts: RenderOpts)
    ensures
        tame(optional_num(v, opts)),
{
    match v {
        Some(x) => {
            lemma_num_is_numeric(x, opts);
            lemma_numeric(num_text(x, opts));
        },
        None => {
            reveal_strlit("-");
            lemma_plain("-"@);
        },
    }
}

/// A number is clean.
proof fn lemma_num(v: Double, opts: RenderOpts)
    ensures
        clean(num_text(v, opts)),
        tame(num_text(v, opts)),
{
    lemma_num_is_numeric(v, opts);
    lemma_numeric(num_text(v, opts));
}

/// A strength is tame, and clean in brackets.
proof fn lemma_strength(v: Double, opts: RenderOpts)
    ensures
        tame(strength_text(v, opts)),
        clean(" ("@ + strength_text(v, opts)),
{
    lemma_strength_is_numeric(v, opts);
    lemma_numeric(strength_text(v, opts));
}

/// The line of costs is tame.
proof fn lemma_cost_line(t: TableauModel, opts: RenderOpts)
    requires
        t.columns.len() <= usize::MAX,
    ensures
        tame_line(t.cost_line(opts)),
{
    let f = |j: int| strength_text(t.columns[j].cost, opts);
    assert forall|j: int| 0 <= j < t.columns.len() implies tame(#[trigger] f(j)) by {
        lemma_strength(t.columns[j].cost, opts);
    }
    lemma_across(t, f, opts);
    reveal_strlit("Cj");
    lemma_plain("Cj"@);
    lemma_plain(seq![]);
    lemma_laid_out(seq![], "Cj"@, t.across(f, opts), seq![], t.in_ratio_column(seq![], opts));
}

/// The line of names is tame.
proof fn lemma_heading_line(t: TableauModel, opts: RenderOpts)
    requires
        t.columns.len() <= usize::MAX,
        t.names_avoid("(currently"@),
    ensures
        tame_line(t.heading_line(opts)),
{
    let f = |j: int| t.heading(j);
    reveal_strlit("*");
    lemma_plain("*"@);
    assert forall|j: int| 0 <= j < t.columns.len() implies tame(#[trigger] f(j)) by {
        let name = t.columns[j].name;
        lemma_tame(name);
        lemma_tame_clean(name, "*"@);
        lemma_clean_is_tame(name + "*"@);
        assert(name + seq![] =~= name);
    }
    lemma_across(t, f, opts);
    reveal_strlit("Basis");
    reveal_strlit("CB");
    reveal_strlit("b");
    reveal_strlit("ratio");
    lemma_plain("Basis"@);
    lemma_plain("CB"@);
    lemma_plain("b"@);
    lemma_plain("ratio"@);
    lemma_laid_out(
        "Basis"@,
        "CB"@,
        t.across(f, opts),
        "b"@,
        t.in_ratio_column("ratio"@, opts),
    );
}

/// The label of a row is tame.
proof fn lemma_row_label(t: TableauModel, i: int)
    requires
        0 <= i < t.rows.len(),
        t.names_avoid("(currently"@),
    ensures
        tame(t.row_label(i)),
{
    let name = t.rows[i].basis;
    reveal_strlit(" !");
    reveal_strlit(" <");
    lemma_plain(" !"@);
    lemma_plain(" <"@);
    lemma_tame(name);
    lemma_tame_clean(name, " !"@);
    lemma_clean_is_tame(name + " !"@);
    lemma_tame_clean(name, " <"@);
    lemma_clean_is_tame(name + " <"@);
    lemma_clean_clean(name + " !"@, " <"@);
    lemma_clean_is_tame(name + " !"@ + " <"@);
    assert(name + seq![] =~= name);
    assert(name + " !"@ + seq![] =~= name + " !"@);
}

/// The line of a row is tame.
proof fn lemma_row_line(t: TableauModel, i: int, opts: RenderOpts)
    requires
        t.columns.len() <= usize::MAX,
        t.names_avoid("(currently"@),
        0 <= i < t.rows.len(),
    ensures
        tame_line(t.row_line(i, opts)),
{
    let sign = shown_sign(opts);
    let row = t.rows[i];
    let f = |j: int| num_text(product(shown_sign(opts), t.rows[i].coeffs[j]), opts);
    assert forall|j: int| 0 <= j < t.columns.len() implies tame(#[trigger] f(j)) by {
        lemma_num(product(sign, row.coeffs[j]), opts);
    }
    lemma_across(t, f, opts);
    lemma_row_label(t, i);
    lemma_strength(row.c_b, opts);
    lemma_num(row.rhs, opts);
    lemma_optional_num(row.ratio, opts);
    lemma_laid_out(
        t.row_label(i),
        strength_text(row.c_b, opts),
        t.across(f, opts),
        num_text(row.rhs, opts),
        t.in_ratio_column(optional_num(row.ratio, opts), opts),
    );
}

/// The line of `Z_j` is tame.
proof fn lemma_zj_line(t: TableauModel, opts: RenderOpts)
    requires
        t.columns.len() <= usize::MAX,
    ensures
        tame_line(t.zj_line(opts)),
{
    let f = |j: int| num_text(t.column_total(j), opts);
    assert forall|j: int| 0 <= j < t.columns.len() implies tame(#[trigger] f(j)) by {
        lemma_num(t.column_total(j), opts);
    }
    lemma_across(t, f, opts);
    lemma_num(t.objective_value(), opts);
    reveal_strlit("Zj");
    lemma_plain("Zj"@);
    lemma_plain(seq![]);
    lemma_laid_out(
        "Zj"@,
        seq![],
        t.across(f, opts),
        num_text(t.objective_value(), opts),
        t.in_ratio_column(seq![], opts),
    );
}

/// The line of reduced costs is tame.
proof fn lemma_reduced_line(t: TableauModel, opts: RenderOpts)
    requires
        t.columns.len() <= usize::MAX,
    ensures
        tame_line(t.reduced_line(opts)),
{
    let f = |j: int| num_text(t.objective.reduced[j], opts);
    assert forall|j: int| 0 <= j < t.columns.len() implies tame(#[trigger] f(j)) by {
        lemma_num(t.objective.reduced[j], opts);
    }
    lemma_across(t, f, opts);
    lemma_num(t.objective_value(), opts);
    reveal_strlit("Cj-Zj");
    reveal_strlit("cj-zj");
    reveal_strlit("z=");
    lemma_plain("Cj-Zj"@);
    lemma_plain("cj-zj"@);
    lemma_plain("z="@);
    lemma_plain(seq![]);
    let z = "z="@ + num_text(t.objective_value(), opts);
    lemma_clean_tame("z="@, num_text(t.objective_value(), opts));
    lemma_laid_out(
        if opts.textbook_signs {
            "Cj-Zj"@
        } else {
            "cj-zj"@
        },
        seq![],
        t.across(f, opts),
        optional_text(!shows_zj(opts), z),
        t.in_ratio_column(seq![], opts),
    );
}

/// The line of dual ratios is tame.
proof fn lemma_dual_line(t: TableauModel, opts: RenderOpts)
    requires
        t.columns.len() <= usize::MAX,
    ensures
        tame_line(t.dual_line(opts)),
{
    let f = |j: int| optional_num(t.dual_ratios->0[j], opts);
    assert forall|j: int| 0 <= j < t.columns.len() implies tame(#[trigger] f(j)) by {
        lemma_optional_num(t.dual_ratios->0[j], opts);
    }
    lemma_across(t, f, opts);
    reveal_strlit("dual ratio");
    lemma_plain("dual ratio"@);
    lemma_plain(seq![]);
    lemma_laid_out(
        "dual ratio"@,
        seq![],
        t.across(f, opts),
        seq![],
        t.in_ratio_column(seq![], opts),
    );
}

/// All of the lines are tame.
spec fn tame_lines(lines: Seq<LineModel>) -> bool {
    forall|k: int| 0 <= k < lines.len() ==> tame_line(#[trigger] lines[k])
}

/// Tame lines below tame lines.
proof fn lemma_tame_lines(a: Seq<LineModel>, b: Seq<LineModel>)
    requires
        tame_lines(a),
        tame_lines(b),
    ensures
        tame_lines(a + b),
{
}

/// The lines of the rows are tame.
proof fn lemma_rows(t: TableauModel, opts: RenderOpts)
    requires
        t.columns.len() <= usize::MAX,
        t.names_avoid("(currently"@),
    ensures
        tame_lines(Seq::new(t.rows.len(), |i: int| t.row_line(i, opts))),
{
    let rows = Seq::new(t.rows.len(), |i: int| t.row_line(i, opts));
    assert forall|k: int| 0 <= k < rows.len() implies tame_line(#[trigger] rows[k]) by {
        lemma_row_line(t, k, opts);
    }
}

/// The grid of a snapshot is clean.
proof fn lemma_snapshot_grid(t: TableauModel, opts: RenderOpts)
    requires
        t.columns.len() <= usize::MAX,
        t.names_avoid("(currently"@),
    ensures
        clean(grid_text(t.lines(opts), t.grid_columns(opts))),
{
    let sep = LineModel::Sep;
    lemma_plain(seq![]);
    assert(tame_line(sep));
    lemma_cost_line(t, opts);
    lemma_heading_line(t, opts);
    lemma_zj_line(t, opts);
    lemma_reduced_line(t, opts);
    lemma_dual_line(t, opts);
    lemma_rows(t, opts);
    let a = seq![sep, t.cost_line(opts), sep, t.heading_line(opts), sep];
    let b = Seq::new(t.rows.len(), |i: int| t.row_line(i, opts));
    let c = seq![sep];
    let d: Seq<LineModel> = if shows_zj(opts) {
        seq![t.zj_line(opts), sep]
    } else {
        seq![]
    };
    let e = seq![t.reduced_line(opts), sep];
    let f: Seq<LineModel> = if t.dual_ratios is Some {
        seq![t.dual_line(opts), sep]
    } else {
        seq![]
    };
    lemma_tame_lines(a, b);
    lemma_tame_lines(a + b, c);
    lemma_tame_lines(a + b + c, d);
    lemma_tame_lines(a + b + c + d, e);
    lemma_tame_lines(a + b + c + d + e, f);
    assert(t.lines(opts) == a + b + c + d + e + f);
    lemma_grid(t.lines(opts), t.grid_columns(opts));
}

/// What is said of a pivot is clean.
proof fn lemma_pivot_note(t: TableauModel, opts: RenderOpts)
    requires
        t.wf(),
        t.names_avoid("(currently"@),
    ensures
        clean(t.pivot_note(opts)),
{
    let entering = match t.pivot_col {
        Some(c) => t.columns[c as int].name,
        None => "?"@,
    };
    let leaving = match t.pivot_row {
        Some(r) => t.rows[r as int].basis,
        None => "?"@,
    };
    lemma_pivot_words(entering, leaving);
    let a = "  pivot: "@ + entering + "* enters, "@ + leaving + " < leaves"@;
    let last = "  (this tableau is the state *before* that pivot)
"@;
    let element = match t.pivot_element() {
        Some(p) => ", pivot element = "@ + num_text(product(shown_sign(opts), p), opts),
        None => seq![],
    };
    lemma_plain(seq![]);
    if t.pivot_element() is Some {
        let v = product(shown_sign(opts), t.pivot_element()->0);
        lemma_num(v, opts);
        lemma_clean_clean(", pivot element = "@, num_text(v, opts));
    }
    lemma_clean_clean(a, element);
    lemma_clean_clean(a + element, "\n"@);
    lemma_clean_clean(a + element + "\n"@, last);
}

/// The words round the names of a pivot.
proof fn lemma_pivot_words(entering: Seq<char>, leaving: Seq<char>)
    ensures
        clean(", pivot element = "@),
        clean("\n"@),
        clean("  (this tableau is the state *before* that pivot)\n"@),
        (!occurs_in("(currently"@, entering) || entering == "?"@) && (!occurs_in(
            "(currently"@,
            leaving,
        ) || leaving == "?"@) ==> clean(
            "  pivot: "@ + entering + "* enters, "@ + leaving + " < leaves"@,
        ),
{
    reveal_strlit("?");
    reveal_strlit("\n");
    reveal_strlit("  pivot: ");
    reveal_strlit("* enters, ");
    reveal_strlit(" < leaves");
    reveal_strlit(", pivot element = ");
    reveal_strlit("  (this tableau is the state *before* that pivot)\n");
    lemma_plain("?"@);
    lemma_plain("\n"@);
    lemma_plain("  pivot: "@);
    lemma_plain("* enters, "@);
    lemma_plain(" < leaves"@);
    lemma_plain(", pivot element = "@);
    lemma_one_bracket("  (this tableau is the state *before* that pivot)\n"@, 2, 1);
    if (!occurs_in("(currently"@, entering) || entering == "?"@) && (!occurs_in(
        "(currently"@,
        leaving,
    ) || leaving == "?"@) {
        if entering != "?"@ {
            lemma_tame(entering);
        }
        if leaving != "?"@ {
            lemma_tame(leaving);
        }
        let a = "  pivot: "@ + entering;
        let b = a + "* enters, "@;
        lemma_clean_tame("  pivot: "@, entering);
        lemma_tame_clean(a, "* enters, "@);
        lemma_clean_tame(b, leaving);
        lemma_tame_clean(b + leaving, " < leaves"@);
    }
}

/// What is said of the phase-I objective is clean.
proof fn lemma_phase_note(t: TableauModel, opts: RenderOpts)
    ensures
        clean(t.phase_note(opts)),
{
    lemma_plain(seq![]);
    if t.phase_one is Some {
        let v = t.phase_one->0.carried_constant;
        reveal_strlit("  phase-I objective: w=");
        reveal_strlit(" (artificial variable active)\n");
        lemma_plain("  phase-I objective: w="@);
        lemma_one_bracket(" (artificial variable active)\n"@, 1, 1);
        lemma_num(v, opts);
        lemma_clean_clean("  phase-I objective: w="@, num_text(v, opts));
        lemma_clean_clean(
            "  phase-I objective: w="@ + num_text(v, opts),
            " (artificial variable active)\n"@,
        );
    }
}

/// What is said of external variables is clean.
proof fn lemma_externals_note(t: TableauModel)
    requires
        t.names_avoid("(currently"@),
    ensures
        clean(t.externals_note()),
{
    reveal_strlit("\n");
    reveal_strlit("  nonbasic externals (=0): ");
    lemma_plain(seq![]);
    lemma_plain("\n"@);
    lemma_one_bracket("  nonbasic externals (=0): "@, 21, 1);
    let names = t.nonbasic_externals;
    assert forall|i: int| 0 <= i < names.len() implies tame(#[trigger] names[i]) by {
        lemma_tame(names[i]);
    }
    lemma_joined_tame(names);
    lemma_clean_tame("  nonbasic externals (=0): "@, joined(names, ", "@));
    lemma_tame_clean("  nonbasic externals (=0): "@ + joined(names, ", "@), "\n"@);
}

/// The words round an edit are clean.
proof fn lemma_edit_words(name: Seq<char>, value: Seq<char>, strength: Seq<char>)
    requires
        tame(name),
        clean(value),
        clean(" ("@ + strength),
    ensures
        clean("  edit: "@ + name + " = "@ + value + " ("@ + strength + ")\n"@),
{
    reveal_strlit("  edit: ");
    reveal_strlit(" = ");
    reveal_strlit(")\n");
    lemma_plain("  edit: "@);
    lemma_plain(" = "@);
    lemma_plain(")\n"@);
    let a = "  edit: "@ + name;
    let b = a + " = "@;
    let c = b + value;
    lemma_clean_tame("  edit: "@, name);
    lemma_tame_clean(a, " = "@);
    lemma_clean_clean(b, value);
    lemma_clean_clean(c, " ("@ + strength);
    assert(c + " ("@ + strength =~= c + (" ("@ + strength));
    lemma_clean_clean(c + " ("@ + strength, ")\n"@);
}

/// What is said of the edits is clean.
proof fn lemma_edits_note(t: TableauModel, opts: RenderOpts)
    requires
        t.names_avoid("(currently"@),
    ensures
        clean(t.edits_note(opts)),
{
    let f = |i: int| edit_note(t.edits[i], opts);
    assert forall|i: int| 0 <= i < t.edits.len() implies clean(#[trigger] f(i)) by {
        let edit = t.edits[i];
        lemma_tame(edit.name);
        lemma_num(edit.value, opts);
        lemma_strength(edit.strength, opts);
        lemma_edit_words(
            edit.name,
            num_text(edit.value, opts),
            strength_text(edit.strength, opts),
        );
    }
    lemma_concatenated_clean(t.edits.len(), f);
}

/// What is said of the drift is clean.
proof fn lemma_drift_note(t: TableauModel, opts: RenderOpts)
    ensures
        clean(t.drift_note(opts)),
{
    let head = "  note: z is computed as sum(c_B*rhs); the solver's carried objective constant reads "@;
    let tail = " (drifts across suggest_value)\n"@;
    let value = num_text(t.objective.carried_constant, opts);
    reveal_strlit(
        "  note: z is computed as sum(c_B*rhs); the solver's carried objective constant reads ",
    );
    reveal_strlit(" (drifts across suggest_value)\n");
    lemma_plain(seq![]);
    lemma_one_bracket(head, 28, 2);
    lemma_one_bracket(tail, 1, 1);
    lemma_num(t.objective.carried_constant, opts);
    lemma_clean_clean(head, value);
    lemma_clean_clean(head + value, tail);
}

/// What is said of infeasible rows is clean.
proof fn lemma_infeasible_note(t: TableauModel)
    ensures
        clean(t.infeasible_note()),
{
    reveal_strlit("  ! = infeasible row, pending dual_optimise\n");
    lemma_plain("  ! = infeasible row, pending dual_optimise\n"@);
    lemma_plain(seq![]);
}

/// What is said of columns left out is clean.
proof fn lemma_elided_note(t: TableauModel, opts: RenderOpts)
    ensures
        clean(t.elided_note(opts)),
{
    let count = nat_text((t.columns.len() - t.shown_columns(opts).len()) as nat);
    reveal_strlit("  ");
    reveal_strlit(" all-zero column(s) elided\n");
    lemma_plain("  "@);
    lemma_plain(seq![]);
    lemma_one_bracket(" all-zero column(s) elided\n"@, 16, 1);
    lemma_nat_is_numeric((t.columns.len() - t.shown_columns(opts).len()) as nat);
    lemma_numeric(count);
    lemma_clean_clean("  "@, count);
    lemma_clean_clean("  "@ + count, " all-zero column(s) elided\n"@);
}

/// What stands before the words on optimality.
spec fn before_words(t: TableauModel, opts: RenderOpts) -> Seq<char> {
    grid_text(t.lines(opts), t.grid_columns(opts)) + t.pivot_note(opts) + t.phase_note(opts)
        + t.externals_note() + t.edits_note(opts)
}

/// What stands behind the words on optimality.
spec fn after_words(t: TableauModel, opts: RenderOpts) -> Seq<char> {
    t.drift_note(opts) + t.infeasible_note() + t.elided_note(opts)
}

/// All but the words on optimality is clean.
proof fn lemma_around_words(t: TableauModel, opts: RenderOpts)
    requires
        t.wf(),
        t.columns.len() <= usize::MAX,
        t.names_avoid("(currently"@),
    ensures
        clean(before_words(t, opts)),
        clean(after_words(t, opts)),
        t.text(opts) == before_words(t, opts) + t.optimality_note() + after_words(t, opts),
{
    lemma_snapshot_grid(t, opts);
    lemma_pivot_note(t, opts);
    lemma_phase_note(t, opts);
    lemma_externals_note(t);
    lemma_edits_note(t, opts);
    lemma_drift_note(t, opts);
    lemma_infeasible_note(t);
    lemma_elided_note(t, opts);
    let a = grid_text(t.lines(opts), t.grid_columns(opts));
    let b = a + t.pivot_note(opts);
    let c = b + t.phase_note(opts);
    let d = c + t.externals_note();
    lemma_clean_clean(a, t.pivot_note(opts));
    lemma_clean_clean(b, t.phase_note(opts));
    lemma_clean_clean(c, t.externals_note());
    lemma_clean_clean(d, t.edits_note(opts));
    lemma_clean_clean(t.drift_note(opts), t.infeasible_note());
    lemma_clean_clean(t.drift_note(opts) + t.infeasible_note(), t.elided_note(opts));
    assert(t.text(opts) =~= before_words(t, opts) + t.optimality_note() + after_words(t, opts));
}

/// In a text with one bracket that the mark can begin at, words that begin
/// with the mark stand there.
proof fn lemma_only_place(a: Seq<char>, b: Seq<char>, words: Seq<char>)
    requires
        clean(a),
        clean(b),
        words.len() >= 10,
        words.subrange(0, 10) == mark(),
        occurs_in(words, a + "("@ + b),
    ensures
        forall|k: int|
            0 <= k < words.len() ==> a.len() + k < (a + "("@ + b).len() && #[trigger] words[k] == (a
                + "("@ + b)[a.len() + k],
{
    reveal_strlit("(");
    let text = a + "("@ + b;
    let (before, after) = choose|before: Seq<char>, after: Seq<char>|
        text == #[trigger] (before + words + after);
    let p = before.len() as int;
    assert forall|k: int| 0 <= k < words.len() implies #[trigger] words[k] == text[p + k] by {}
    assert forall|d: int| 0 <= d < 10 implies text[p + d] == #[trigger] mark()[d] by {
        assert(words.subrange(0, 10)[d] == words[d]);
    }
    assert(!refuted(text, p));
    if p < a.len() {
        assert(refuted(a, p));
        lemma_refuted(a, "("@ + b, p);
        assert(text =~= a + ("("@ + b));
    } else if p > a.len() {
        assert(refuted(b, p - a.len() - 1));
        lemma_refuted(a + "("@, b, p - a.len() - 1);
    }
}

/// A verdict reads as what it says and as nothing else.
proof fn lemma_verdicts(optimal: bool, a: Seq<char>, rest: Seq<char>)
    requires
        clean(a),
        clean(
            if optimal {
                "currently optimal)\n"@
            } else {
                "currently not optimal)\n"@
            } + rest,
        ),
    ensures
        ({
            let text = a + "("@ + (if optimal {
                "currently optimal)\n"@
            } else {
                "currently not optimal)\n"@
            } + rest);
            &&& occurs_in("(currently optimal)"@, text) <==> optimal
            &&& occurs_in("(currently not optimal)"@, text) <==> !optimal
        }),
{
    let verdict = if optimal {
        "currently optimal)\n"@
    } else {
        "currently not optimal)\n"@
    };
    let b = verdict + rest;
    let text = a + "("@ + b;
    reveal_strlit("(");
    reveal_strlit("\n");
    reveal_strlit("currently optimal)\n");
    reveal_strlit("currently not optimal)\n");
    reveal_strlit("(currently optimal)");
    reveal_strlit("(currently not optimal)");
    let yes = "(currently optimal)"@;
    let no = "(currently not optimal)"@;
    assert(yes.subrange(0, 10) =~= mark());
    assert(no.subrange(0, 10) =~= mark());
    let at = a.len() + 11int;
    assert(b[10] == verdict[10]);
    assert(text[at] == b[10]);
    if optimal {
        assert(text =~= a + yes + ("\n"@ + rest));
        if occurs_in(no, text) {
            lemma_only_place(a, b, no);
            assert(no[11] == text[at]);
        }
    } else {
        assert(text =~= a + no + ("\n"@ + rest));
        if occurs_in(yes, text) {
            lemma_only_place(a, b, yes);
            assert(yes[11] == text[at]);
        }
    }
}

/// The words on optimality read as what they say and as nothing else.
proof fn lemma_told(optimal: bool, before: Seq<char>, after: Seq<char>)
    requires
        clean(before),
        clean(after),
    ensures
        ({
            let note =
                "  minimisation: optimal when all cj-zj >= 0, dummy columns exempt (currently "@ + (
            if optimal {
                "optimal"@
            } else {
                "not optimal"@
            }) + ")\n"@;
            let text = before + note + after;
            &&& occurs_in("(currently optimal)"@, text) <==> optimal
            &&& occurs_in("(currently not optimal)"@, text) <==> !optimal
        }),
{
    let head = "  minimisation: optimal when all cj-zj >= 0, dummy columns exempt "@;
    let told = if optimal {
        "optimal"@
    } else {
        "not optimal"@
    };
    let verdict = if optimal {
        "currently optimal)\n"@
    } else {
        "currently not optimal)\n"@
    };
    lemma_head();
    lemma_verdict_words();
    lemma_clean_clean(before, head);
    lemma_clean_clean(verdict, after);
    lemma_verdicts(optimal, before + head, after);
    let short = "currently "@;
    assert(verdict == short + told + ")\n"@);
    assert(before + (head + "("@ + short + told + ")\n"@) + after =~= before + head + "("@ + (short
        + told + ")\n"@ + after));
}

/// The words before a verdict.
proof fn lemma_head()
    ensures
        "  minimisation: optimal when all cj-zj >= 0, dummy columns exempt (currently "@
            == "  minimisation: optimal when all cj-zj >= 0, dummy columns exempt "@ + "("@
            + "currently "@,
        clean("  minimisation: optimal when all cj-zj >= 0, dummy columns exempt "@),
{
    reveal_strlit("(");
    reveal_strlit("currently ");
    reveal_strlit("  minimisation: optimal when all cj-zj >= 0, dummy columns exempt ");
    reveal_strlit("  minimisation: optimal when all cj-zj >= 0, dummy columns exempt (currently ");
    lemma_plain("  minimisation: optimal when all cj-zj >= 0, dummy columns exempt "@);
    assert("  minimisation: optimal when all cj-zj >= 0, dummy columns exempt (currently "@
        =~= "  minimisation: optimal when all cj-zj >= 0, dummy columns exempt "@ + "("@
        + "currently "@);
}

/// The words of a verdict.
proof fn lemma_verdict_words()
    ensures
        clean("currently optimal)\n"@),
        clean("currently not optimal)\n"@),
        "currently optimal)\n"@ == "currently "@ + "optimal"@ + ")\n"@,
        "currently not optimal)\n"@ == "currently "@ + "not optimal"@ + ")\n"@,
{
    reveal_strlit("currently ");
    reveal_strlit("optimal");
    reveal_strlit("not optimal");
    reveal_strlit(")\n");
    reveal_strlit("currently optimal)\n");
    reveal_strlit("currently not optimal)\n");
    lemma_plain("currently optimal)\n"@);
    lemma_plain("currently not optimal)\n"@);
    assert("currently optimal)\n"@ =~= "currently "@ + "optimal"@ + ")\n"@);
    assert("currently not optimal)\n"@ =~= "currently "@ + "not optimal"@ + ")\n"@);
}

/// The text tells whether the snapshot is optimal, whatever the options: it
/// holds `(currently optimal)` exactly when it is, and `(currently not
/// optimal)` exactly when it is not.
pub proof fn law_optimality_is_told(t: TableauModel, opts: RenderOpts)
    requires
        t.wf(),
        t.columns.len() <= usize::MAX,
        t.names_avoid("(currently"@),
    ensures
        occurs_in("(currently optimal)"@, t.text(opts)) <==> t.optimal(),
        occurs_in("(currently not optimal)"@, t.text(opts)) <==> !t.optimal(),
{
    lemma_around_words(t, opts);
    lemma_told(t.optimal(), before_words(t, opts), after_words(t, opts));
}

} // verus!
