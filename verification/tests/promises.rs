//! The laws of the library on concrete values.

use tableau::double::Double;
use tableau::format::{as_fraction, fmt_num, fmt_strength, EPSILON, TOLERANCE};
use tableau::options::RenderOpts;
use tableau::shortest::push_display;
use tableau::snapshot::{build, Row};
use tableau::symbol::{label_symbol, Symbol, SymbolKind, SymbolType, Variable};
use tableau::table::Table;
use tableau::tableau::Tableau;
use tableau::trace::{Trace, TraceEvent, TraceStep};

fn d(x: f64) -> Double {
    Double::from_bits(x.to_bits())
}

fn f(x: Double) -> f64 {
    f64::from_bits(x.to_bits())
}

fn gcd(a: u64, b: u64) -> u64 {
    if b == 0 { a } else { gcd(b, a % b) }
}

#[test]
fn tolerances_are_the_nearest_numbers() {
    assert_eq!(EPSILON, 1e-8f64.to_bits());
    assert_eq!(TOLERANCE, 1e-9f64.to_bits());
}

#[test]
fn rounding_keeps_the_order_of_quotients() {
    let mut last = d(0.0);
    for n in 1..400u64 {
        let next = Double::from_u64(n).over(Double::from_u64(300));
        assert!(last.less_than(next), "{}", n);
        assert_eq!(next.to_bits(), (n as f64 / 300.0).to_bits());
        last = next;
    }
}

#[test]
fn integers_up_to_fifty_three_places_are_exact() {
    let top = 1u64 << 53;
    for &n in &[0, 1, 2, 999, top - 1, top] {
        assert_eq!(Double::from_u64(n).to_bits(), (n as f64).to_bits());
        assert_eq!(Double::from_u64(n).to_i64(), n as i64);
    }
    let a = Double::from_u64(94_906_265);
    assert_eq!(f(a.times(a)), 9_007_199_136_250_225.0);
    assert_eq!(f(d(9_007_199_254_740_990.0).plus(d(2.0))), 9_007_199_254_740_992.0);
    assert_eq!(f(d(-7.0).times(d(6.0))), -42.0);
}

#[test]
fn binary_fractions_are_exact() {
    assert_eq!(f(d(0.25).plus(d(-1.75))), -1.5);
    assert_eq!(f(d(0.25).times(d(3.5))), 0.875);
    assert_eq!(f(d(1.5).times(d(-94_906_264.5))), -142_359_396.75);
    assert_eq!(f(d(0.125).plus(d(8_589_934_591.875))), 8_589_934_592.0);
}

#[test]
fn one_and_minus_one_change_only_the_sign() {
    let minus = d(-1.0);
    for &x in &[0.0, -0.0, 0.1, -3.5, 5e-324, f64::MAX, f64::INFINITY, f64::NEG_INFINITY] {
        assert_eq!(d(1.0).times(d(x)).to_bits(), x.to_bits());
        assert_eq!(minus.times(d(x)).to_bits(), (-x).to_bits());
    }
}

#[test]
fn integers_are_shown_as_integers() {
    for &n in &[0i64, 1, -1, 7, -300, 123_456_789, 999_999_999_999_999, -999_999_999_999_999] {
        for opts in &[RenderOpts::dictionary(), RenderOpts::textbook()] {
            assert_eq!(fmt_num(d(n as f64), opts), n.to_string());
        }
    }
}

#[test]
fn small_rationals_are_shown_in_lowest_terms() {
    let opts = RenderOpts::textbook();
    for q in 1..65u64 {
        for &p in &[1u64, 2, 3, 8, 35, 63, 64, 997, 12_345, 999_999, 1_000_000] {
            let g = gcd(p, q);
            let (m, n) = (p / g, q / g);
            let text = if n == 1 { m.to_string() } else { format!("{}/{}", m, n) };
            let v = p as f64 / q as f64;
            assert_eq!(fmt_num(d(v), &opts), text);
            assert_eq!(fmt_num(d(-v), &opts), format!("-{}", text));
        }
    }
}

#[test]
fn fractions_are_close_to_what_they_stand_for() {
    let mut shown = 0;
    for k in 0..4000u64 {
        let v = (k % 61) as f64 / (k % 64 + 1) as f64 + (k % 7) as f64 * 0.4e-9;
        for &v in &[-v, v * 1e9 + 0.5] {
            if let Some(text) = as_fraction(d(v)) {
                let mut parts = text.split('/').map(|n| n.parse::<f64>().unwrap());
                let p = parts.next().unwrap();
                let q = parts.next().unwrap_or(1.0);
                let step = (p / q).abs() * f64::EPSILON;
                assert!((v - p / q).abs() <= 1e-9 + step, "{} is shown as {}", v, text);
                shown += 1;
            }
        }
    }
    assert!(shown > 1000);
}

#[test]
fn numbers_next_to_a_rational_are_shown_as_fractions() {
    for q in 1..65u64 {
        for p in -70..70i64 {
            for &off in &[0.0, 0.4e-9, -0.9e-9, 0.999e-9] {
                let v = p as f64 / q as f64 + off;
                assert!(as_fraction(d(v)).is_some(), "{}", v);
            }
        }
    }
    // Nothing with so small a denominator is as near to these.
    assert_eq!(as_fraction(d(1.0 + 1.001e-9)), None);
    assert_eq!(as_fraction(d(1.0 / 65.0)), None);
    assert_eq!(as_fraction(d(std::f64::consts::PI)), None);
}

#[test]
fn strengths_split_back_into_their_bands() {
    let opts = RenderOpts::dictionary();
    let part = |n: u64, letter: &str| match n {
        0 => None,
        1 => Some(letter.to_string()),
        _ => Some(format!("{}{}", n, letter)),
    };
    for &a in &[0u64, 1, 2, 17, 999, 1000] {
        for &b in &[0u64, 1, 3, 500, 999] {
            for &c in &[0u64, 1, 4, 998, 999] {
                let parts: Vec<String> = [part(a, "S"), part(b, "M"), part(c, "W")]
                    .iter()
                    .filter_map(|p| p.clone())
                    .collect();
                let text = if parts.is_empty() { "0".to_string() } else { parts.join("+") };
                let s = a * 1_000_000 + b * 1_000 + c;
                assert_eq!(fmt_strength(d(s as f64), &opts), text);
            }
        }
    }
}

#[test]
fn shortest_texts_read_back() {
    for &x in &[0.1, 1.0 / 3.0, 5e-324, 1e23, 123456.789, 2.2250738585072014e-308, f64::MAX] {
        let mut out = String::new();
        push_display(&mut out, d(x));
        assert_eq!(out.parse::<f64>().unwrap().to_bits(), x.to_bits());
    }
}

fn row(cells: &[(Symbol, f64)], constant: f64) -> Row {
    let mut table = Table::new();
    for &(s, v) in cells {
        table.insert(s, d(v));
    }
    Row { cells: table, constant: d(constant) }
}

fn s(id: usize) -> Symbol {
    Symbol(id, SymbolType::Slack)
}

fn e(id: usize) -> Symbol {
    Symbol(id, SymbolType::Error)
}

fn x(id: usize) -> Symbol {
    Symbol(id, SymbolType::External)
}

fn dummy(id: usize) -> Symbol {
    Symbol(id, SymbolType::Dummy)
}

/// `e1 = 5 + 2 s3 - 3 x4`, `s2 = 1 - s3 + 4 d5`, with `e1` costing 10: the
/// objective is `50 + 20 s3 - 30 x4`.
fn example(artificial: Option<Symbol>) -> (Tableau, Table<Symbol, Variable>, Table<Variable, String>) {
    let mut rows = Table::new();
    rows.insert(e(1), row(&[(s(3), 2.0), (x(4), -3.0)], 5.0));
    rows.insert(s(2), row(&[(s(3), -1.0), (dummy(5), 4.0)], 1.0));
    let objective = row(&[(s(3), 20.0), (x(4), -30.0), (dummy(5), -2.0)], 50.0);
    let mut costs = Table::new();
    costs.insert(e(1), d(10.0));
    let mut vars = Table::new();
    vars.insert(x(4), Variable(9));
    let mut names = Table::new();
    names.insert(Variable(9), "gap".to_string());
    let t = build(
        &rows,
        &objective,
        None,
        &costs,
        artificial,
        &vars,
        &names,
        &[],
        Vec::new(),
    );
    (t, vars, names)
}

#[test]
fn every_symbol_has_a_column_or_a_row() {
    let (t, vars, names) = example(None);
    assert_eq!(t.column_ids, [4, 3, 5]);
    assert_eq!(t.row_ids, [2, 1]);
    let columns = [x(4), s(3), dummy(5)];
    let basis = [s(2), e(1)];
    for (c, sym) in t.columns.iter().zip(columns.iter()) {
        assert_eq!(c.name, label_symbol(*sym, None, &vars, &names));
    }
    for (r, sym) in t.rows.iter().zip(basis.iter()) {
        assert_eq!(r.basis, label_symbol(*sym, None, &vars, &names));
    }
    assert_eq!(t.columns[0].name, "gap");
    assert_eq!(t.nonbasic_externals, ["gap"]);
    // Absent cells are zero.
    assert_eq!(f(t.rows[0].coeffs[0]), 0.0);
    assert_eq!(f(t.rows[1].coeffs[2]), 0.0);
}

#[test]
fn the_artificial_label_is_exact() {
    let (t, _, _) = example(None);
    assert!(t.rows.iter().all(|r| r.kind != SymbolKind::Artificial));
    assert!(t.columns.iter().all(|c| c.kind != SymbolKind::Artificial));
    let (t, _, _) = example(Some(s(2)));
    let labelled: Vec<&str> = t
        .rows
        .iter()
        .filter(|r| r.kind == SymbolKind::Artificial)
        .map(|r| r.basis.as_str())
        .collect();
    assert_eq!(labelled, ["a2"]);
    assert!(t.columns.iter().all(|c| c.kind != SymbolKind::Artificial));
}

#[test]
fn a_marked_pivot_is_the_one_meant() {
    for &dual in &[false, true] {
        for &(enter, leave, element) in &[(4, 1, -3.0), (3, 1, 2.0), (3, 2, -1.0), (4, 2, 0.0)] {
            let (mut t, _, _) = example(None);
            if dual {
                t.mark_dual_pivot(enter, leave);
            } else {
                t.mark_pivot(enter, leave);
            }
            assert_eq!(t.column_ids[t.pivot_col.unwrap()], enter);
            assert_eq!(t.row_ids[t.pivot_row.unwrap()], leave);
            assert_eq!(t.pivot_element().map(f), Some(element));
        }
    }
}

#[test]
fn marks_keep_the_rest() {
    let (before, _, _) = example(None);
    let (mut t, _, _) = example(None);
    t.mark_pivot(4, 1);
    assert_eq!(t.objective_value().to_bits(), before.objective_value().to_bits());
    assert_eq!(t.entering_candidate(), before.entering_candidate());
    assert!(t.dual_ratios.is_none());
    let (mut t, _, _) = example(None);
    t.mark_dual_pivot(3, 1);
    assert!(t.rows.iter().all(|r| r.ratio.is_none()));
    let zj: Vec<u64> = t.zj().iter().map(|z| z.to_bits()).collect();
    let same: Vec<u64> = before.zj().iter().map(|z| z.to_bits()).collect();
    assert_eq!(zj, same);
}

#[test]
fn reduced_costs_are_what_the_basis_leaves() {
    let (t, _, _) = example(None);
    assert_eq!(f(t.objective_value()), 50.0);
    let zj = t.zj();
    for j in 0..2 {
        assert_eq!(f(t.columns[j].cost.minus(zj[j])), f(t.objective.reduced[j]));
    }
}

/// `e1 = 7/4 + 1/4 s3`, `e2 = 7/2 - 3/4 s3`, with costs 1/2 and 10.
fn fractional(cells: [f64; 2], costs: [f64; 2]) -> Tableau {
    let mut rows = Table::new();
    rows.insert(e(1), row(&[(s(3), cells[0])], 1.75));
    rows.insert(e(2), row(&[(s(3), cells[1])], 3.5));
    let reduced = costs[0] * cells[0] + costs[1] * cells[1];
    let mut table = Table::new();
    table.insert(e(1), d(costs[0]));
    table.insert(e(2), d(costs[1]));
    build(
        &rows,
        &row(&[(s(3), reduced)], 0.0),
        None,
        &table,
        None,
        &Table::new(),
        &Table::new(),
        &[],
        Vec::new(),
    )
}

#[test]
fn fractional_reduced_costs_are_what_the_basis_leaves() {
    let t = fractional([0.25, -0.75], [0.5, 10.0]);
    assert_eq!(f(t.objective_value()), 35.875);
    assert_eq!(f(t.zj()[0]), 7.375);
    assert_eq!(f(t.objective.reduced[0]), -7.375);
    assert_eq!(f(t.columns[0].cost.minus(t.zj()[0])), -7.375);
    // Where the products are rounded, the two agree up to the rounding.
    let t = fractional([1.0 / 3.0, -0.1], [0.7, 1.0 / 7.0]);
    let left = f(t.columns[0].cost.minus(t.zj()[0]));
    assert!((left - f(t.objective.reduced[0])).abs() <= 4.0 * f64::EPSILON);
}

fn every_opts() -> Vec<RenderOpts> {
    let mut all = Vec::new();
    for k in 0..64u32 {
        let bit = |i: u32| k >> i & 1 == 1;
        all.push(RenderOpts {
            textbook_signs: bit(0),
            show_zj: bit(1),
            fractions: bit(2),
            elide_zero_columns: bit(3),
            show_raw_strengths: bit(4),
            show_ratios: bit(5),
        });
    }
    all
}

#[test]
fn the_text_tells_whether_a_snapshot_is_optimal() {
    let (mut t, _, _) = example(None);
    // Names that come close to the words.
    t.columns[1].name = "s(current".to_string();
    t.rows[0].basis = "optimal)(".to_string();
    for opts in &every_opts() {
        let mut t = t.clone();
        let out = t.render(opts);
        assert!(!t.is_optimal());
        assert!(out.contains("(currently not optimal)"));
        assert!(!out.contains("(currently optimal)"));
        t.objective.reduced[0] = d(30.0);
        let out = t.render(opts);
        assert!(t.is_optimal());
        assert!(out.contains("(currently optimal)"));
        assert!(!out.contains("(currently not optimal)"));
    }
}

/// The cells of the lines of a grid.
fn cells(text: &str) -> Vec<Vec<String>> {
    text.lines()
        .filter(|l| l.starts_with('|'))
        .map(|l| l.split('|').map(|c| c.trim().to_string()).collect())
        .collect()
}

#[test]
fn only_the_body_changes_its_sign() {
    let (mut t, _, _) = example(None);
    t.mark_dual_pivot(3, 1);
    t.compute_ratios(0);
    t.rows[0].coeffs[0] = d(f64::NAN);
    let dictionary = RenderOpts { show_raw_strengths: true, ..RenderOpts::dictionary() };
    let textbook = RenderOpts { textbook_signs: true, ..dictionary.clone() };
    let (a, b) = (cells(&t.render(&dictionary)), cells(&t.render(&textbook)));
    assert_eq!(a.len(), 6);
    // The lines of costs, names and dual ratios.
    for &k in &[0, 1, 5] {
        assert_eq!(a[k], b[k]);
    }
    assert_eq!(a[4][3..6], b[4][3..6]);
    assert_eq!(b[4][1], "Cj-Zj");
    for k in 2..4 {
        assert_eq!(a[k][1..3], b[k][1..3]);
        assert_eq!(a[k][6..], b[k][6..]);
        for j in 3..6 {
            let negated = match a[k][j].as_str() {
                "0" | "NaN" => a[k][j].clone(),
                text if text.starts_with('-') => text[1..].to_string(),
                text => format!("-{}", text),
            };
            assert_eq!(b[k][j], negated);
        }
    }
    assert_eq!(a[2][3], "NaN");
    assert_eq!(a[3][3..6], ["-3", "2", "0"]);
}

#[test]
fn dummies_do_not_count() {
    let (mut t, _, _) = example(None);
    assert_eq!(t.entering_candidate(), Some(0));
    t.objective.reduced[0] = d(30.0);
    assert!(t.is_optimal());
    t.objective.reduced[2] = d(-1e9);
    assert!(t.is_optimal());
}

#[test]
fn elided_columns_would_read_zero() {
    let (mut t, _, _) = example(None);
    t.objective.reduced[2] = d(1e-9);
    t.rows[0].coeffs[2] = d(-1e-9);
    assert_eq!(t.live_columns(), [0, 1]);
    let all = RenderOpts { elide_zero_columns: false, ..RenderOpts::textbook() };
    let text = t.render(&all);
    let body: Vec<&str> = text.lines().filter(|l| l.starts_with('|')).collect();
    for line in &body[2..] {
        let cells: Vec<&str> = line.split('|').map(|c| c.trim()).collect();
        assert_eq!(cells[5], "0", "{}", line);
    }
}

#[test]
fn a_pivot_is_announced_and_steps_are_numbered() {
    let (mut t, _, _) = example(None);
    t.mark_pivot(4, 1);
    let out = t.render(&RenderOpts::textbook());
    assert!(out.contains("gap*"));
    assert!(out.contains("e1 <"));
    assert!(out.contains("pivot element = 3"));
    assert!(out.contains("state *before* that pivot"));
    let mut trace = Trace::new(Table::new());
    for _ in 0..12 {
        trace.steps.push(TraceStep { event: TraceEvent::Feasible, tableau: t.clone() });
    }
    let text = trace.render(&RenderOpts::textbook());
    for i in 1..13 {
        assert!(text.contains(&format!("--- step {} of 12: ", i)));
    }
    assert_eq!(text.matches(&out).count(), 12);
}
