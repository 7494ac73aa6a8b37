use tableau::double::Double;
use tableau::grid::{grid, Line};
use tableau::options::RenderOpts;
use tableau::snapshot::{build, Row};
use tableau::symbol::{kind_of, label_symbol, Symbol, SymbolKind, SymbolType, Variable};
use tableau::table::Table;
use tableau::tableau::{EditView, Tableau};
use tableau::trace::{Phase, Trace, TraceEvent, TraceStep};

fn d(x: f64) -> Double {
    Double::from_bits(x.to_bits())
}

fn f(x: Double) -> f64 {
    f64::from_bits(x.to_bits())
}

fn external(id: usize) -> Symbol {
    Symbol(id, SymbolType::External)
}

fn slack(id: usize) -> Symbol {
    Symbol(id, SymbolType::Slack)
}

fn error(id: usize) -> Symbol {
    Symbol(id, SymbolType::Error)
}

fn dummy(id: usize) -> Symbol {
    Symbol(id, SymbolType::Dummy)
}

fn row(cells: &[(Symbol, f64)], constant: f64) -> Row {
    let mut table = Table::new();
    for &(s, v) in cells {
        table.insert(s, d(v));
    }
    Row { cells: table, constant: d(constant) }
}

fn names(list: &[(usize, &str)]) -> Table<Variable, String> {
    let mut table = Table::new();
    for &(v, n) in list {
        table.insert(Variable(v), n.to_string());
    }
    table
}

/// Two basic and four nonbasic symbols, one of them in no row.
fn small() -> Tableau {
    let mut rows = Table::new();
    rows.insert(error(8), row(&[(slack(6), 0.5), (slack(5), -0.25), (slack(7), 1.0)], 998.0));
    rows.insert(external(1), row(&[(dummy(9), 0.0), (slack(6), -0.5), (slack(5), 0.25)], 2.0));
    let objective = row(&[(slack(7), 7.0), (slack(6), 3.5), (slack(5), -1.75)], 6986.0);
    let mut costs = Table::new();
    costs.insert(error(8), d(7.0));
    let mut vars = Table::new();
    vars.insert(external(1), Variable(1));
    build(
        &rows,
        &objective,
        None,
        &costs,
        None,
        &vars,
        &names(&[(1, "x1")]),
        &[],
        Vec::new(),
    )
}

/// A system in the middle of phase I, with edits and infeasible rows.
fn busy() -> Tableau {
    let mut rows = Table::new();
    rows.insert(
        external(1),
        row(&[(external(3), 2.0), (external(2), 1.0), (slack(5), 0.25)], 2.0),
    );
    rows.insert(slack(10), row(&[(slack(5), -0.25), (slack(6), 0.5), (dummy(9), 4.0)], -3.0));
    let objective = row(&[(slack(6), 3.5), (dummy(9), -1.0)], 7000.0);
    let artificial = row(&[(slack(5), -1.0)], 12.0);
    let mut vars = Table::new();
    vars.insert(external(1), Variable(1));
    vars.insert(external(2), Variable(2));
    build(
        &rows,
        &objective,
        Some(&artificial),
        &Table::new(),
        Some(slack(10)),
        &vars,
        &names(&[(2, "width"), (1, "x1")]),
        &[slack(10)],
        vec![
            EditView { name: "width".to_string(), value: d(300.0), strength: d(1_000_000.0) },
            EditView { name: "x1".to_string(), value: d(-0.5), strength: d(1_002.0) },
        ],
    )
}

#[test]
fn a_snapshot_sorts_its_symbols() {
    let t = small();
    let columns: Vec<&str> = t.columns.iter().map(|c| c.name.as_str()).collect();
    let basis: Vec<&str> = t.rows.iter().map(|r| r.basis.as_str()).collect();
    assert_eq!(columns, ["s5", "s6", "s7", "d9"]);
    assert_eq!(basis, ["x1", "e8"]);
    assert_eq!(t.column_ids, [5, 6, 7, 9]);
    assert_eq!(t.row_ids, [1, 8]);
    let body: Vec<Vec<f64>> =
        t.rows.iter().map(|r| r.coeffs.iter().map(|c| f(*c)).collect()).collect();
    assert_eq!(body, [[0.25, -0.5, 0.0, 0.0], [-0.25, 0.5, 1.0, 0.0]]);
    let reduced: Vec<f64> = t.objective.reduced.iter().map(|c| f(*c)).collect();
    assert_eq!(reduced, [-1.75, 3.5, 7.0, 0.0]);
    let costs: Vec<f64> = t.rows.iter().map(|r| f(r.c_b)).collect();
    assert_eq!(costs, [0.0, 7.0]);
    assert_eq!(t.rows.iter().map(|r| f(r.rhs)).collect::<Vec<_>>(), [2.0, 998.0]);
    assert!(t.phase_one.is_none());
    assert!(t.nonbasic_externals.is_empty());
    assert!(t.pivot_col.is_none() && t.pivot_row.is_none() && t.dual_ratios.is_none());
    assert!(t.rows.iter().all(|r| r.ratio.is_none() && !r.infeasible));
    assert_eq!(t.live_columns(), [0, 1, 2]);
    assert_eq!(t.column_of_id(7), Some(2));
    assert_eq!(t.column_of_id(8), None);
    assert_eq!(t.row_of_id(8), Some(1));
    assert_eq!(t.row_of_id(7), None);
}

#[test]
fn the_dictionary_is_shown_as_it_is() {
    let expected = "\
+-------+----+--------+--------+----+--------+
|       | Cj |      0 |      0 |  0 |        |
+-------+----+--------+--------+----+--------+
| Basis | CB |     s5 |     s6 | s7 |      b |
+-------+----+--------+--------+----+--------+
|  x1   |  0 |  0.250 | -0.500 |  0 |      2 |
|  e8   | 7W | -0.250 |  0.500 |  1 |    998 |
+-------+----+--------+--------+----+--------+
| cj-zj |    | -1.750 |  3.500 |  7 | z=6986 |
+-------+----+--------+--------+----+--------+
  minimisation: optimal when all cj-zj >= 0, dummy columns exempt (currently not optimal)
  1 all-zero column(s) elided
";
    assert_eq!(small().render(&RenderOpts::dictionary()), expected);
    assert_eq!(small().render(&RenderOpts::default()), expected);
}

#[test]
fn a_marked_pivot_is_shown_with_its_ratios() {
    let mut t = small();
    t.mark_pivot(5, 8);
    assert_eq!((t.pivot_col, t.pivot_row), (Some(0), Some(1)));
    assert_eq!(t.pivot_element().map(f), Some(-0.25));
    assert!(t.rows[0].ratio.is_none());
    assert_eq!(t.rows[1].ratio.map(f), Some(3992.0));
    let expected = "\
+-------+----+--------+--------+----+--------+-------+
|       | Cj |      0 |      0 |  0 |        |       |
+-------+----+--------+--------+----+--------+-------+
| Basis | CB |    s5* |     s6 | s7 |      b | ratio |
+-------+----+--------+--------+----+--------+-------+
|  x1   |  0 |  0.250 | -0.500 |  0 |      2 |     - |
| e8 <  | 7W | -0.250 |  0.500 |  1 |    998 |  3992 |
+-------+----+--------+--------+----+--------+-------+
| cj-zj |    | -1.750 |  3.500 |  7 | z=6986 |       |
+-------+----+--------+--------+----+--------+-------+
  pivot: s5* enters, e8 < leaves, pivot element = -0.250
  (this tableau is the state *before* that pivot)
  minimisation: optimal when all cj-zj >= 0, dummy columns exempt (currently not optimal)
  1 all-zero column(s) elided
";
    assert_eq!(t.render(&RenderOpts::dictionary()), expected);
}

#[test]
fn the_textbook_body_is_negated_and_its_reduced_costs_are_not() {
    let mut t = small();
    t.mark_pivot(5, 8);
    let expected = "\
+-------+----+------+------+----+------+-------+
|       | Cj |    0 |    0 |  0 |      |       |
+-------+----+------+------+----+------+-------+
| Basis | CB |  s5* |   s6 | s7 |    b | ratio |
+-------+----+------+------+----+------+-------+
|  x1   |  0 | -1/4 |  1/2 |  0 |    2 |     - |
| e8 <  |  7 |  1/4 | -1/2 | -1 |  998 |  3992 |
+-------+----+------+------+----+------+-------+
|  Zj   |    |  7/4 | -7/2 | -7 | 6986 |       |
+-------+----+------+------+----+------+-------+
| Cj-Zj |    | -7/4 |  7/2 |  7 |      |       |
+-------+----+------+------+----+------+-------+
  pivot: s5* enters, e8 < leaves, pivot element = 1/4
  (this tableau is the state *before* that pivot)
  minimisation: optimal when all cj-zj >= 0, dummy columns exempt (currently not optimal)
  1 all-zero column(s) elided
";
    assert_eq!(t.render(&RenderOpts::textbook()), expected);
    let zj: Vec<f64> = t.zj().iter().map(|z| f(*z)).collect();
    assert_eq!(zj, [1.75, -3.5, -7.0, 0.0]);
}

#[test]
fn a_busy_snapshot_shows_all_its_notes() {
    let mut t = busy();
    t.mark_dual_pivot(6, 10);
    assert_eq!((t.pivot_col, t.pivot_row), (Some(3), Some(1)));
    let ratios: Vec<Option<f64>> =
        t.dual_ratios.as_ref().unwrap().iter().map(|r| r.map(f)).collect();
    assert_eq!(ratios, [None, None, None, Some(7.0), None]);
    let expected = "\
+------------+----+-------+----+--------+-------+----+-----+
|            | Cj |     0 |  0 |      0 |     0 |  0 |     |
+------------+----+-------+----+--------+-------+----+-----+
|   Basis    | CB | width | x3 |     s5 |   s6* | d9 |   b |
+------------+----+-------+----+--------+-------+----+-----+
|     x1     |  0 |     1 |  2 |  0.250 |     0 |  0 |   2 |
|  a10 ! <   |  0 |     0 |  0 | -0.250 | 0.500 |  4 |  -3 |
+------------+----+-------+----+--------+-------+----+-----+
|   cj-zj    |    |     0 |  0 |      0 | 3.500 | -1 | z=0 |
+------------+----+-------+----+--------+-------+----+-----+
| dual ratio |    |     - |  - |      - |     7 |  - |     |
+------------+----+-------+----+--------+-------+----+-----+
  pivot: s6* enters, a10 < leaves, pivot element = 0.500
  (this tableau is the state *before* that pivot)
  phase-I objective: w=12 (artificial variable active)
  nonbasic externals (=0): width, x3
  edit: width = 300 (S)
  edit: x1 = -0.500 (M+2W)
  minimisation: optimal when all cj-zj >= 0, dummy columns exempt (currently optimal)
  note: z is computed as sum(c_B*rhs); the solver's carried objective constant reads 7000 (drifts across suggest_value)
  ! = infeasible row, pending dual_optimise
";
    assert_eq!(t.render(&RenderOpts::dictionary()), expected);
}

#[test]
fn edits_are_shown_as_the_options_say() {
    let out = busy().render(&RenderOpts::textbook());
    assert!(out.contains("  edit: width = 300 (1000000)\n"), "{}", out);
    assert!(out.contains("  edit: x1 = -1/2 (1002)\n"), "{}", out);
    let opts = RenderOpts { fractions: true, ..RenderOpts::dictionary() };
    assert!(busy().render(&opts).contains("  edit: x1 = -1/2 (M+2W)\n"));
}

#[test]
fn snapshots_are_consistent_until_they_are_changed_by_hand() {
    let mut t = busy();
    assert!(t.is_consistent());
    t.mark_dual_pivot(6, 10);
    t.mark_pivot(5, 10);
    assert!(t.is_consistent());
    let broken: [fn(&mut Tableau); 8] = [
        |t| t.objective.reduced.truncate(1),
        |t| t.phase_one.as_mut().unwrap().reduced.truncate(1),
        |t| t.rows[1].coeffs.truncate(1),
        |t| t.pivot_col = Some(5),
        |t| t.pivot_row = Some(2),
        |t| t.dual_ratios = Some(Vec::new()),
        |t| t.column_ids.truncate(1),
        |t| t.row_ids.truncate(1),
    ];
    for change in broken.iter() {
        let mut other = t.clone();
        change(&mut other);
        assert!(!other.is_consistent());
    }
}

#[test]
fn a_half_marked_pivot_has_no_element() {
    let mut t = small();
    t.mark_pivot(5, 77);
    assert_eq!((t.pivot_col, t.pivot_row), (Some(0), None));
    assert!(t.pivot_element().is_none());
    let out = t.render(&RenderOpts::dictionary());
    assert!(out.contains("  pivot: s5* enters, ? < leaves\n"));
    let mut t = small();
    t.mark_dual_pivot(77, 1);
    assert_eq!((t.pivot_col, t.pivot_row), (None, Some(0)));
    let out = t.render(&RenderOpts::dictionary());
    assert!(out.contains("  pivot: ?* enters, x1 < leaves\n"));
    assert!(out.contains("dual ratio"));
}

#[test]
fn columns_are_elided_only_on_request() {
    let opts = RenderOpts { elide_zero_columns: false, ..RenderOpts::dictionary() };
    let out = small().render(&opts);
    assert!(out.contains("d9"));
    assert!(!out.contains("elided"));
}

#[test]
fn ratios_are_shown_only_on_request() {
    let mut t = small();
    t.compute_ratios(0);
    assert_eq!(t.rows[1].ratio.map(f), Some(3992.0));
    let opts = RenderOpts { show_ratios: false, ..RenderOpts::dictionary() };
    assert!(!t.render(&opts).contains("ratio"));
    assert!(t.render(&RenderOpts::dictionary()).contains("ratio"));
}

#[test]
fn dual_ratios_skip_dummies_and_negative_coefficients() {
    let mut t = small();
    t.compute_dual_ratios(1);
    let ratios: Vec<Option<f64>> =
        t.dual_ratios.as_ref().unwrap().iter().map(|r| r.map(f)).collect();
    assert_eq!(ratios, [None, Some(7.0), Some(7.0), None]);
}

#[test]
fn an_empty_snapshot_is_optimal() {
    let t = build(
        &Table::new(),
        &row(&[], 0.0),
        None,
        &Table::new(),
        None,
        &Table::new(),
        &Table::new(),
        &[],
        Vec::new(),
    );
    assert!(t.is_optimal());
    assert!(t.entering_candidate().is_none());
    // A sum of nothing is negative zero.
    assert_eq!(t.objective_value().to_bits(), (-0.0f64).to_bits());
    let expected = "\
+-------+----+-----+
|       | Cj |     |
+-------+----+-----+
| Basis | CB |   b |
+-------+----+-----+
+-------+----+-----+
| cj-zj |    | z=0 |
+-------+----+-----+
  minimisation: optimal when all cj-zj >= 0, dummy columns exempt (currently optimal)
";
    assert_eq!(t.render(&RenderOpts::dictionary()), expected);
}

#[test]
fn the_first_improving_column_may_enter() {
    let t = small();
    assert_eq!(t.entering_candidate(), Some(0));
    assert!(!t.is_optimal());
    // The negative reduced cost of the dummy does not count.
    let t = busy();
    assert_eq!(t.entering_candidate(), None);
    assert!(t.is_optimal());
    // One that is next to nothing does.
    let mut t = small();
    t.objective.reduced[0] = d(-1e-9);
    assert_eq!(t.entering_candidate(), Some(0));
    assert!(!t.is_optimal());
    for &zero in &[0.0, -0.0, 1e-9, f64::NAN] {
        t.objective.reduced[0] = d(zero);
        assert!(t.is_optimal());
    }
    let tiny = build(
        &Table::new(),
        &row(&[(slack(1), -1e-9)], 0.0),
        None,
        &Table::new(),
        None,
        &Table::new(),
        &Table::new(),
        &[],
        Vec::new(),
    );
    assert_eq!(tiny.entering_candidate(), Some(0));
    assert!(tiny.render(&RenderOpts::textbook()).contains("(currently not optimal)"));
    // Only dummies are exempt.
    t.objective.reduced[0] = d(-1.0);
    t.columns[0].kind = SymbolKind::Invalid;
    assert_eq!(t.entering_candidate(), Some(0));
    t.columns[0].kind = SymbolKind::Dummy;
    assert!(t.is_optimal());
}

#[test]
fn the_objective_value_ignores_the_carried_constant() {
    let mut t = small();
    assert_eq!(f(t.objective_value()), 6986.0);
    assert_eq!(f(t.carried_constant_drift()), 0.0);
    t.objective.carried_constant = d(7000.0);
    assert_eq!(f(t.objective_value()), 6986.0);
    assert_eq!(f(t.objective_from_basis()), 6986.0);
    assert_eq!(f(t.carried_constant_drift()), 14.0);
}

#[test]
fn the_order_of_entries_does_not_show() {
    let cells = [(slack(5), 1.0), (error(2), -3.0), (dummy(7), 0.5), (external(4), 2.0)];
    let mut texts = Vec::new();
    for turn in 0..4 {
        let mut turned = cells.to_vec();
        turned.rotate_left(turn);
        let mut rows = Table::new();
        let list = [(slack(1), 4.0), (external(3), 5.0), (error(6), 6.0)];
        for k in 0..3 {
            let (s, c) = list[(k + turn) % 3];
            rows.insert(s, row(&turned, c));
        }
        let t = build(
            &rows,
            &row(&turned, 1.0),
            None,
            &Table::new(),
            None,
            &Table::new(),
            &Table::new(),
            &[],
            Vec::new(),
        );
        texts.push(t.render(&RenderOpts::textbook()));
    }
    assert!(texts.iter().all(|t| *t == texts[0]));
}

#[test]
fn nonbasic_externals_are_sorted_by_name() {
    let mut vars = Table::new();
    for id in 1..5 {
        vars.insert(external(id), Variable(id));
    }
    let cells = [(external(1), 1.0), (external(2), 1.0), (external(3), 1.0), (external(4), 1.0)];
    let t = build(
        &Table::new(),
        &row(&cells, 0.0),
        None,
        &Table::new(),
        None,
        &vars,
        &names(&[(1, "zebra"), (2, "Zoo"), (3, "apple"), (4, "app")]),
        &[],
        Vec::new(),
    );
    assert_eq!(t.nonbasic_externals, ["Zoo", "app", "apple", "zebra"]);
}

#[test]
fn symbols_are_named_by_their_kinds() {
    let mut vars = Table::new();
    vars.insert(external(1), Variable(10));
    vars.insert(external(2), Variable(20));
    let names = names(&[(10, "left")]);
    let label = |s: Symbol, a: Option<Symbol>| label_symbol(s, a, &vars, &names);
    assert_eq!(label(external(1), None), "left");
    assert_eq!(label(external(2), None), "x2");
    assert_eq!(label(external(3), None), "x3");
    assert_eq!(label(slack(12), None), "s12");
    assert_eq!(label(slack(12), Some(slack(12))), "a12");
    assert_eq!(label(slack(12), Some(slack(13))), "s12");
    assert_eq!(label(error(4), None), "e4");
    assert_eq!(label(dummy(5), None), "d5");
    assert_eq!(label(Symbol(0, SymbolType::Invalid), None), "?");
    assert_eq!(label(Symbol(7, SymbolType::Invalid), None), "?");
    assert_eq!(kind_of(slack(12), Some(slack(12))), SymbolKind::Artificial);
    assert_eq!(kind_of(slack(12), None), SymbolKind::Slack);
}

#[test]
fn events_describe_themselves() {
    let s = |t: &str| t.to_string();
    let cases = [
        (TraceEvent::SubjectChosen { subject: s("x1") }, "row added, solved for x1"),
        (
            TraceEvent::ArtificialPhaseStart { artificial: s("a5") },
            "phase I begins: artificial variable a5 entered the basis",
        ),
        (
            TraceEvent::ArtificialPhaseEnd { success: true },
            "phase I ends: artificial objective reached zero (constraint satisfiable)",
        ),
        (
            TraceEvent::ArtificialPhaseEnd { success: false },
            "phase I ends: artificial objective did not reach zero (constraint unsatisfiable)",
        ),
        (
            TraceEvent::Pivot { entering: s("s5"), leaving: s("e8"), phase: Phase::One },
            "phase I pivot: s5 enters, e8 leaves",
        ),
        (
            TraceEvent::Pivot { entering: s("s5"), leaving: s("e8"), phase: Phase::Two },
            "phase II pivot: s5 enters, e8 leaves",
        ),
        (
            TraceEvent::Optimal { phase: Phase::Two },
            "phase II optimal: no non-dummy column has a negative reduced cost",
        ),
        (
            TraceEvent::ValueSuggested { variable: s("w"), value: d(300.0) },
            "suggest_value(w, 300): right-hand side shifted",
        ),
        (
            TraceEvent::ValueSuggested { variable: s("w"), value: d(-0.1) },
            "suggest_value(w, -0.1): right-hand side shifted",
        ),
        (
            TraceEvent::DualPivot { entering: s("s5"), leaving: s("e8") },
            "dual pivot: e8 leaves (infeasible), s5 enters",
        ),
        (TraceEvent::Feasible, "dual simplex done: no infeasible rows remain"),
        (
            TraceEvent::MarkerRemoved { marker: s("s3") },
            "constraint removed: marker s3 pivoted out and its row dropped",
        ),
    ];
    for (event, text) in cases.iter() {
        assert_eq!(event.describe(), *text);
        let pivot =
            matches!(*event, TraceEvent::Pivot { .. }) || matches!(*event, TraceEvent::DualPivot { .. });
        assert_eq!(event.is_pivot(), pivot);
    }
    assert_eq!(Phase::One.label(), "phase I");
    assert_eq!(Phase::Two.label(), "phase II");
}

#[test]
fn a_recording_numbers_its_steps() {
    let mut trace = Trace::new(Table::new());
    assert!(trace.is_empty());
    assert_eq!(trace.len(), 0);
    assert_eq!(trace.render(&RenderOpts::dictionary()), "");
    let mut marked = small();
    marked.mark_pivot(5, 8);
    let pivot = TraceEvent::Pivot {
        entering: "s5".to_string(),
        leaving: "e8".to_string(),
        phase: Phase::Two,
    };
    trace.steps.push(TraceStep { event: pivot, tableau: marked.clone() });
    trace.steps.push(TraceStep { event: TraceEvent::Feasible, tableau: small() });
    assert_eq!(trace.len(), 2);
    assert!(!trace.is_empty());
    assert_eq!(trace.pivots().len(), 1);
    let opts = RenderOpts::dictionary();
    let expected = format!(
        "--- step 1 of 2: phase II pivot: s5 enters, e8 leaves --------\n{}\n\
         --- step 2 of 2: dual simplex done: no infeasible rows remain --------\n{}\n",
        marked.render(&opts),
        small().render(&opts)
    );
    assert_eq!(trace.render(&opts), expected);
    assert_eq!(
        trace.pivots()[0].render(&opts),
        format!("phase II pivot: s5 enters, e8 leaves\n{}", marked.render(&opts))
    );
}

#[test]
fn a_grid_is_rectangular() {
    let cells = |list: &[&str]| Line::Cells(list.iter().map(|s| s.to_string()).collect());
    let lines = vec![
        Line::Sep,
        cells(&["a", "bb", "ccc"]),
        cells(&["größe"]),
        cells(&["", "x"]),
        Line::Sep,
    ];
    let expected = "\
+-------+----+-----+
|   a   | bb | ccc |
| größe |    |     |
|       |  x |     |
+-------+----+-----+
";
    let out = grid(&lines, 3);
    assert_eq!(out, expected);
    assert!(out.lines().all(|l| l.chars().count() == 20));
    assert_eq!(grid(&[], 3), "");
    assert_eq!(grid(&[Line::Sep], 0), "+\n");
}

#[test]
fn tables_hold_one_value_for_each_key() {
    let mut t: Table<Variable, String> = Table::new();
    assert_eq!(t.len(), 0);
    assert!(t.get(Variable(1)).is_none());
    t.insert(Variable(1), "a".to_string());
    t.insert(Variable(2), "b".to_string());
    t.insert(Variable(1), "c".to_string());
    assert_eq!(t.len(), 2);
    assert_eq!(t.get(Variable(1)).unwrap(), "c");
    assert_eq!(t.get(Variable(2)).unwrap(), "b");
    let copy = t.clone();
    assert_eq!(copy.get(Variable(1)).unwrap(), "c");
    assert_eq!(copy.entry(1).0, Variable(2));
}
