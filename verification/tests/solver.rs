//! A small incremental simplex solver, and what its tableaux and traces must
//! satisfy.
//!
//! The worked example is
//!   max 7*x1 + 6*x2   s.t.  2*x1 + 4*x2 <= 16,  3*x1 + 2*x2 <= 12,  x >= 0
//!   optimum: x1 = 2, x2 = 3
//!
//! The pivot *sequence* depends on the order in which hash maps are walked, so
//! nothing here asserts a particular sequence.

use std::collections::HashMap;

use tableau::double::Double;
use tableau::options::RenderOpts;
use tableau::snapshot::{build, Row};
use tableau::symbol::{label_symbol, Symbol, SymbolKind, SymbolType, Variable};
use tableau::table::Table;
use tableau::tableau::{EditView, Tableau, TableauRow};
use tableau::trace::{Phase, Trace, TraceEvent, TraceStep};

const REQUIRED: f64 = 1_001_001_000.0;
const STRONG: f64 = 1_000_000.0;
const WEAK: f64 = 1.0;
const M: f64 = 1000.0;

fn d(x: f64) -> Double {
    Double::from_bits(x.to_bits())
}

fn f(x: Double) -> f64 {
    f64::from_bits(x.to_bits())
}

fn close(a: f64, b: f64) -> bool {
    (a - b).abs() < 1e-9
}

fn near_zero(v: f64) -> bool {
    v.abs() < 1e-8
}

// ---------------------------------------------------------------------------
// The solver
// ---------------------------------------------------------------------------

#[derive(Clone, Copy, PartialEq, Debug)]
enum Relation {
    Le,
    Eq,
    Ge,
}

/// `sum(terms) + constant <relation> 0`.
#[derive(Clone, PartialEq, Debug)]
struct Constraint {
    terms: Vec<(f64, Variable)>,
    constant: f64,
    relation: Relation,
    strength: f64,
}

/// `sum(terms) <relation> value`.
fn constraint(terms: &[(f64, Variable)], relation: Relation, value: f64, strength: f64) -> Constraint {
    Constraint { terms: terms.to_vec(), constant: -value, relation, strength }
}

#[derive(Clone, Copy)]
struct Tag {
    marker: Symbol,
    other: Symbol,
}

struct EditInfo {
    tag: Tag,
    strength: f64,
    constant: f64,
}

#[derive(Clone)]
struct Dict {
    cells: HashMap<Symbol, f64>,
    constant: f64,
}

impl Dict {
    fn new(constant: f64) -> Dict {
        Dict { cells: HashMap::new(), constant }
    }

    fn shift(&mut self, v: f64) -> f64 {
        self.constant += v;
        self.constant
    }

    fn insert_symbol(&mut self, s: Symbol, coefficient: f64) {
        let v = self.coefficient_for(s) + coefficient;
        if near_zero(v) {
            self.cells.remove(&s);
        } else {
            self.cells.insert(s, v);
        }
    }

    fn insert_row(&mut self, other: &Dict, coefficient: f64) {
        self.constant += other.constant * coefficient;
        for (s, v) in &other.cells {
            self.insert_symbol(*s, v * coefficient);
        }
    }

    fn reverse_sign(&mut self) {
        self.constant = -self.constant;
        for v in self.cells.values_mut() {
            *v = -*v;
        }
    }

    fn solve_for_symbol(&mut self, s: Symbol) {
        let coeff = -1.0 / self.cells.remove(&s).expect("symbol not in row");
        self.constant *= coeff;
        for v in self.cells.values_mut() {
            *v *= coeff;
        }
    }

    fn solve_for_symbols(&mut self, lhs: Symbol, rhs: Symbol) {
        self.insert_symbol(lhs, -1.0);
        self.solve_for_symbol(rhs);
    }

    fn coefficient_for(&self, s: Symbol) -> f64 {
        self.cells.get(&s).cloned().unwrap_or(0.0)
    }

    fn substitute(&mut self, s: Symbol, row: &Dict) {
        if let Some(coeff) = self.cells.remove(&s) {
            self.insert_row(row, coeff);
        }
    }

    fn to_row(&self) -> Row {
        let mut cells = Table::new();
        for (s, v) in &self.cells {
            cells.insert(*s, d(*v));
        }
        Row { cells, constant: d(self.constant) }
    }
}

fn invalid() -> Symbol {
    Symbol(0, SymbolType::Invalid)
}

fn pivotable(s: Symbol) -> bool {
    s.1 == SymbolType::Slack || s.1 == SymbolType::Error
}

struct Solver {
    cns: Vec<(Constraint, Tag)>,
    vars: HashMap<Variable, Symbol>,
    var_for_symbol: HashMap<Symbol, Variable>,
    rows: HashMap<Symbol, Dict>,
    edits: HashMap<Variable, EditInfo>,
    infeasible: Vec<Symbol>,
    objective: Dict,
    artificial: Option<Dict>,
    artificial_symbol: Option<Symbol>,
    tick: usize,
    trace: Option<Trace>,
}

impl Solver {
    fn new() -> Solver {
        Solver {
            cns: Vec::new(),
            vars: HashMap::new(),
            var_for_symbol: HashMap::new(),
            rows: HashMap::new(),
            edits: HashMap::new(),
            infeasible: Vec::new(),
            objective: Dict::new(0.0),
            artificial: None,
            artificial_symbol: None,
            tick: 1,
            trace: None,
        }
    }

    fn fresh(&mut self, t: SymbolType) -> Symbol {
        let s = Symbol(self.tick, t);
        self.tick += 1;
        s
    }

    fn add_constraints(&mut self, list: &[Constraint]) {
        for c in list {
            self.add_constraint(c.clone());
        }
    }

    fn add_constraint(&mut self, c: Constraint) {
        let (mut row, tag) = self.create_row(&c);
        let mut subject = Solver::choose_subject(&row, tag);
        if subject == invalid() && row.cells.keys().all(|s| s.1 == SymbolType::Dummy) {
            assert!(near_zero(row.constant), "unsatisfiable constraint");
            subject = tag.marker;
        }
        if subject == invalid() {
            assert!(self.add_with_artificial_variable(row), "unsatisfiable constraint");
        } else {
            row.solve_for_symbol(subject);
            self.substitute(subject, &row);
            self.rows.insert(subject, row);
            let subject = self.label(subject);
            self.record(TraceEvent::SubjectChosen { subject });
        }
        self.cns.push((c, tag));
        self.optimise(Phase::Two);
    }

    fn remove_constraint(&mut self, c: &Constraint) {
        let i = self.cns.iter().position(|(x, _)| x == c).expect("unknown constraint");
        let (_, tag) = self.cns.remove(i);
        if tag.marker.1 == SymbolType::Error {
            self.remove_marker_effects(tag.marker, c.strength);
        } else if tag.other.1 == SymbolType::Error {
            self.remove_marker_effects(tag.other, c.strength);
        }
        let marker = self.label(tag.marker);
        if self.rows.remove(&tag.marker).is_none() {
            let leaving = self.marker_leaving_row(tag.marker).expect("no leaving row");
            let mut row = self.rows.remove(&leaving).unwrap();
            row.solve_for_symbols(leaving, tag.marker);
            self.substitute(tag.marker, &row);
        }
        self.record(TraceEvent::MarkerRemoved { marker });
        self.optimise(Phase::Two);
    }

    fn add_edit_variable(&mut self, v: Variable, strength: f64) {
        let c = constraint(&[(1.0, v)], Relation::Eq, 0.0, strength);
        self.add_constraint(c);
        let tag = self.cns.last().unwrap().1;
        self.edits.insert(v, EditInfo { tag, strength, constant: 0.0 });
    }

    fn suggest_value(&mut self, v: Variable, value: f64) {
        let (tag, delta) = {
            let info = self.edits.get_mut(&v).expect("unknown edit variable");
            let delta = value - info.constant;
            info.constant = value;
            (info.tag, delta)
        };
        if let Some(row) = self.rows.get_mut(&tag.marker) {
            if row.shift(-delta) < 0.0 {
                self.infeasible.push(tag.marker);
            }
        } else if let Some(row) = self.rows.get_mut(&tag.other) {
            if row.shift(delta) < 0.0 {
                self.infeasible.push(tag.other);
            }
        } else {
            for (s, row) in &mut self.rows {
                let coeff = row.coefficient_for(tag.marker);
                if coeff != 0.0 && row.shift(delta * coeff) < 0.0 && s.1 != SymbolType::External {
                    self.infeasible.push(*s);
                }
            }
        }
        let s = self.vars[&v];
        let variable = self.label(s);
        self.record(TraceEvent::ValueSuggested { variable, value: d(value) });
        self.dual_optimise();
    }

    fn get_value(&self, v: Variable) -> f64 {
        match self.vars.get(&v).and_then(|s| self.rows.get(s)) {
            Some(row) => row.constant,
            None => 0.0,
        }
    }

    fn create_row(&mut self, c: &Constraint) -> (Dict, Tag) {
        let mut row = Dict::new(c.constant);
        for &(coeff, v) in &c.terms {
            if near_zero(coeff) {
                continue;
            }
            let s = match self.vars.get(&v) {
                Some(s) => *s,
                None => {
                    let s = self.fresh(SymbolType::External);
                    self.vars.insert(v, s);
                    self.var_for_symbol.insert(s, v);
                    s
                }
            };
            match self.rows.get(&s) {
                Some(other) => row.insert_row(other, coeff),
                None => row.insert_symbol(s, coeff),
            }
        }
        let tag = if c.relation == Relation::Eq {
            if c.strength < REQUIRED {
                let plus = self.fresh(SymbolType::Error);
                let minus = self.fresh(SymbolType::Error);
                row.insert_symbol(plus, -1.0);
                row.insert_symbol(minus, 1.0);
                self.objective.insert_symbol(plus, c.strength);
                self.objective.insert_symbol(minus, c.strength);
                Tag { marker: plus, other: minus }
            } else {
                let dummy = self.fresh(SymbolType::Dummy);
                row.insert_symbol(dummy, 1.0);
                Tag { marker: dummy, other: invalid() }
            }
        } else {
            let coeff = if c.relation == Relation::Le { 1.0 } else { -1.0 };
            let slack = self.fresh(SymbolType::Slack);
            row.insert_symbol(slack, coeff);
            if c.strength < REQUIRED {
                let error = self.fresh(SymbolType::Error);
                row.insert_symbol(error, -coeff);
                self.objective.insert_symbol(error, c.strength);
                Tag { marker: slack, other: error }
            } else {
                Tag { marker: slack, other: invalid() }
            }
        };
        if row.constant < 0.0 {
            row.reverse_sign();
        }
        (row, tag)
    }

    fn choose_subject(row: &Dict, tag: Tag) -> Symbol {
        for s in row.cells.keys() {
            if s.1 == SymbolType::External {
                return *s;
            }
        }
        for &s in &[tag.marker, tag.other] {
            if pivotable(s) && row.coefficient_for(s) < 0.0 {
                return s;
            }
        }
        invalid()
    }

    fn add_with_artificial_variable(&mut self, row: Dict) -> bool {
        let art = self.fresh(SymbolType::Slack);
        self.artificial_symbol = Some(art);
        self.rows.insert(art, row.clone());
        self.artificial = Some(row);
        let artificial = self.label(art);
        self.record(TraceEvent::ArtificialPhaseStart { artificial });
        self.optimise(Phase::One);
        let success = near_zero(self.artificial.as_ref().unwrap().constant);
        self.artificial = None;
        let mut feasible = success;
        if let Some(mut row) = self.rows.remove(&art) {
            if !row.cells.is_empty() {
                match row.cells.keys().find(|s| pivotable(**s)).cloned() {
                    Some(entering) => {
                        row.solve_for_symbols(art, entering);
                        self.substitute(entering, &row);
                        self.rows.insert(entering, row);
                    }
                    None => feasible = false,
                }
            }
        }
        for row in self.rows.values_mut() {
            row.cells.remove(&art);
        }
        self.objective.cells.remove(&art);
        self.artificial_symbol = None;
        self.record(TraceEvent::ArtificialPhaseEnd { success });
        feasible
    }

    fn substitute(&mut self, s: Symbol, row: &Dict) {
        for (other, r) in &mut self.rows {
            r.substitute(s, row);
            if other.1 != SymbolType::External && r.constant < 0.0 {
                self.infeasible.push(*other);
            }
        }
        self.objective.substitute(s, row);
        if let Some(ref mut a) = self.artificial {
            a.substitute(s, row);
        }
    }

    fn entering(&self, phase: Phase) -> Option<Symbol> {
        let objective = match phase {
            Phase::One => self.artificial.as_ref().unwrap(),
            Phase::Two => &self.objective,
        };
        objective
            .cells
            .iter()
            .find(|(s, v)| s.1 != SymbolType::Dummy && **v < 0.0)
            .map(|(s, _)| *s)
    }

    fn leaving(&self, entering: Symbol) -> Option<Symbol> {
        let mut best = f64::INFINITY;
        let mut found = None;
        for (s, row) in &self.rows {
            let coeff = row.coefficient_for(entering);
            if s.1 != SymbolType::External && coeff < 0.0 {
                let ratio = -row.constant / coeff;
                if ratio < best {
                    best = ratio;
                    found = Some(*s);
                }
            }
        }
        found
    }

    fn marker_leaving_row(&self, marker: Symbol) -> Option<Symbol> {
        let (mut r1, mut r2) = (f64::INFINITY, f64::INFINITY);
        let (mut first, mut second, mut third) = (None, None, None);
        for (s, row) in &self.rows {
            let c = row.coefficient_for(marker);
            if c == 0.0 {
                continue;
            }
            if s.1 == SymbolType::External {
                third = Some(*s);
            } else if c < 0.0 {
                let r = -row.constant / c;
                if r < r1 {
                    r1 = r;
                    first = Some(*s);
                }
            } else {
                let r = row.constant / c;
                if r < r2 {
                    r2 = r;
                    second = Some(*s);
                }
            }
        }
        first.or(second).or(third)
    }

    fn remove_marker_effects(&mut self, marker: Symbol, strength: f64) {
        match self.rows.get(&marker) {
            Some(row) => self.objective.insert_row(row, -strength),
            None => self.objective.insert_symbol(marker, -strength),
        }
    }

    fn optimise(&mut self, phase: Phase) {
        while let Some(entering) = self.entering(phase) {
            let leaving = self.leaving(entering).expect("objective is unbounded");
            if self.is_tracing() {
                let mut tableau = self.snapshot();
                tableau.mark_pivot(entering.0, leaving.0);
                let event = TraceEvent::Pivot {
                    entering: self.label(entering),
                    leaving: self.label(leaving),
                    phase,
                };
                self.push(event, tableau);
            }
            self.pivot(entering, leaving);
        }
        self.record(TraceEvent::Optimal { phase });
    }

    fn dual_optimise(&mut self) {
        while let Some(leaving) = self.infeasible.pop() {
            let entering = match self.rows.get(&leaving) {
                Some(row) if row.constant < 0.0 => {
                    let mut best = f64::INFINITY;
                    let mut found = None;
                    for (s, v) in &row.cells {
                        if *v > 0.0 && s.1 != SymbolType::Dummy {
                            let ratio = self.objective.coefficient_for(*s) / v;
                            if ratio < best {
                                best = ratio;
                                found = Some(*s);
                            }
                        }
                    }
                    found.expect("dual optimise failed")
                }
                _ => continue,
            };
            if self.is_tracing() {
                self.infeasible.push(leaving);
                let mut tableau = self.snapshot();
                self.infeasible.pop();
                tableau.mark_dual_pivot(entering.0, leaving.0);
                let event = TraceEvent::DualPivot {
                    entering: self.label(entering),
                    leaving: self.label(leaving),
                };
                self.push(event, tableau);
            }
            self.pivot(entering, leaving);
        }
        self.record(TraceEvent::Feasible);
    }

    fn pivot(&mut self, entering: Symbol, leaving: Symbol) {
        let mut row = self.rows.remove(&leaving).unwrap();
        row.solve_for_symbols(leaving, entering);
        self.substitute(entering, &row);
        self.rows.insert(entering, row);
    }

    // -- inspection --

    fn tables(&self) -> (Table<Symbol, Variable>, Table<Symbol, Row>, Table<Symbol, Double>) {
        let mut vars = Table::new();
        for (s, v) in &self.var_for_symbol {
            vars.insert(*s, *v);
        }
        let mut rows = Table::new();
        for (s, r) in &self.rows {
            rows.insert(*s, r.to_row());
        }
        let mut costs = Table::new();
        for (c, tag) in &self.cns {
            for &s in &[tag.marker, tag.other] {
                if s.1 == SymbolType::Error {
                    costs.insert(s, d(c.strength));
                }
            }
        }
        (vars, rows, costs)
    }

    fn tableau_with(&self, names: &Table<Variable, String>) -> Tableau {
        let (vars, rows, costs) = self.tables();
        let artificial = self.artificial.as_ref().map(|a| a.to_row());
        let mut edits: Vec<(Variable, EditView)> = self
            .edits
            .iter()
            .map(|(v, info)| {
                let s = self.vars[v];
                let view = EditView {
                    name: label_symbol(s, self.artificial_symbol, &vars, names),
                    value: d(info.constant),
                    strength: d(info.strength),
                };
                (*v, view)
            })
            .collect();
        edits.sort_by_key(|(v, _)| v.0);
        build(
            &rows,
            &self.objective.to_row(),
            artificial.as_ref(),
            &costs,
            self.artificial_symbol,
            &vars,
            names,
            &self.infeasible,
            edits.into_iter().map(|(_, e)| e).collect(),
        )
    }

    fn tableau(&self, names: &HashMap<Variable, String>) -> Tableau {
        self.tableau_with(&name_table(names))
    }

    fn snapshot(&self) -> Tableau {
        self.tableau_with(&self.trace.as_ref().unwrap().names)
    }

    fn label(&self, s: Symbol) -> String {
        let (vars, _, _) = self.tables();
        match self.trace {
            Some(ref t) => label_symbol(s, self.artificial_symbol, &vars, &t.names),
            None => String::new(),
        }
    }

    fn record(&mut self, event: TraceEvent) {
        if self.is_tracing() {
            let tableau = self.snapshot();
            self.push(event, tableau);
        }
    }

    fn push(&mut self, event: TraceEvent, tableau: Tableau) {
        self.trace.as_mut().unwrap().steps.push(TraceStep { event, tableau });
    }

    fn start_trace(&mut self, names: HashMap<Variable, String>) {
        self.trace = Some(Trace::new(name_table(&names)));
    }

    fn is_tracing(&self) -> bool {
        self.trace.is_some()
    }

    fn stop_trace(&mut self) -> Option<Trace> {
        self.trace.take()
    }

    fn take_trace(&mut self) -> Trace {
        match self.trace {
            Some(ref mut t) => {
                let fresh = Trace::new(t.names.clone());
                std::mem::replace(t, fresh)
            }
            None => Trace::new(Table::new()),
        }
    }
}

fn name_table(names: &HashMap<Variable, String>) -> Table<Variable, String> {
    let mut out = Table::new();
    for (v, n) in names {
        out.insert(*v, n.clone());
    }
    out
}

fn named(list: &[(Variable, &str)]) -> HashMap<Variable, String> {
    list.iter().map(|&(v, n)| (v, n.to_string())).collect()
}

fn ge(v: Variable, value: f64, strength: f64) -> Constraint {
    constraint(&[(1.0, v)], Relation::Ge, value, strength)
}

// ---------------------------------------------------------------------------
// The worked example
// ---------------------------------------------------------------------------

/// The constraints of the worked example, without its objective.
fn textbook() -> (Solver, Variable, Variable, HashMap<Variable, String>) {
    let x1 = Variable(1);
    let x2 = Variable(2);
    let names = named(&[(x1, "x1"), (x2, "x2")]);
    let mut solver = Solver::new();
    // Constraint order fixes symbol ids, so s5 is the slack of `2x1+4x2<=16`
    // and s6 that of `3x1+2x2<=12`.
    solver.add_constraints(&[
        ge(x1, 0.0, REQUIRED),
        ge(x2, 0.0, REQUIRED),
        constraint(&[(2.0, x1), (4.0, x2)], Relation::Le, 16.0, REQUIRED),
        constraint(&[(3.0, x1), (2.0, x2)], Relation::Le, 12.0, REQUIRED),
    ]);
    (solver, x1, x2, names)
}

/// The worked example. The objective is encoded as costed error variables:
/// minimising `7*(M - x1)` maximises `7*x1`.
fn setup() -> (Solver, Variable, Variable, HashMap<Variable, String>) {
    let (mut solver, x1, x2, names) = textbook();
    solver.add_constraint(ge(x1, M, 7.0));
    solver.add_constraint(ge(x2, M, 6.0));
    (solver, x1, x2, names)
}

fn col(t: &Tableau, name: &str) -> usize {
    t.columns.iter().position(|c| c.name == name).unwrap_or_else(|| panic!("no column {}", name))
}

fn row<'a>(t: &'a Tableau, name: &str) -> &'a TableauRow {
    t.rows.iter().find(|r| r.basis == name).unwrap_or_else(|| panic!("{} is not basic", name))
}

#[test]
fn solution_matches_text() {
    let (solver, x1, x2, _) = setup();
    assert!(close(solver.get_value(x1), 2.0), "x1 = {}", solver.get_value(x1));
    assert!(close(solver.get_value(x2), 3.0), "x2 = {}", solver.get_value(x2));
}

/// For every column, `c_j - Z_j` computed from `c_B` and the sign-converted
/// body equals the reduced cost that the solver maintains.
#[test]
fn reduced_costs_agree_with_basis() {
    let (solver, _, _, names) = setup();
    let t = solver.tableau(&names);
    let zj = t.zj();
    for (j, c) in t.columns.iter().enumerate() {
        let from_basis = f(c.cost) - f(zj[j]);
        assert!(
            close(from_basis, f(t.objective.reduced[j])),
            "column {}: c_j - Z_j = {} but reduced cost = {}",
            c.name,
            from_basis,
            f(t.objective.reduced[j])
        );
    }
}

/// At a vertex every nonbasic variable is zero, so the objective value is
/// exactly `sum(c_B(i) * rhs_i)`.
#[test]
fn objective_value_matches_basis() {
    let (solver, _, _, names) = setup();
    let t = solver.tableau(&names);
    assert!(
        close(f(t.objective.carried_constant), f(t.objective_value())),
        "carried constant = {} but sum(c_B * rhs) = {}",
        f(t.objective.carried_constant),
        f(t.objective_value())
    );
    // 7*(1000-2) + 6*(1000-3)
    assert!(close(f(t.objective_value()), 12968.0), "z = {}", f(t.objective_value()));
    assert_eq!(t.objective_from_basis().to_bits(), t.objective_value().to_bits());
}

/// Restricted to the `{s1, s2}` columns, the final rows of x1 and x2 are those
/// of the text, after the sign conversion.
#[test]
fn sub_tableau_matches_iteration_3() {
    let (solver, _, _, names) = setup();
    let t = solver.tableau(&names);
    let (s1, s2) = (col(&t, "s5"), col(&t, "s6"));

    // text: | x1 | 7 | 1 | 0 | -1/4 | 1/2 | 2 |
    let r = row(&t, "x1");
    assert!(close(f(r.rhs), 2.0), "x1 rhs = {}", f(r.rhs));
    assert!(close(-f(r.coeffs[s1]), -0.25), "x1/s1 a_ij = {}", -f(r.coeffs[s1]));
    assert!(close(-f(r.coeffs[s2]), 0.5), "x1/s2 a_ij = {}", -f(r.coeffs[s2]));

    // text: | x2 | 6 | 0 | 1 |  3/8 | -1/4 | 3 |
    let r = row(&t, "x2");
    assert!(close(f(r.rhs), 3.0), "x2 rhs = {}", f(r.rhs));
    assert!(close(-f(r.coeffs[s1]), 0.375), "x2/s1 a_ij = {}", -f(r.coeffs[s1]));
    assert!(close(-f(r.coeffs[s2]), -0.25), "x2/s2 a_ij = {}", -f(r.coeffs[s2]));
}

/// `c_B` comes from the costs, not from the objective row (where basic symbols
/// have been substituted out).
#[test]
fn c_b_is_reconstructed_not_zero() {
    let (solver, _, _, names) = setup();
    let t = solver.tableau(&names);
    let mut costed: Vec<f64> = t.rows.iter().map(|r| f(r.c_b)).filter(|c| *c != 0.0).collect();
    costed.sort_by(|a, b| a.partial_cmp(b).unwrap());
    assert_eq!(
        costed,
        vec![6.0, 7.0],
        "expected the two error variables to carry costs 6 and 7"
    );
}

/// Column and row ordering must defeat the order of hash maps.
#[test]
fn rendering_is_deterministic() {
    let (a, _, _, na) = setup();
    let (b, _, _, nb) = setup();
    let ra = a.tableau(&na).render(&RenderOpts::textbook());
    let rb = b.tableau(&nb).render(&RenderOpts::textbook());
    assert_eq!(ra, rb);
    // And stable across repeated renders of one snapshot.
    let t = a.tableau(&na);
    assert_eq!(t.render(&RenderOpts::dictionary()), t.render(&RenderOpts::dictionary()));
}

/// With nonbasic values at zero, `rhs` is the value of the basic symbol.
#[test]
fn basic_values_match_get_value() {
    let (solver, x1, x2, names) = setup();
    let t = solver.tableau(&names);
    for (v, n) in [(x1, "x1"), (x2, "x2")].iter() {
        let r = row(&t, n);
        assert!(
            close(f(r.rhs), solver.get_value(*v)),
            "{}: tableau rhs = {} but get_value = {}",
            n,
            f(r.rhs),
            solver.get_value(*v)
        );
    }
}

/// The carried objective constant is not the objective value once an edit
/// variable has been suggested.
#[test]
fn carried_constant_drifts_across_suggest_value() {
    let w = Variable(1);
    let l = Variable(2);
    let r = Variable(3);
    let names = named(&[(w, "w"), (l, "l"), (r, "r")]);

    let mut solver = Solver::new();
    solver.add_constraints(&[
        ge(w, 0.0, REQUIRED),
        constraint(&[(1.0, l)], Relation::Eq, 0.0, REQUIRED),
        constraint(&[(1.0, r), (-1.0, w)], Relation::Le, 0.0, REQUIRED),
        constraint(&[(1.0, r), (-1.0, l)], Relation::Eq, 50.0, 1.0),
    ]);
    solver.add_edit_variable(w, 1_000_000.0);

    // Before any edit, the two agree.
    let t = solver.tableau(&names);
    assert!(close(f(t.carried_constant_drift()), 0.0));

    solver.suggest_value(w, 300.0);
    let t = solver.tableau(&names);
    assert!(
        !close(f(t.carried_constant_drift()), 0.0),
        "expected the carried constant to drift, got {}",
        f(t.carried_constant_drift())
    );
    // At width 300 the preferred width of 50 is satisfiable, so z is 0.
    assert!(close(f(t.objective_value()), 0.0), "z = {}", f(t.objective_value()));

    // Squeeze below the preferred width: the WEAK error absorbs the shortfall.
    solver.suggest_value(w, 20.0);
    let t = solver.tableau(&names);
    assert!(close(f(t.objective_value()), 30.0), "z = {}", f(t.objective_value()));
    assert!(t.render(&RenderOpts::dictionary()).contains("carried objective constant reads"));

    // The per-column identity survives all of it.
    let zj = t.zj();
    for (j, c) in t.columns.iter().enumerate() {
        assert!(
            close(f(c.cost) - f(zj[j]), f(t.objective.reduced[j])),
            "column {}: c_j - Z_j = {} but reduced = {}",
            c.name,
            f(c.cost) - f(zj[j]),
            f(t.objective.reduced[j])
        );
    }
}

/// A dummy column may carry a negative reduced cost in an optimal tableau.
#[test]
fn dummy_columns_are_exempt_from_optimality() {
    let (solver, _, _, names) = setup();
    let t = solver.tableau(&names);
    assert!(t.is_optimal(), "the solver has returned, so it is optimal");
    if let Some(j) = t.entering_candidate() {
        panic!("entering candidate {} should not exist", t.columns[j].name);
    }
}

// ---------------------------------------------------------------------------
// Tracing must not change the algorithm
// ---------------------------------------------------------------------------

/// A two-box layout with an edit variable, the shape a UI toolkit resizes.
fn layout() -> (Solver, Vec<Variable>, HashMap<Variable, String>) {
    let win = Variable(1);
    let left = Variable(2);
    let right = Variable(3);
    let mid = Variable(4);
    let names = named(&[(win, "win"), (left, "left"), (right, "right"), (mid, "mid")]);
    let mut solver = Solver::new();
    solver.add_constraints(&[
        ge(win, 0.0, REQUIRED),
        constraint(&[(1.0, left)], Relation::Eq, 0.0, REQUIRED),
        constraint(&[(1.0, right), (-1.0, win)], Relation::Eq, 0.0, REQUIRED),
        constraint(&[(1.0, mid), (-1.0, left)], Relation::Ge, 0.0, REQUIRED),
        constraint(&[(1.0, right), (-1.0, mid)], Relation::Ge, 0.0, REQUIRED),
        constraint(
            &[(1.0, mid), (-1.0, left), (-1.0, right), (1.0, mid)],
            Relation::Eq,
            0.0,
            WEAK,
        ),
    ]);
    solver.add_edit_variable(win, STRONG);
    (solver, vec![win, left, right, mid], names)
}

#[test]
fn tracing_does_not_change_the_solution() {
    let (mut a, x1a, x2a, _) = textbook();
    a.add_constraint(ge(x1a, M, 7.0));
    a.add_constraint(ge(x2a, M, 6.0));

    let (mut b, x1b, x2b, names) = textbook();
    b.start_trace(names);
    b.add_constraint(ge(x1b, M, 7.0));
    b.add_constraint(ge(x2b, M, 6.0));

    assert!(close(a.get_value(x1a), b.get_value(x1b)));
    assert!(close(a.get_value(x2a), b.get_value(x2b)));
    assert!(close(b.get_value(x1b), 2.0));
    assert!(close(b.get_value(x2b), 3.0));
}

#[test]
fn tracing_does_not_change_a_resize() {
    let (mut a, va, _) = layout();
    a.suggest_value(va[0], 300.0);

    let (mut b, vb, names) = layout();
    b.start_trace(names);
    b.suggest_value(vb[0], 300.0);

    for i in 0..va.len() {
        assert!(
            close(a.get_value(va[i]), b.get_value(vb[i])),
            "variable {} diverged: {} vs {}",
            i,
            a.get_value(va[i]),
            b.get_value(vb[i])
        );
    }
    assert!(close(b.get_value(vb[0]), 300.0));
    assert!(close(b.get_value(vb[3]), 150.0));
}

#[test]
fn not_tracing_by_default() {
    let (mut solver, x1, x2, _) = textbook();
    assert!(!solver.is_tracing());
    solver.add_constraint(ge(x1, M, 7.0));
    solver.add_constraint(ge(x2, M, 6.0));
    assert!(!solver.is_tracing());
    assert!(solver.stop_trace().is_none());
    assert!(solver.take_trace().is_empty());
}

// ---------------------------------------------------------------------------
// Recording lifecycle
// ---------------------------------------------------------------------------

/// The trace of adding the objective of the worked example.
fn traced() -> Trace {
    let (mut solver, x1, x2, names) = textbook();
    solver.start_trace(names);
    solver.add_constraint(ge(x1, M, 7.0));
    solver.add_constraint(ge(x2, M, 6.0));
    solver.stop_trace().unwrap()
}

fn subjects(trace: &Trace) -> usize {
    trace.steps.iter().filter(|s| matches!(s.event, TraceEvent::SubjectChosen { .. })).count()
}

#[test]
fn trace_records_the_pivots_add_constraint_runs_internally() {
    let (mut solver, x1, x2, names) = textbook();
    solver.start_trace(names);
    assert!(solver.is_tracing());
    solver.add_constraint(ge(x1, M, 7.0));
    solver.add_constraint(ge(x2, M, 6.0));
    let trace = solver.stop_trace().unwrap();

    assert!(!solver.is_tracing());
    // Two constraints, each recording a `SubjectChosen` and an `Optimal`, plus
    // at least one pivot in between.
    assert!(trace.len() >= 5, "only {} steps", trace.len());
    assert!(!trace.pivots().is_empty(), "no pivots recorded");
    assert_eq!(subjects(&trace), 2, "one SubjectChosen per add_constraint");
    match trace.steps.last().unwrap().event {
        TraceEvent::Optimal { .. } => {}
        ref e => panic!("trace ends on {:?}, not Optimal", e),
    }
}

#[test]
fn take_trace_drains_and_keeps_recording() {
    let (mut solver, x1, x2, names) = textbook();
    solver.start_trace(names);

    solver.add_constraint(ge(x1, M, 7.0));
    let first = solver.take_trace();
    assert!(!first.is_empty());
    assert!(solver.is_tracing(), "take_trace must not stop recording");

    solver.add_constraint(ge(x2, M, 6.0));
    let second = solver.take_trace();
    assert!(!second.is_empty());
    assert_eq!(solver.take_trace().len(), 0, "second drain should be empty");
}

#[test]
fn start_trace_discards_earlier_steps() {
    let (mut solver, x1, x2, names) = textbook();
    solver.start_trace(names.clone());
    solver.add_constraint(ge(x1, M, 7.0));
    solver.start_trace(names);
    solver.add_constraint(ge(x2, M, 6.0));
    let trace = solver.stop_trace().unwrap();
    assert_eq!(subjects(&trace), 1, "steps from before the restart survived");
}

// ---------------------------------------------------------------------------
// Primal pivot invariants
// ---------------------------------------------------------------------------

/// Every primal pivot must satisfy the rules that it is chosen by: the entering
/// column has a negative reduced cost and is not a dummy; the leaving row is
/// restricted (non-External) with a negative coefficient in that column; and it
/// attains the minimum ratio.
#[test]
fn primal_pivots_obey_the_entering_and_ratio_rules() {
    let trace = traced();
    let mut checked = 0;
    for step in &trace.steps {
        if let TraceEvent::Pivot { .. } = step.event {
            let t: &Tableau = &step.tableau;
            let c = t.pivot_col.expect("pivot step without a marked column");
            let r = t.pivot_row.expect("pivot step without a marked row");

            assert!(
                f(t.objective.reduced[c]) < 0.0,
                "entering column {} has reduced cost {}, not negative",
                t.columns[c].name,
                f(t.objective.reduced[c])
            );
            assert!(t.columns[c].kind != SymbolKind::Dummy, "a dummy column entered the basis");
            assert!(t.rows[r].kind != SymbolKind::External, "an external row left the basis");

            let pivot = f(t.rows[r].coeffs[c]);
            assert!(pivot < 0.0, "pivot element {} is not negative", pivot);
            assert_eq!(Some(pivot), t.pivot_element().map(f));

            let best = -f(t.rows[r].rhs) / pivot;
            assert_eq!(t.rows[r].ratio.map(f), Some(best));
            for other in &t.rows {
                if other.kind == SymbolKind::External {
                    assert!(other.ratio.is_none());
                    continue;
                }
                let coeff = f(other.coeffs[c]);
                if coeff < 0.0 {
                    let ratio = -f(other.rhs) / coeff;
                    assert_eq!(other.ratio.map(f), Some(ratio));
                    assert!(
                        ratio >= best - 1e-9,
                        "{} has ratio {} beating the chosen {}",
                        other.basis,
                        ratio,
                        best
                    );
                } else {
                    assert!(other.ratio.is_none());
                }
            }
            checked += 1;
        }
    }
    assert!(checked > 0, "no primal pivots to check");
}

/// A pivot step is the state *before* the pivot, so the entering symbol must
/// still be a column and the leaving symbol still be in the basis.
#[test]
fn pivot_snapshots_are_pre_pivot() {
    let trace = traced();
    let mut checked = 0;
    for step in &trace.steps {
        if let TraceEvent::Pivot { ref entering, ref leaving, .. } = step.event {
            let t = &step.tableau;
            let c = t.pivot_col.unwrap();
            let r = t.pivot_row.unwrap();
            assert_eq!(&t.columns[c].name, entering);
            assert_eq!(&t.rows[r].basis, leaving);
            // Neither has swapped yet.
            assert!(t.rows.iter().all(|row| &row.basis != entering));
            assert!(t.columns.iter().all(|col| &col.name != leaving));
            checked += 1;
        }
    }
    assert!(checked > 0);
}

/// Consecutive snapshots must be linked by the pivot the earlier one marks:
/// after it, the entering symbol is basic and the leaving symbol is not.
#[test]
fn successive_steps_apply_the_marked_pivot() {
    let trace = traced();
    let mut checked = 0;
    for i in 0..trace.steps.len() - 1 {
        let (entering, leaving) = match trace.steps[i].event {
            TraceEvent::Pivot { ref entering, ref leaving, .. }
            | TraceEvent::DualPivot { ref entering, ref leaving } => {
                (entering.clone(), leaving.clone())
            }
            _ => continue,
        };
        let next = &trace.steps[i + 1].tableau;
        assert!(
            next.rows.iter().any(|r| r.basis == entering),
            "{} did not enter the basis by the next step",
            entering
        );
        assert!(
            next.rows.iter().all(|r| r.basis != leaving),
            "{} is still basic after the pivot that removed it",
            leaving
        );
        checked += 1;
    }
    assert!(checked > 0);
}

// ---------------------------------------------------------------------------
// Dual pivot invariants
// ---------------------------------------------------------------------------

/// The leaving row is the infeasible one (negative rhs), and the entering
/// column minimises `reduced_cost / coefficient` over columns with a *positive*
/// coefficient in that row.
#[test]
fn dual_pivots_obey_the_leaving_and_dual_ratio_rules() {
    let (mut solver, vars, names) = layout();
    solver.start_trace(names);
    solver.suggest_value(vars[0], 300.0);
    let trace = solver.stop_trace().unwrap();

    let mut checked = 0;
    for step in &trace.steps {
        if let TraceEvent::DualPivot { .. } = step.event {
            let t: &Tableau = &step.tableau;
            let c = t.pivot_col.expect("dual pivot without a marked column");
            let r = t.pivot_row.expect("dual pivot without a marked row");

            assert!(
                f(t.rows[r].rhs) < 0.0,
                "leaving row {} has rhs {}, which is not infeasible",
                t.rows[r].basis,
                f(t.rows[r].rhs)
            );
            assert!(
                f(t.rows[r].coeffs[c]) > 0.0,
                "entering coefficient {} is not positive",
                f(t.rows[r].coeffs[c])
            );
            assert!(t.columns[c].kind != SymbolKind::Dummy);

            let ratios = t.dual_ratios.as_ref().expect("dual ratios not computed");
            let best = f(ratios[c].expect("entering column has no dual ratio"));
            for j in 0..t.columns.len() {
                if let Some(other) = ratios[j] {
                    assert!(
                        f(other) >= best - 1e-9,
                        "column {} has dual ratio {} beating the chosen {}",
                        t.columns[j].name,
                        f(other),
                        best
                    );
                }
            }
            checked += 1;
        }
    }
    assert!(checked > 0, "no dual pivots recorded");
}

#[test]
fn suggest_value_records_the_shift_then_dual_pivots_then_feasible() {
    let (mut solver, vars, names) = layout();
    solver.start_trace(names);
    solver.suggest_value(vars[0], 300.0);
    let trace = solver.stop_trace().unwrap();

    match trace.steps.first().unwrap().event {
        TraceEvent::ValueSuggested { ref variable, value } => {
            assert_eq!(variable, "win");
            assert!(close(f(value), 300.0));
        }
        ref e => panic!("trace starts on {:?}, not ValueSuggested", e),
    }
    match trace.steps.last().unwrap().event {
        TraceEvent::Feasible => {}
        ref e => panic!("trace ends on {:?}, not Feasible", e),
    }
    // The shift left at least one row infeasible - that is what the dual
    // pivots then repair - and none remain by the end.
    assert!(trace.steps[0].tableau.rows.iter().any(|r| r.infeasible));
    assert!(trace.steps.last().unwrap().tableau.rows.iter().all(|r| !r.infeasible));
}

// ---------------------------------------------------------------------------
// Rendering
// ---------------------------------------------------------------------------

#[test]
fn pivot_marks_appear_in_the_rendering() {
    let trace = traced();
    let step = trace.pivots().into_iter().next().expect("no pivot to render");
    let out = step.render(&RenderOpts::textbook());
    let t = &step.tableau;

    assert!(
        out.contains(&format!("{}*", t.columns[t.pivot_col.unwrap()].name)),
        "entering column not marked:\n{}",
        out
    );
    assert!(
        out.contains(&format!("{} <", t.rows[t.pivot_row.unwrap()].basis)),
        "leaving row not marked:\n{}",
        out
    );
    assert!(out.contains("pivot element"), "no pivot legend:\n{}", out);
    assert!(out.contains("state *before* that pivot"));
}

#[test]
fn trace_rendering_is_deterministic_and_numbers_every_step() {
    let trace = traced();
    let a = trace.render(&RenderOpts::textbook());
    let b = trace.render(&RenderOpts::textbook());
    assert_eq!(a, b, "rendering leaked the order of a hash map");

    for i in 1..=trace.len() {
        assert!(
            a.contains(&format!("--- step {} of {}:", i, trace.len())),
            "step {} missing from the rendering",
            i
        );
    }
}

/// A snapshot with no pending pivot must not print pivot marks.
#[test]
fn non_pivot_steps_carry_no_pivot_marks() {
    let trace = traced();
    for step in &trace.steps {
        if !step.event.is_pivot() {
            assert!(step.tableau.pivot_col.is_none());
            assert!(step.tableau.pivot_row.is_none());
            assert!(step.tableau.pivot_element().is_none());
            assert!(!step.render(&RenderOpts::dictionary()).contains("pivot element"));
        }
    }
}

// ---------------------------------------------------------------------------
// Artificial variables
// ---------------------------------------------------------------------------

/// Two lower bounds on the same variable force phase I: after `a >= 10` is
/// basic, the row for `a >= 20` reduces to slacks only, with the marker
/// positive - no subject.
fn stacked_bounds() -> (Solver, Variable, Variable, HashMap<Variable, String>) {
    let a = Variable(1);
    let b = Variable(2);
    let names = named(&[(a, "a"), (b, "b")]);
    let mut solver = Solver::new();
    solver.add_constraint(ge(a, 10.0, REQUIRED));
    (solver, a, b, names)
}

/// An artificial variable has the type of a slack, so it can only be
/// identified by the symbol that the solver records while phase I runs.
#[test]
fn artificial_phase_is_labelled_and_bounded() {
    let (mut solver, a, b, names) = stacked_bounds();
    solver.start_trace(names);
    solver.add_constraint(ge(a, 20.0, REQUIRED));
    solver.add_constraint(constraint(&[(1.0, b), (-1.0, a)], Relation::Ge, 0.0, REQUIRED));
    let trace = solver.stop_trace().unwrap();

    let starts: Vec<&str> = trace
        .steps
        .iter()
        .filter_map(|s| match s.event {
            TraceEvent::ArtificialPhaseStart { ref artificial } => Some(artificial.as_str()),
            _ => None,
        })
        .collect();
    assert_eq!(starts.len(), 1, "expected exactly one phase I, got {:?}", starts);

    let start = trace
        .steps
        .iter()
        .find(|s| matches!(s.event, TraceEvent::ArtificialPhaseStart { .. }))
        .unwrap();
    assert!(
        start
            .tableau
            .rows
            .iter()
            .any(|r| r.kind == SymbolKind::Artificial && r.basis == starts[0]),
        "artificial {} is not a basis row labelled Artificial; basis is {:?}",
        starts[0],
        start.tableau.rows.iter().map(|r| (&r.basis, r.kind)).collect::<Vec<_>>()
    );
    assert!(start.render(&RenderOpts::dictionary()).contains("phase-I objective: w="));

    // At least one pivot must have happened inside phase I.
    assert!(
        trace.steps.iter().any(|s| match s.event {
            TraceEvent::Pivot { phase, .. } => phase == Phase::One,
            _ => false,
        }),
        "no phase I pivot recorded"
    );

    // Every start is matched by an end, and no snapshot outside a phase-I
    // window carries an Artificial symbol.
    let mut depth = 0i32;
    for step in &trace.steps {
        match step.event {
            TraceEvent::ArtificialPhaseStart { .. } => depth += 1,
            TraceEvent::ArtificialPhaseEnd { success } => {
                assert!(success, "phase I failed on a satisfiable system");
                depth -= 1;
                assert!(depth >= 0, "unmatched ArtificialPhaseEnd");
                continue;
            }
            _ => {}
        }
        if depth == 0 {
            let t = &step.tableau;
            assert!(
                t.columns.iter().all(|c| c.kind != SymbolKind::Artificial)
                    && t.rows.iter().all(|r| r.kind != SymbolKind::Artificial),
                "an artificial symbol survived outside phase I, at {:?}",
                step.event
            );
        }
    }
    assert_eq!(depth, 0, "phase I never closed");

    // The tighter bound wins, and b is pushed up to meet a.
    assert!(close(solver.get_value(a), 20.0), "a = {}", solver.get_value(a));
    assert!(close(solver.get_value(b), 20.0), "b = {}", solver.get_value(b));
}

// ---------------------------------------------------------------------------
// Constraint removal
// ---------------------------------------------------------------------------

#[test]
fn remove_constraint_records_its_marker_and_reoptimises() {
    let (mut solver, x1, x2, names) = textbook();
    let objective = ge(x1, M, 7.0);
    solver.add_constraint(objective.clone());
    solver.add_constraint(ge(x2, M, 6.0));

    solver.start_trace(names);
    solver.remove_constraint(&objective);
    let trace = solver.stop_trace().unwrap();

    let markers =
        trace.steps.iter().filter(|s| matches!(s.event, TraceEvent::MarkerRemoved { .. })).count();
    assert_eq!(markers, 1, "expected exactly one MarkerRemoved");
    match trace.steps.last().unwrap().event {
        TraceEvent::Optimal { .. } => {}
        ref e => panic!("removal did not end on Optimal, but {:?}", e),
    }
    // With the pull on x1 gone, only x2 is still pushed toward M.
    assert!(close(solver.get_value(x2), 4.0), "x2 = {}", solver.get_value(x2));
}
