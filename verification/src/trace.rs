//! Recordings of a solver's pivots.
use vstd::prelude::*;

use crate::double::Double;
use crate::options::RenderOpts;
use crate::shortest::{display_text, push_display};
use crate::symbol::Variable;
use crate::table::Table;
use crate::tableau::Tableau;
use crate::text::{concatenated, nat_text, push_nat};

verus! {

/// Which simplex phase a pivot belongs to.
#[derive(Copy, Clone, PartialEq, Eq, Debug, Structural)]
pub enum Phase {
    /// Driving an artificial variable out of the basis. The objective being
    /// minimised is the artificial row, not the real one.
    One,
    /// Minimising the real objective.
    Two,
}

/// The label of a phase.
pub open spec fn phase_label(phase: Phase) -> Seq<char> {
    match phase {
        Phase::One => "phase I"@,
        Phase::Two => "phase II"@,
    }
}

impl Phase {
    /// The label of the phase.
    pub fn label(&self) -> (r: &'static str)
        ensures
            r@ == phase_label(*self),
    {
        match *self {
            Phase::One => "phase I",
            Phase::Two => "phase II",
        }
    }
}

/// What the solver was doing when a `TraceStep` was captured.
///
/// Symbols are carried as display names. Names match the ones in the
/// accompanying `Tableau`.
#[derive(Clone, Debug)]
pub enum TraceEvent {
    /// Adding a constraint created a row and solved it for `subject`, which is
    /// now basic. Captured before the optimisation that follows.
    SubjectChosen { subject: String },
    /// No subject could be chosen, so `artificial` was put into the basis and
    /// phase I started.
    ArtificialPhaseStart { artificial: String },
    /// Phase I finished. `success` is whether the artificial objective reached
    /// zero, i.e. whether the constraint was satisfiable.
    ArtificialPhaseEnd { success: bool },
    /// A primal pivot. The snapshot is *pre-pivot*.
    Pivot { entering: String, leaving: String, phase: Phase },
    /// No column with a negative reduced cost was found.
    Optimal { phase: Phase },
    /// Suggesting a value shifted the right-hand side. Rows driven negative
    /// are marked infeasible and the dual pivots below follow.
    ValueSuggested { variable: String, value: Double },
    /// A dual pivot. The snapshot is *pre-pivot*.
    DualPivot { entering: String, leaving: String },
    /// The queue of infeasible rows is empty.
    Feasible,
    /// Removing a constraint pivoted a marker out of the basis and dropped its
    /// row. Captured before the re-optimisation that follows.
    MarkerRemoved { marker: String },
}

impl TraceEvent {
    /// The description of the event.
    pub open spec fn description(self) -> Seq<char> {
        match self {
            TraceEvent::SubjectChosen { subject } => "row added, solved for "@ + subject@,
            TraceEvent::ArtificialPhaseStart { artificial } => {
                "phase I begins: artificial variable "@ + artificial@ + " entered the basis"@
            },
            TraceEvent::ArtificialPhaseEnd { success } => {
                "phase I ends: artificial objective "@ + if success {
                    "reached zero (constraint satisfiable)"@
                } else {
                    "did not reach zero (constraint unsatisfiable)"@
                }
            },
            TraceEvent::Pivot { entering, leaving, phase } => {
                phase_label(phase) + " pivot: "@ + entering@ + " enters, "@ + leaving@
                    + " leaves"@
            },
            TraceEvent::Optimal { phase } => {
                phase_label(phase)
                    + " optimal: no non-dummy column has a negative reduced cost"@
            },
            TraceEvent::ValueSuggested { variable, value } => {
                "suggest_value("@ + variable@ + ", "@ + display_text(value)
                    + "): right-hand side shifted"@
            },
            TraceEvent::DualPivot { entering, leaving } => {
                "dual pivot: "@ + leaving@ + " leaves (infeasible), "@ + entering@ + " enters"@
            },
            TraceEvent::Feasible => "dual simplex done: no infeasible rows remain"@,
            TraceEvent::MarkerRemoved { marker } => {
                "constraint removed: marker "@ + marker@ + " pivoted out and its row dropped"@
            },
        }
    }

    /// The event is a pivot, primal or dual.
    pub open spec fn pivots(self) -> bool {
        self is Pivot || self is DualPivot
    }

    /// A one-line description, used as the step header when rendering.
    pub fn describe(&self) -> (r: String)
        ensures
            r@ == self.description(),
    {
        let mut out: String = String::new();
        match self {
            TraceEvent::SubjectChosen { subject } => {
                out.append("row added, solved for ");
                out.append(subject.as_str());
            },
            TraceEvent::ArtificialPhaseStart { artificial } => {
                out.append("phase I begins: artificial variable ");
                out.append(artificial.as_str());
                out.append(" entered the basis");
            },
            TraceEvent::ArtificialPhaseEnd { success } => {
                out.append("phase I ends: artificial objective ");
                if *success {
                    out.append("reached zero (constraint satisfiable)");
                } else {
                    out.append("did not reach zero (constraint unsatisfiable)");
                }
            },
            TraceEvent::Pivot { entering, leaving, phase } => {
                out.append(phase.label());
                out.append(" pivot: ");
                out.append(entering.as_str());
                out.append(" enters, ");
                out.append(leaving.as_str());
                out.append(" leaves");
            },
            TraceEvent::Optimal { phase } => {
                out.append(phase.label());
                out.append(" optimal: no non-dummy column has a negative reduced cost");
            },
            TraceEvent::ValueSuggested { variable, value } => {
                out.append("suggest_value(");
                out.append(variable.as_str());
                out.append(", ");
                push_display(&mut out, *value);
                out.append("): right-hand side shifted");
            },
            TraceEvent::DualPivot { entering, leaving } => {
                out.append("dual pivot: ");
                out.append(leaving.as_str());
                out.append(" leaves (infeasible), ");
                out.append(entering.as_str());
                out.append(" enters");
            },
            TraceEvent::Feasible => {
                out.append("dual simplex done: no infeasible rows remain");
            },
            TraceEvent::MarkerRemoved { marker } => {
                out.append("constraint removed: marker ");
                out.append(marker.as_str());
                out.append(" pivoted out and its row dropped");
            },
        }
        out
    }

    /// Whether this event is a pivot, primal or dual.
    pub fn is_pivot(&self) -> (r: bool)
        ensures
            r == self.pivots(),
    {
        match self {
            TraceEvent::Pivot { .. } => true,
            TraceEvent::DualPivot { .. } => true,
            _ => false,
        }
    }
}

/// One recorded moment: what happened, and the tableau at that moment.
#[derive(Clone, Debug)]
pub struct TraceStep {
    pub event: TraceEvent,
    /// The tableau when the event was captured.
    ///
    /// For `Pivot` and `DualPivot` this is the tableau **before** the pivot is
    /// applied, with `Tableau::pivot_col` and `pivot_row` marking the chosen
    /// element and the relevant ratio test filled in. So a pivot step reads as
    /// "here is the tableau, and here is the pivot about to happen"; the result
    /// of that pivot is the tableau of the next step. Every other event
    /// captures the state at the moment it is named.
    pub tableau: Tableau,
}

impl TraceStep {
    /// The step as text.
    pub open spec fn text(self, opts: RenderOpts) -> Seq<char> {
        self.event.description() + "\n"@ + self.tableau@.text(opts)
    }

    /// The description of the step and its tableau.
    pub fn render(&self, opts: &RenderOpts) -> (r: String)
        requires
            self.tableau@.wf(),
        ensures
            r@ == self.text(*opts),
    {
        let mut out: String = self.event.describe();
        out.append("\n");
        out.append(self.tableau.render(opts).as_str());
        out
    }
}

/// A recording of a solver's pivots.
///
/// **The pivot sequence is not reproducible across processes** where a solver
/// takes its entering symbol out of a hash table, so two runs of the same
/// program can reach the same optimum by different routes. Within one process
/// a trace is exact.
#[derive(Clone, Debug)]
pub struct Trace {
    pub steps: Vec<TraceStep>,
    /// The names that variables are shown by.
    pub names: Table<Variable, String>,
}

impl Trace {
    /// Every recorded tableau fits together.
    pub open spec fn wf(self) -> bool {
        forall|i: int| 0 <= i < self.steps@.len() ==> (#[trigger] self.steps@[i]).tableau@.wf()
    }

    /// Step `i` as text, under its number.
    pub open spec fn step_text(self, i: int, opts: RenderOpts) -> Seq<char> {
        "--- step "@ + nat_text((i + 1) as nat) + " of "@ + nat_text(self.steps@.len()) + ": "@
            + self.steps@[i].event.description() + " "@ + "--------"@ + "\n"@
            + self.steps@[i].tableau@.text(opts) + "\n"@
    }

    /// The recording as text.
    pub open spec fn text(self, opts: RenderOpts) -> Seq<char> {
        concatenated(self.steps@.len(), |i: int| self.step_text(i, opts))
    }

    /// A recording without any steps.
    pub fn new(names: Table<Variable, String>) -> (r: Trace)
        ensures
            r.steps@ == Seq::<TraceStep>::empty(),
            r.names == names,
            r.wf(),
    {
        Trace { steps: Vec::new(), names }
    }

    /// The number of steps.
    pub fn len(&self) -> (r: usize)
        ensures
            r == self.steps@.len(),
    {
        self.steps.len()
    }

    /// Whether there are no steps.
    pub fn is_empty(&self) -> (r: bool)
        ensures
            r == (self.steps@.len() == 0),
    {
        self.steps.len() == 0
    }

    /// Just the pivot steps, primal and dual.
    pub fn pivots(&self) -> (r: Vec<&TraceStep>)
        ensures
            r@.map_values(|s: &TraceStep| *s) == self.steps@.filter(
                |s: TraceStep| s.event.pivots(),
            ),
    {
        let ghost all = self.steps@;
        let ghost p = |s: TraceStep| s.event.pivots();
        let ghost g = |s: &TraceStep| *s;
        let mut out: Vec<&TraceStep> = Vec::new();
        let mut i: usize = 0;
        proof {
            reveal(Seq::filter);
        }
        while i < self.steps.len()
            invariant
                i <= self.steps@.len(),
                all == self.steps@,
                p == (|s: TraceStep| s.event.pivots()),
                g == (|s: &TraceStep| *s),
                out@.map_values(g) == all.take(i as int).filter(p),
            decreases self.steps@.len() - i,
        {
            proof {
                reveal(Seq::filter);
                assert(all.take(i + 1).drop_last() =~= all.take(i as int));
            }
            if self.steps[i].event.is_pivot() {
                out.push(&self.steps[i]);
            }
            i = i + 1;
        }
        assert(all.take(i as int) =~= all);
        out
    }

    /// One step, under its number.
    fn show_step(&self, i: usize, opts: &RenderOpts) -> (r: String)
        requires
            self.wf(),
            i < self.steps@.len(),
        ensures
            r@ == self.step_text(i as int, *opts),
    {
        let n: usize = self.steps.len();
        let mut out: String = String::from_str("--- step ");
        push_nat(&mut out, (i + 1) as u64);
        out.append(" of ");
        push_nat(&mut out, n as u64);
        out.append(": ");
        out.append(self.steps[i].event.describe().as_str());
        out.append(" ");
        out.append("--------");
        out.append("\n");
        out.append(self.steps[i].tableau.render(opts).as_str());
        out.append("\n");
        out
    }

    /// Renders every step in order, numbered.
    pub fn render(&self, opts: &RenderOpts) -> (r: String)
        requires
            self.wf(),
        ensures
            r@ == self.text(*opts),
    {
        let ghost f = |i: int| self.step_text(i, *opts);
        let n: usize = self.steps.len();
        let mut out: String = String::new();
        let mut i: usize = 0;
        while i < n
            invariant
                i <= n,
                n == self.steps@.len(),
                self.wf(),
                f == (|i: int| self.step_text(i, *opts)),
                out@ == concatenated(i as nat, f),
            decreases n - i,
        {
            let step: String = self.show_step(i, opts);
            out.append(step.as_str());
            i = i + 1;
        }
        out
    }
}

} // verus!
