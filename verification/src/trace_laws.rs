//! What a recording says of its steps, and what the options say.
use vstd::prelude::*;

use crate::options::{dictionary_opts, textbook_opts, RenderOpts};
use crate::shortest::display_text;
use crate::text::{concatenated, nat_text};
use crate::trace::{Phase, Trace, TraceEvent, TraceStep};

verus! {

/// Pivots are the primal and the dual ones, and nothing else is.
pub proof fn law_pivot_events(event: TraceEvent)
    ensures
        match event {
            TraceEvent::Pivot { .. } => event.pivots(),
            TraceEvent::DualPivot { .. } => event.pivots(),
            TraceEvent::SubjectChosen { .. } => !event.pivots(),
            TraceEvent::ArtificialPhaseStart { .. } => !event.pivots(),
            TraceEvent::ArtificialPhaseEnd { .. } => !event.pivots(),
            TraceEvent::Optimal { .. } => !event.pivots(),
            TraceEvent::ValueSuggested { .. } => !event.pivots(),
            TraceEvent::Feasible => !event.pivots(),
            TraceEvent::MarkerRemoved { .. } => !event.pivots(),
        },
{
}

/// An event is described in one line that names its symbols, in the order in
/// which they act, and its phase, its outcome or its value.
pub proof fn law_events_are_described(event: TraceEvent)
    ensures
        ({
            let text = event.description();
            match event {
                TraceEvent::SubjectChosen { subject } => text == "row added, solved for "@
                    + subject@,
                TraceEvent::ArtificialPhaseStart { artificial } => text
                    == "phase I begins: artificial variable "@ + artificial@
                    + " entered the basis"@,
                TraceEvent::ArtificialPhaseEnd { success: true } => text
                    == "phase I ends: artificial objective "@
                    + "reached zero (constraint satisfiable)"@,
                TraceEvent::ArtificialPhaseEnd { success: false } => text
                    == "phase I ends: artificial objective "@
                    + "did not reach zero (constraint unsatisfiable)"@,
                TraceEvent::Pivot { entering, leaving, phase: Phase::One } => text == "phase I"@
                    + " pivot: "@ + entering@ + " enters, "@ + leaving@ + " leaves"@,
                TraceEvent::Pivot { entering, leaving, phase: Phase::Two } => text == "phase II"@
                    + " pivot: "@ + entering@ + " enters, "@ + leaving@ + " leaves"@,
                TraceEvent::Optimal { phase: Phase::One } => text == "phase I"@
                    + " optimal: no non-dummy column has a negative reduced cost"@,
                TraceEvent::Optimal { phase: Phase::Two } => text == "phase II"@
                    + " optimal: no non-dummy column has a negative reduced cost"@,
                TraceEvent::ValueSuggested { variable, value } => text == "suggest_value("@
                    + variable@ + ", "@ + display_text(value) + "): right-hand side shifted"@,
                TraceEvent::DualPivot { entering, leaving } => text == "dual pivot: "@ + leaving@
                    + " leaves (infeasible), "@ + entering@ + " enters"@,
                TraceEvent::Feasible => text == "dual simplex done: no infeasible rows remain"@,
                TraceEvent::MarkerRemoved { marker } => text == "constraint removed: marker "@
                    + marker@ + " pivoted out and its row dropped"@,
            }
        }),
{
}

/// A step reads as the description of its event and, below it, its tableau.
pub proof fn law_steps(step: TraceStep, opts: RenderOpts)
    ensures
        step.text(opts) == step.event.description() + "\n"@ + step.tableau@.text(opts),
{
}

/// A recording shows all its steps in order, each under a header with its
/// number, the number of steps and the description of its event, and followed
/// by an empty line.
pub proof fn law_recordings(trace: Trace, opts: RenderOpts)
    ensures
        trace.text(opts) == concatenated(
            trace.steps@.len(),
            |i: int|
                "--- step "@ + nat_text((i + 1) as nat) + " of "@ + nat_text(trace.steps@.len())
                    + ": "@ + trace.steps@[i].event.description() + " "@ + "--------"@ + "\n"@
                    + trace.steps@[i].tableau@.text(opts) + "\n"@,
        ),
        trace.steps@.len() == 0 ==> trace.text(opts) == Seq::<char>::empty(),
{
    let f = |i: int|
        "--- step "@ + nat_text((i + 1) as nat) + " of "@ + nat_text(trace.steps@.len()) + ": "@
            + trace.steps@[i].event.description() + " "@ + "--------"@ + "\n"@
            + trace.steps@[i].tableau@.text(opts) + "\n"@;
    let g = |i: int| trace.step_text(i, opts);
    lemma_same_texts(trace.steps@.len(), f, g);
}

/// The same texts put together.
proof fn lemma_same_texts(n: nat, f: spec_fn(int) -> Seq<char>, g: spec_fn(int) -> Seq<char>)
    requires
        forall|i: int| 0 <= i < n ==> #[trigger] f(i) == g(i),
    ensures
        concatenated(n, f) == concatenated(n, g),
    decreases n,
{
    if n > 0 {
        lemma_same_texts((n - 1) as nat, f, g);
        assert(f(n - 1) == g(n - 1));
    }
}

/// Texts that are put together stand in their order, each once.
pub proof fn law_concatenated(n: nat, f: spec_fn(int) -> Seq<char>)
    ensures
        n == 0 ==> concatenated(n, f) == Seq::<char>::empty(),
        n > 0 ==> concatenated(n, f) == concatenated((n - 1) as nat, f) + f(n - 1),
{
}

/// The solver's own representation is not negated, shows no totals, shows
/// decimals and the bands of strengths, and leaves zero columns out. A text's
/// presentation is negated, shows totals, fractions and raw strengths, and
/// leaves zero columns out. Both show ratios.
pub proof fn law_presentations()
    ensures
        ({
            let d = dictionary_opts();
            &&& !d.textbook_signs && !d.show_zj && !d.fractions && !d.show_raw_strengths
            &&& d.elide_zero_columns && d.show_ratios
        }),
        ({
            let t = textbook_opts();
            &&& t.textbook_signs && t.show_zj && t.fractions && t.show_raw_strengths
            &&& t.elide_zero_columns && t.show_ratios
        }),
{
}

} // verus!
