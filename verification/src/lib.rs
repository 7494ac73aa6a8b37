//! Inspection of a simplex solver's tableau.
//!
//! This renders a solver's internal state as a simplex tableau: basis symbols
//! on the left, `c_B` beside them, the coefficient body in the centre, and the
//! basic feasible solution on the right.
//!
//! # What is and is not faithful to a textbook tableau
//!
//! * A solver stores its tableau in **dictionary (solved) form**: each row is
//!   `basic = constant + sum(cells[j] * nonbasic_j)`. A textbook row is
//!   `basic + sum(a_ij * nonbasic_j) = b_i`. So `cells[j] == -a_ij` and
//!   `constant == b_i`. `RenderOpts::textbook_signs` applies that negation.
//! * Only `Error` symbols carry cost, equal to the strength of the constraint
//!   that created them. Basic symbols are substituted out of the objective, so
//!   the costs come with the system rather than from its objective row.
//! * The coefficients of the objective row are already `c_j - z_j`, with no sign
//!   flip. What differs from a text is the optimality *direction*: the solver
//!   minimises, so it is optimal when every reduced cost is non-negative, and
//!   enters on a negative one.
//! * `Dummy` columns are exempt from the optimality test. A dummy marks a
//!   REQUIRED equality and must stay nonbasic at zero.
//! * Artificial variables have the type of a slack, so the type alone cannot
//!   distinguish one. The system says which symbol is artificial, so the label
//!   is exact.
//! * The objective constant that a solver carries drifts when an edit variable
//!   is given a value, since that shifts row constants without correcting the
//!   objective row. `z` is computed as `sum(c_B * rhs)` instead.
//!
//! # Numbers
//!
//! Coefficients are binary64 numbers, held as their bit patterns
//! (`double::Double`). Their arithmetic rounds to nearest, ties to even, and is
//! specified over the integers.
pub mod scale;
pub mod rounding;
pub mod double;
pub mod arith;
pub mod integral;
pub mod exact;
pub mod text;
pub mod digits;
pub mod decimal;
pub mod shortest;
pub mod table;
pub mod symbol;
pub mod order;
pub mod options;
pub mod format;
pub mod shown;
pub mod rational;
pub mod number_laws;
pub mod display_laws;
pub mod tableau;
pub mod snapshot;
pub mod grid;
pub mod render;
pub mod trace;
pub mod laws;
pub mod snapshot_laws;
pub mod pivot_laws;
pub mod text_laws;
pub mod trace_laws;
pub mod line_laws;
pub mod grid_laws;
pub mod words;
pub mod sum_laws;
pub mod arith_laws;
