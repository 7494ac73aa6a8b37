//! Rendering options.
use vstd::prelude::*;

verus! {

/// Rendering options. `RenderOpts::dictionary()` shows the solver's own
/// representation; `RenderOpts::textbook()` converts to the presentation used
/// in most linear-programming texts, for line-by-line comparison.
#[derive(Clone, Debug)]
pub struct RenderOpts {
    /// Negate the body (dictionary coefficients become `a_ij`) and label the
    /// footer `Cj-Zj`. The reduced-cost row is *not* negated.
    pub textbook_signs: bool,
    /// Emit a `Zj` row above the reduced costs. Requires `textbook_signs`.
    pub show_zj: bool,
    /// Print small rationals as fractions (`8/3`) instead of decimals.
    pub fractions: bool,
    /// Drop columns that are zero everywhere.
    pub elide_zero_columns: bool,
    /// Print strengths as raw numbers rather than `REQ` / `S` / `M` / `W`.
    pub show_raw_strengths: bool,
    /// Show the minimum-ratio column, if `compute_ratios` has been called.
    pub show_ratios: bool,
}

/// The options that show the solver's own representation.
pub open spec fn dictionary_opts() -> RenderOpts {
    RenderOpts {
        textbook_signs: false,
        show_zj: false,
        fractions: false,
        elide_zero_columns: true,
        show_raw_strengths: false,
        show_ratios: true,
    }
}

/// The options that show the presentation of a text.
pub open spec fn textbook_opts() -> RenderOpts {
    RenderOpts {
        textbook_signs: true,
        show_zj: true,
        fractions: true,
        elide_zero_columns: true,
        show_raw_strengths: true,
        show_ratios: true,
    }
}

impl RenderOpts {
    /// The solver's own representation.
    pub fn dictionary() -> (r: RenderOpts)
        ensures
            r == dictionary_opts(),
    {
        RenderOpts {
            textbook_signs: false,
            show_zj: false,
            fractions: false,
            elide_zero_columns: true,
            show_raw_strengths: false,
            show_ratios: true,
        }
    }

    /// The presentation of a text.
    pub fn textbook() -> (r: RenderOpts)
        ensures
            r == textbook_opts(),
    {
        RenderOpts {
            textbook_signs: true,
            show_zj: true,
            fractions: true,
            elide_zero_columns: true,
            show_raw_strengths: true,
            show_ratios: true,
        }
    }
}

impl Default for RenderOpts {
    fn default() -> (r: RenderOpts)
        ensures
            r == dictionary_opts(),
    {
        RenderOpts::dictionary()
    }
}

} // verus!
