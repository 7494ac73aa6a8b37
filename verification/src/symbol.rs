//! Solver symbols, and how they are named and ordered for display.
use vstd::prelude::*;

use crate::table::{Key, Table};
use crate::text::{nat_text, push_nat};

verus! {

/// The types of symbols that a solver works with.
#[derive(Copy, Clone, PartialEq, Eq, Hash, Debug, Structural)]
pub enum SymbolType {
    Invalid,
    External,
    Slack,
    Error,
    Dummy,
}

/// A solver symbol: its id and its type.
#[derive(Copy, Clone, PartialEq, Eq, Hash, Debug, Structural)]
pub struct Symbol(pub usize, pub SymbolType);

/// A variable of the solver's user.
#[derive(Copy, Clone, PartialEq, Eq, Hash, Debug, Structural)]
pub struct Variable(pub usize);

/// The kinds of symbols that a tableau shows: the types, and an `Artificial`
/// kind that the types do not distinguish (artificials are typed `Slack`).
#[derive(Copy, Clone, PartialEq, Eq, PartialOrd, Ord, Hash, Debug, Structural)]
pub enum SymbolKind {
    External,
    Slack,
    Error,
    Dummy,
    Artificial,
    Invalid,
}

impl Symbol {
    /// The type of the symbol.
    pub fn type_(&self) -> (r: SymbolType)
        ensures
            r == self.1,
    {
        self.1
    }
}

impl Key for Symbol {
    fn same(self, other: Self) -> (r: bool) {
        self == other
    }
}

impl Key for Variable {
    fn same(self, other: Self) -> (r: bool) {
        self == other
    }
}

/// The kind that shows a type.
pub open spec fn kind_of_type(t: SymbolType) -> SymbolKind {
    match t {
        SymbolType::External => SymbolKind::External,
        SymbolType::Slack => SymbolKind::Slack,
        SymbolType::Error => SymbolKind::Error,
        SymbolType::Dummy => SymbolKind::Dummy,
        SymbolType::Invalid => SymbolKind::Invalid,
    }
}

/// The kind of a symbol, where `artificial` is the artificial variable that is
/// currently in the basis, if any.
pub open spec fn symbol_kind(s: Symbol, artificial: Option<Symbol>) -> SymbolKind {
    if artificial == Some(s) {
        SymbolKind::Artificial
    } else {
        kind_of_type(s.1)
    }
}

/// The place of a kind in the display order.
pub open spec fn kind_rank(kind: SymbolKind) -> u8 {
    match kind {
        SymbolKind::External => 0,
        SymbolKind::Slack => 1,
        SymbolKind::Error => 2,
        SymbolKind::Dummy => 3,
        SymbolKind::Artificial => 4,
        SymbolKind::Invalid => 5,
    }
}

/// The letter that a kind is shown by.
pub open spec fn kind_prefix(kind: SymbolKind) -> Seq<char> {
    match kind {
        SymbolKind::External => "x"@,
        SymbolKind::Slack => "s"@,
        SymbolKind::Error => "e"@,
        SymbolKind::Dummy => "d"@,
        SymbolKind::Artificial => "a"@,
        SymbolKind::Invalid => "?"@,
    }
}

impl SymbolKind {
    /// The kind that shows a type.
    pub fn from_type(t: SymbolType) -> (r: SymbolKind)
        ensures
            r == kind_of_type(t),
    {
        match t {
            SymbolType::External => SymbolKind::External,
            SymbolType::Slack => SymbolKind::Slack,
            SymbolType::Error => SymbolKind::Error,
            SymbolType::Dummy => SymbolKind::Dummy,
            SymbolType::Invalid => SymbolKind::Invalid,
        }
    }

    /// Sort rank, so that columns and rows are grouped External, Slack, Error,
    /// Dummy, Artificial.
    pub fn rank(&self) -> (r: u8)
        ensures
            r == kind_rank(*self),
    {
        match *self {
            SymbolKind::External => 0,
            SymbolKind::Slack => 1,
            SymbolKind::Error => 2,
            SymbolKind::Dummy => 3,
            SymbolKind::Artificial => 4,
            SymbolKind::Invalid => 5,
        }
    }

    /// The letter that begins the names of symbols of this kind.
    pub fn prefix(&self) -> (r: &'static str)
        ensures
            r@ == kind_prefix(*self),
    {
        match *self {
            SymbolKind::External => "x",
            SymbolKind::Slack => "s",
            SymbolKind::Error => "e",
            SymbolKind::Dummy => "d",
            SymbolKind::Artificial => "a",
            SymbolKind::Invalid => "?",
        }
    }
}

/// The texts of the names that variables have.
pub open spec fn name_texts(names: Map<Variable, String>) -> Map<Variable, Seq<char>> {
    names.map_values(|s: String| s@)
}

/// The display name of a symbol: that of its variable where an external
/// symbol has a named one, else the letter of its kind and its id. An invalid
/// symbol is `?` alone.
pub open spec fn symbol_text(
    s: Symbol,
    kind: SymbolKind,
    var_for_symbol: Map<Symbol, Variable>,
    names: Map<Variable, Seq<char>>,
) -> Seq<char> {
    if kind == SymbolKind::External && var_for_symbol.contains_key(s) && names.contains_key(
        var_for_symbol[s],
    ) {
        names[var_for_symbol[s]]
    } else if kind == SymbolKind::Invalid {
        kind_prefix(kind)
    } else {
        kind_prefix(kind) + nat_text(s.0 as nat)
    }
}

/// The display name of a symbol of a given kind.
pub fn symbol_name(
    s: Symbol,
    kind: SymbolKind,
    var_for_symbol: &Table<Symbol, Variable>,
    names: &Table<Variable, String>,
) -> (r: String)
    ensures
        r@ == symbol_text(s, kind, var_for_symbol@, name_texts(names@)),
{
    if kind == SymbolKind::External {
        if let Some(v) = var_for_symbol.get(s) {
            if let Some(n) = names.get(*v) {
                return n.clone();
            }
        }
    }
    let mut out: String = String::from_str(kind.prefix());
    if kind != SymbolKind::Invalid {
        push_nat(&mut out, s.0 as u64);
    }
    out
}

/// The kind of a symbol. The type alone cannot tell an artificial variable
/// from a slack; `artificial` can.
pub fn kind_of(s: Symbol, artificial: Option<Symbol>) -> (r: SymbolKind)
    ensures
        r == symbol_kind(s, artificial),
{
    if let Some(a) = artificial {
        if a == s {
            return SymbolKind::Artificial;
        }
    }
    SymbolKind::from_type(s.type_())
}

/// The display name of a symbol, as a snapshot shows it.
pub fn label_symbol(
    s: Symbol,
    artificial: Option<Symbol>,
    var_for_symbol: &Table<Symbol, Variable>,
    names: &Table<Variable, String>,
) -> (r: String)
    ensures
        r@ == symbol_text(s, symbol_kind(s, artificial), var_for_symbol@, name_texts(names@)),
{
    symbol_name(s, kind_of(s, artificial), var_for_symbol, names)
}

/// The display order: by kind, and by id within a kind.
pub open spec fn symbol_le(artificial: Option<Symbol>) -> spec_fn(Symbol, Symbol) -> bool {
    |a: Symbol, b: Symbol|
        {
            let ra = kind_rank(symbol_kind(a, artificial));
            let rb = kind_rank(symbol_kind(b, artificial));
            ra < rb || (ra == rb && a.0 <= b.0)
        }
}

/// The display order is total: no two symbols share a place in it, so sorted
/// symbols stand in one order only.
pub proof fn law_display_order_is_total(artificial: Option<Symbol>)
    ensures
        vstd::relations::total_ordering(symbol_le(artificial)),
        forall|a: Symbol, b: Symbol|
            kind_rank(symbol_kind(a, artificial)) == kind_rank(symbol_kind(b, artificial)) && a.0
                == b.0 ==> a == b,
{
}

} // verus!
