//! Sorted texts and sorted symbols.
use vstd::prelude::*;
use vstd::relations::{sorted_by, total_ordering};
use vstd::seq_lib::lemma_sorted_unique;

use crate::symbol::{kind_of, symbol_le, Symbol};
use crate::text::texts;

verus! {

/// The alphabetical order of texts, character by character.
pub open spec fn text_le(a: Seq<char>, b: Seq<char>) -> bool
    decreases a.len(),
{
    ||| a.len() == 0
    ||| b.len() > 0 && (a[0] < b[0] || (a[0] == b[0] && text_le(a.drop_first(), b.drop_first())))
}

/// The alphabetical order as a relation.
pub open spec fn alphabetical() -> spec_fn(Seq<char>, Seq<char>) -> bool {
    |a: Seq<char>, b: Seq<char>| text_le(a, b)
}

/// A text comes before itself.
proof fn lemma_text_reflexive(a: Seq<char>)
    ensures
        text_le(a, a),
    decreases a.len(),
{
    if a.len() > 0 {
        lemma_text_reflexive(a.drop_first());
    }
}

/// Of two different texts only one comes first.
proof fn lemma_text_antisymmetric(a: Seq<char>, b: Seq<char>)
    requires
        text_le(a, b),
        text_le(b, a),
    ensures
        a == b,
    decreases a.len(),
{
    if a.len() > 0 {
        lemma_text_antisymmetric(a.drop_first(), b.drop_first());
        assert(b =~= seq![b[0]] + b.drop_first());
    }
}

/// What comes before an earlier text comes before a later one.
proof fn lemma_text_transitive(a: Seq<char>, b: Seq<char>, c: Seq<char>)
    requires
        text_le(a, b),
        text_le(b, c),
    ensures
        text_le(a, c),
    decreases a.len(),
{
    if a.len() > 0 && a[0] == b[0] && b[0] == c[0] {
        lemma_text_transitive(a.drop_first(), b.drop_first(), c.drop_first());
    }
}

/// One of two texts comes before the other.
proof fn lemma_text_connected(a: Seq<char>, b: Seq<char>)
    ensures
        text_le(a, b) || text_le(b, a),
    decreases a.len(),
{
    if a.len() > 0 && b.len() > 0 && a[0] == b[0] {
        lemma_text_connected(a.drop_first(), b.drop_first());
    }
}

/// The alphabetical order is total, so sorted texts stand in one order only.
pub proof fn law_alphabetical_order_is_total()
    ensures
        total_ordering(alphabetical()),
{
    let le = alphabetical();
    assert forall|a: Seq<char>| #[trigger] le(a, a) by {
        lemma_text_reflexive(a);
    }
    assert forall|a: Seq<char>, b: Seq<char>| #[trigger] le(a, b) && #[trigger] le(b, a) implies a
        == b by {
        lemma_text_antisymmetric(a, b);
    }
    assert forall|a: Seq<char>, b: Seq<char>, c: Seq<char>| #[trigger]
        le(a, b) && #[trigger] le(b, c) implies le(a, c) by {
        lemma_text_transitive(a, b, c);
    }
    assert forall|a: Seq<char>, b: Seq<char>| #[trigger] le(a, b) || #[trigger] le(b, a) by {
        lemma_text_connected(a, b);
    }
}

/// Whether a text comes before another or is the same.
fn is_text_le(a: &str, b: &str) -> (r: bool)
    ensures
        r == text_le(a@, b@),
{
    let n: usize = a.unicode_len();
    let m: usize = b.unicode_len();
    let mut i: usize = 0;
    assert(a@.skip(0) =~= a@);
    assert(b@.skip(0) =~= b@);
    while i < n && i < m
        invariant
            n == a@.len(),
            m == b@.len(),
            i <= n,
            i <= m,
            text_le(a@, b@) == text_le(a@.skip(i as int), b@.skip(i as int)),
        decreases n - i,
    {
        let c: char = a.get_char(i);
        let d: char = b.get_char(i);
        if c != d {
            return c < d;
        }
        assert(a@.skip(i as int).drop_first() =~= a@.skip(i + 1));
        assert(b@.skip(i as int).drop_first() =~= b@.skip(i + 1));
        i = i + 1;
    }
    i == n
}

/// Adds a text to sorted ones.
pub fn insert_text(list: &mut Vec<String>, s: String)
    requires
        sorted_by(texts(old(list)@), alphabetical()),
    ensures
        sorted_by(texts(final(list)@), alphabetical()),
        texts(final(list)@).to_multiset() == texts(old(list)@).to_multiset().insert(s@),
{
    let ghost before = texts(list@);
    let ghost text = s@;
    proof {
        law_alphabetical_order_is_total();
    }
    let mut i: usize = 0;
    while i < list.len() && is_text_le(list[i].as_str(), s.as_str())
        invariant
            i <= list@.len(),
            before == texts(list@),
            text == s@,
            forall|k: int| 0 <= k < i ==> text_le(#[trigger] before[k], text),
        decreases list@.len() - i,
    {
        i = i + 1;
    }
    proof {
        let le = alphabetical();
        assert forall|k: int| i <= k < before.len() implies text_le(text, #[trigger] before[k]) by {
            assert(le(before[i as int], text) || le(text, before[i as int]));
            if k > i {
                assert(le(before[i as int], before[k]));
            }
        }
    }
    list.insert(i, s);
    proof {
        let after = before.insert(i as int, text);
        assert(texts(list@) =~= after);
        vstd::seq_lib::to_multiset_insert(before, i as int, text);
        let le = alphabetical();
        assert forall|a: int, b: int| 0 <= a < b < after.len() implies #[trigger] le(
            after[a],
            after[b],
        ) by {}
    }
}

/// Sorted texts are the sorting of every sequence that holds the same texts.
pub proof fn lemma_sorted_texts(list: Seq<Seq<char>>, source: Seq<Seq<char>>)
    requires
        sorted_by(list, alphabetical()),
        list.to_multiset() == source.to_multiset(),
    ensures
        list == source.sort_by(alphabetical()),
{
    law_alphabetical_order_is_total();
    source.lemma_sort_by_ensures(alphabetical());
    lemma_sorted_unique(list, source.sort_by(alphabetical()), alphabetical());
}

/// `list` holds each of the given symbols once, in display order.
pub open spec fn is_listing(
    list: Seq<Symbol>,
    members: Set<Symbol>,
    artificial: Option<Symbol>,
) -> bool {
    &&& list.no_duplicates()
    &&& sorted_by(list, symbol_le(artificial))
    &&& forall|s: Symbol| #[trigger] list.contains(s) <==> members.contains(s)
}

/// The given symbols in display order.
pub open spec fn listing(members: Set<Symbol>, artificial: Option<Symbol>) -> Seq<Symbol> {
    members.to_sorted_seq(symbol_le(artificial))
}

/// A finite set has as many members as it is listed with.
proof fn lemma_to_seq_len(members: Set<Symbol>)
    requires
        members.finite(),
    ensures
        members.to_seq().len() == members.len(),
    decreases members.len(),
{
    if members.len() > 0 {
        lemma_to_seq_len(members.remove(members.choose()));
    }
}

/// The listing of finitely many symbols holds each of them once, in display
/// order.
pub proof fn law_listing(members: Set<Symbol>, artificial: Option<Symbol>)
    requires
        members.finite(),
    ensures
        is_listing(listing(members, artificial), members, artificial),
{
    broadcast use vstd::multiset::group_multiset_axioms;
    broadcast use vstd::seq_lib::group_to_multiset_ensures;

    let list = members.to_seq();
    let sorted = listing(members, artificial);
    lemma_to_seq_len(members);
    members.lemma_to_seq_to_set_id();
    list.lemma_no_dup_set_cardinality();
    list.lemma_sort_by_ensures(symbol_le(artificial));
    list.lemma_multiset_has_no_duplicates();
    sorted.lemma_multiset_has_no_duplicates_conv();
    assert forall|s: Symbol| #[trigger] sorted.contains(s) <==> members.contains(s) by {
        assert(sorted.contains(s) <==> sorted.to_multiset().count(s) > 0);
    }
}

/// Symbols stand in display order in one way only.
pub proof fn lemma_listing_unique(
    list: Seq<Symbol>,
    members: Set<Symbol>,
    artificial: Option<Symbol>,
)
    requires
        is_listing(list, members, artificial),
    ensures
        members.finite(),
        list == listing(members, artificial),
{
    broadcast use vstd::multiset::group_multiset_axioms;
    broadcast use vstd::seq_lib::group_to_multiset_ensures;

    assert(list.to_set() =~= members);
    law_listing(members, artificial);
    let other = listing(members, artificial);
    list.lemma_multiset_has_no_duplicates();
    other.lemma_multiset_has_no_duplicates();
    assert(list.to_multiset() =~= other.to_multiset());
    lemma_sorted_unique(list, other, symbol_le(artificial));
}

/// Whether a symbol comes before another in display order or is the same.
fn is_symbol_le(a: Symbol, b: Symbol, artificial: Option<Symbol>) -> (r: bool)
    ensures
        r == symbol_le(artificial)(a, b),
{
    let ra: u8 = kind_of(a, artificial).rank();
    let rb: u8 = kind_of(b, artificial).rank();
    ra < rb || (ra == rb && a.0 <= b.0)
}

/// Adds a symbol to those in display order, unless it is among them.
pub fn insert_symbol(list: &mut Vec<Symbol>, s: Symbol, artificial: Option<Symbol>)
    requires
        old(list)@.no_duplicates(),
        sorted_by(old(list)@, symbol_le(artificial)),
    ensures
        final(list)@.no_duplicates(),
        sorted_by(final(list)@, symbol_le(artificial)),
        forall|x: Symbol|
            #[trigger] final(list)@.contains(x) <==> old(list)@.contains(x) || x == s,
{
    let ghost before = list@;
    let ghost le = symbol_le(artificial);
    let mut i: usize = 0;
    while i < list.len() && !is_symbol_le(s, list[i], artificial)
        invariant
            i <= list@.len(),
            before == list@,
            le == symbol_le(artificial),
            forall|k: int| 0 <= k < i ==> !le(s, #[trigger] before[k]),
        decreases list@.len() - i,
    {
        i = i + 1;
    }
    if i < list.len() && list[i] == s {
        return;
    }
    list.insert(i, s);
    proof {
        let after = before.insert(i as int, s);
        assert forall|k: int| i <= k < before.len() implies le(s, #[trigger] before[k]) && s
            != before[k] by {
            if k > i {
                assert(le(before[i as int], before[k]));
            }
        }
        assert forall|a: int, b: int| 0 <= a < b < after.len() implies #[trigger] le(
            after[a],
            after[b],
        ) && after[a] != after[b] by {}
        assert forall|x: Symbol|
            #[trigger] after.contains(x) <==> before.contains(x) || x == s by {
            if before.contains(x) {
                let k = choose|k: int| 0 <= k < before.len() && before[k] == x;
                if k < i {
                    assert(after[k] == x);
                } else {
                    assert(after[k + 1] == x);
                }
            }
            assert(after[i as int] == s);
        }
    }
}

} // verus!
