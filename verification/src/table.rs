//! Finite maps.
use vstd::prelude::*;

verus! {

/// What the entries of a `Table` are found by.
pub trait Key: Copy {
    /// Whether two keys are the same.
    fn same(self, other: Self) -> (r: bool)
        ensures
            r == (self == other),
    ;
}

/// A finite map from keys to values. No key occurs twice.
///
/// Nothing that is computed from a table depends on the order in which its
/// entries were put in.
#[derive(Debug)]
pub struct Table<K, V> {
    entries: Vec<(K, V)>,
}

impl<K, V> View for Table<K, V> {
    type V = Map<K, V>;

    /// The map that the entries make up.
    closed spec fn view(&self) -> Map<K, V> {
        entry_map(self.entries@)
    }
}

/// The map that a sequence of entries makes up.
spec fn entry_map<K, V>(entries: Seq<(K, V)>) -> Map<K, V> {
    Map::new(
        |k: K| exists|i: int| 0 <= i < entries.len() && (#[trigger] entries[i]).0 == k,
        |k: K| entries[position(entries, k)].1,
    )
}

/// Where the entry of a key stands.
spec fn position<K, V>(entries: Seq<(K, V)>, k: K) -> int {
    choose|i: int| 0 <= i < entries.len() && (#[trigger] entries[i]).0 == k
}

impl<K, V> Table<K, V> {
    /// No two entries have the same key.
    #[verifier::type_invariant]
    spec fn distinct(self) -> bool {
        forall|i: int, j: int|
            0 <= i < j < self.entries@.len() ==> (#[trigger] self.entries@[i]).0 != (
            #[trigger] self.entries@[j]).0
    }

    /// The keys, in the order in which the entries stand.
    pub closed spec fn keys(&self) -> Seq<K> {
        self.entries@.map_values(|e: (K, V)| e.0)
    }
}

impl<K: Key, V> Table<K, V> {
    /// The empty table.
    pub fn new() -> (r: Table<K, V>)
        ensures
            r@ == Map::<K, V>::empty(),
    {
        Table { entries: Vec::new() }
    }

    /// The number of entries.
    pub fn len(&self) -> (r: usize)
        ensures
            r == self.keys().len(),
            self.keys().no_duplicates(),
            forall|k: K| #[trigger] self@.contains_key(k) <==> self.keys().contains(k),
    {
        proof {
            use_type_invariant(self);
            let keys = self.keys();
            assert forall|k: K| #[trigger] self@.contains_key(k) implies keys.contains(k) by {
                let i = position(self.entries@, k);
                assert(keys[i] == k);
            }
        }
        self.entries.len()
    }

    /// The key and the value of an entry.
    pub fn entry(&self, i: usize) -> (r: (K, &V))
        requires
            i < self.keys().len(),
        ensures
            r.0 == self.keys()[i as int],
            self@.contains_key(r.0),
            *r.1 == self@[r.0],
    {
        proof {
            use_type_invariant(self);
        }
        (self.entries[i].0, &self.entries[i].1)
    }

    /// The value of a key.
    pub fn get(&self, key: K) -> (r: Option<&V>)
        ensures
            match r {
                Some(v) => self@.contains_key(key) && *v == self@[key],
                None => !self@.contains_key(key),
            },
    {
        proof {
            use_type_invariant(self);
        }
        let mut i: usize = 0;
        while i < self.entries.len()
            invariant
                i <= self.entries@.len(),
                self.distinct(),
                forall|j: int| 0 <= j < i ==> (#[trigger] self.entries@[j]).0 != key,
            decreases self.entries@.len() - i,
        {
            if self.entries[i].0.same(key) {
                return Some(&self.entries[i].1);
            }
            i = i + 1;
        }
        None
    }

    /// Sets the value of a key.
    pub fn insert(&mut self, key: K, value: V)
        ensures
            final(self)@ == old(self)@.insert(key, value),
    {
        proof {
            use_type_invariant(&*self);
        }
        let ghost before = self.entries@;
        let mut entries: Vec<(K, V)> = Vec::new();
        std::mem::swap(&mut entries, &mut self.entries);
        let mut i: usize = 0;
        while i < entries.len() && !entries[i].0.same(key)
            invariant
                entries@ == before,
                i <= before.len(),
                forall|j: int| 0 <= j < i ==> (#[trigger] before[j]).0 != key,
            decreases before.len() - i,
        {
            i = i + 1;
        }
        if i < entries.len() {
            entries.set(i, (key, value));
        } else {
            entries.push((key, value));
        }
        proof {
            lemma_entry_set(before, entries@, i as int, key, value);
        }
        self.entries = entries;
    }
}

impl<K: Key, V: Clone> Clone for Table<K, V> {
    fn clone(&self) -> (r: Self)
        ensures
            r@.dom() == self@.dom(),
            forall|k: K| #[trigger] self@.contains_key(k) ==> cloned(self@[k], r@[k]),
    {
        proof {
            use_type_invariant(self);
        }
        let mut entries: Vec<(K, V)> = Vec::new();
        let mut i: usize = 0;
        while i < self.entries.len()
            invariant
                i <= self.entries@.len(),
                entries@.len() == i,
                forall|j: int|
                    0 <= j < i ==> (#[trigger] entries@[j]).0 == self.entries@[j].0 && cloned(
                        self.entries@[j].1,
                        entries@[j].1,
                    ),
            decreases self.entries@.len() - i,
        {
            entries.push((self.entries[i].0, self.entries[i].1.clone()));
            i = i + 1;
        }
        let ghost made = entries@;
        proof {
            assert forall|k: K| #[trigger] entry_map(made).contains_key(k) == self@.contains_key(
                k,
            ) by {
                if self@.contains_key(k) {
                    assert(made[position(self.entries@, k)].0 == k);
                }
            }
            assert forall|k: K| #[trigger] self@.contains_key(k) implies cloned(
                self@[k],
                entry_map(made)[k],
            ) by {
                let a = position(self.entries@, k);
                assert(made[a].0 == k);
            }
        }
        Table { entries }
    }
}

/// Replacing or adding one entry.
proof fn lemma_entry_set<K, V>(
    before: Seq<(K, V)>,
    after: Seq<(K, V)>,
    i: int,
    key: K,
    value: V,
)
    requires
        0 <= i <= before.len(),
        forall|a: int, b: int|
            0 <= a < b < before.len() ==> (#[trigger] before[a]).0 != (#[trigger] before[b]).0,
        forall|j: int| 0 <= j < i ==> (#[trigger] before[j]).0 != key,
        i < before.len() ==> before[i].0 == key && after == before.update(i, (key, value)),
        i == before.len() ==> after == before.push((key, value)),
    ensures
        forall|a: int, b: int|
            0 <= a < b < after.len() ==> (#[trigger] after[a]).0 != (#[trigger] after[b]).0,
        entry_map(after) == entry_map(before).insert(key, value),
{
    let m = entry_map(after);
    let n = entry_map(before).insert(key, value);
    assert(after[i] == (key, value));
    assert forall|k: K| m.contains_key(k) == n.contains_key(k) by {
        if n.contains_key(k) && k != key {
            let j = position(before, k);
            assert(after[j].0 == k);
        }
    }
}

} // verus!
