//! A table from actor identifiers to values, kept in identifier order.
//!
//! The model of a table is a sequence of `(identifier, value)` entries whose
//! identifiers strictly increase in the order of [`key_lt`]. Such a sequence
//! holds each identifier at most once, so it is a finite map; and walking it
//! visits the identifiers in ascending order, as an ordered map does.

use vstd::prelude::*;
use crate::keys::{key_lt, lemma_key_order, compare_keys, KeyOrder};

verus! {

/// The entries of a table: identifier and value.
pub type Entries<W> = Seq<(Seq<char>, W)>;

/// The identifiers strictly increase.
pub open spec fn entries_sorted<W>(t: Entries<W>) -> bool {
    forall|i: int, j: int| 0 <= i < j < t.len() ==> key_lt(#[trigger] t[i].0, #[trigger] t[j].0)
}

/// The number of leading entries whose identifier comes before `k`: the place
/// where `k` stands or would stand.
pub open spec fn lower_bound<W>(t: Entries<W>, k: Seq<char>) -> nat
    decreases t.len(),
{
    if t.len() == 0 {
        0
    } else if key_lt(t[0].0, k) {
        1 + lower_bound(t.drop_first(), k)
    } else {
        0
    }
}

/// The index of the entry for `k`, or -1.
pub open spec fn entry_index<W>(t: Entries<W>, k: Seq<char>) -> int {
    let i = lower_bound(t, k) as int;
    if i < t.len() && t[i].0 == k {
        i
    } else {
        -1
    }
}

/// The value stored for `k`, if any.
pub open spec fn lookup<W>(t: Entries<W>, k: Seq<char>) -> Option<W> {
    let i = entry_index(t, k);
    if i >= 0 {
        Some(t[i].1)
    } else {
        None
    }
}

/// Stores `v` for `k`, replacing an existing value.
pub open spec fn store<W>(t: Entries<W>, k: Seq<char>, v: W) -> Entries<W> {
    let i = entry_index(t, k);
    if i >= 0 {
        t.update(i, (k, v))
    } else {
        t.insert(lower_bound(t, k) as int, (k, v))
    }
}

/// Adds `(k, d)` when `k` has no entry; otherwise leaves the table as it is.
pub open spec fn ensure_entry<W>(t: Entries<W>, k: Seq<char>, d: W) -> Entries<W> {
    if entry_index(t, k) >= 0 {
        t
    } else {
        store(t, k, d)
    }
}

/// The identifiers, in table order.
pub open spec fn entry_keys<W>(t: Entries<W>) -> Seq<Seq<char>> {
    Seq::new(t.len(), |i: int| t[i].0)
}

pub proof fn lemma_lower_bound<W>(t: Entries<W>, k: Seq<char>)
    ensures
        lower_bound(t, k) <= t.len(),
        forall|j: int| 0 <= j < lower_bound(t, k) ==> key_lt(#[trigger] t[j].0, k),
        lower_bound(t, k) < t.len() ==> !key_lt(t[lower_bound(t, k) as int].0, k),
    decreases t.len(),
{
    if t.len() > 0 && key_lt(t[0].0, k) {
        let rest = t.drop_first();
        lemma_lower_bound(rest, k);
        assert forall|j: int| 0 <= j < lower_bound(t, k) implies key_lt(#[trigger] t[j].0, k) by {
            if j > 0 {
                assert(t[j] == rest[j - 1]);
            }
        }
    }
}

/// In a sorted table, the entries after the place of `k` come after `k`.
pub proof fn lemma_sorted_lower_bound<W>(t: Entries<W>, k: Seq<char>)
    requires
        entries_sorted(t),
    ensures
        forall|j: int|
            lower_bound(t, k) <= j < t.len() && t[j].0 != k ==> key_lt(k, #[trigger] t[j].0),
        forall|j: int| 0 <= j < t.len() && t[j].0 == k ==> j == entry_index(t, k),
        entry_index(t, k) < 0 ==> forall|j: int| 0 <= j < t.len() ==> #[trigger] t[j].0 != k,
{
    lemma_lower_bound(t, k);
    let lb = lower_bound(t, k) as int;
    assert forall|j: int| lb <= j < t.len() && t[j].0 != k implies key_lt(k, #[trigger] t[j].0) by {
        lemma_key_order(t[lb].0, k, t[j].0);
        lemma_key_order(k, t[lb].0, t[j].0);
        if j > lb {
            assert(key_lt(t[lb].0, t[j].0));
        }
    }
    assert forall|j: int| 0 <= j < t.len() && t[j].0 == k implies j == entry_index(t, k) by {
        lemma_key_order(k, k, k);
        if j < lb {
            assert(key_lt(t[j].0, k));
        }
        if j > lb {
            lemma_key_order(t[lb].0, k, t[j].0);
            assert(key_lt(t[lb].0, t[j].0));
        }
    }
}

/// Storing keeps a table sorted, and afterwards `k` maps to `v` while every
/// other identifier keeps its value.
pub proof fn lemma_store<W>(t: Entries<W>, k: Seq<char>, v: W)
    requires
        entries_sorted(t),
    ensures
        entries_sorted(store(t, k, v)),
        lookup(store(t, k, v), k) == Some(v),
        forall|k2: Seq<char>| k2 != k ==> lookup(store(t, k, v), k2) == lookup(t, k2),
        entry_index(store(t, k, v), k) == lower_bound(t, k),
        lower_bound(store(t, k, v), k) == lower_bound(t, k),
{
    lemma_lower_bound(t, k);
    lemma_sorted_lower_bound(t, k);
    let lb = lower_bound(t, k) as int;
    let s = store(t, k, v);
    if entry_index(t, k) >= 0 {
        assert forall|i: int, j: int| 0 <= i < j < s.len() implies key_lt(
            #[trigger] s[i].0,
            #[trigger] s[j].0,
        ) by {
            assert(s[i].0 == t[i].0);
            assert(s[j].0 == t[j].0);
        }
    } else {
        assert forall|i: int, j: int| 0 <= i < j < s.len() implies key_lt(
            #[trigger] s[i].0,
            #[trigger] s[j].0,
        ) by {
            if j < lb {
            } else if j == lb {
                assert(s[i].0 == t[i].0);
            } else if i < lb {
                assert(s[j].0 == t[j - 1].0);
                lemma_key_order(t[i].0, k, t[j - 1].0);
                if lb <= j - 1 {
                    assert(key_lt(k, t[j - 1].0));
                }
            } else if i == lb {
                assert(s[j].0 == t[j - 1].0);
            } else {
                assert(s[i].0 == t[i - 1].0);
                assert(s[j].0 == t[j - 1].0);
            }
        }
    }
    lemma_sorted_lower_bound(s, k);
    lemma_lower_bound(s, k);
    assert(s[lb].0 == k);
    lemma_key_order(k, k, k);
    assert(lower_bound(s, k) == lb) by {
        if lower_bound(s, k) < lb {
            assert(!key_lt(s[lower_bound(s, k) as int].0, k));
            assert(s[lower_bound(s, k) as int].0 == t[lower_bound(s, k) as int].0);
        }
        if lower_bound(s, k) > lb {
            assert(key_lt(s[lb].0, k));
        }
    }
    assert forall|k2: Seq<char>| k2 != k implies lookup(s, k2) == lookup(t, k2) by {
        lemma_sorted_lower_bound(s, k2);
        lemma_sorted_lower_bound(t, k2);
        lemma_lower_bound(s, k2);
        lemma_lower_bound(t, k2);
        let ti = entry_index(t, k2);
        let si = entry_index(s, k2);
        if ti >= 0 {
            let j = if entry_index(t, k) >= 0 || ti < lb {
                ti
            } else {
                ti + 1
            };
            assert(s[j] == t[ti]);
            assert(si == j);
        } else if si >= 0 {
            if si != lb {
                let j = if entry_index(t, k) >= 0 || si < lb {
                    si
                } else {
                    si - 1
                };
                assert(s[si] == t[j]);
            }
        }
    }
}

/// Adding a default entry keeps a table sorted; the identifier then has an entry.
pub proof fn lemma_ensure_entry<W>(t: Entries<W>, k: Seq<char>, d: W)
    requires
        entries_sorted(t),
    ensures
        entries_sorted(ensure_entry(t, k, d)),
        entry_index(ensure_entry(t, k, d), k) == lower_bound(t, k),
        lookup(ensure_entry(t, k, d), k) == Some(
            if lookup(t, k) is Some {
                lookup(t, k)->0
            } else {
                d
            },
        ),
        forall|k2: Seq<char>| k2 != k ==> lookup(ensure_entry(t, k, d), k2) == lookup(t, k2),
{
    if entry_index(t, k) < 0 {
        lemma_store(t, k, d);
    }
}

/// A table of values by actor identifier, kept in identifier order.
#[derive(Debug, Clone, PartialEq, Eq)]
pub struct ActorTable<V> {
    keys: Vec<String>,
    values: Vec<V>,
}

impl<V: View> View for ActorTable<V> {
    type V = Entries<V::V>;

    closed spec fn view(&self) -> Entries<V::V> {
        Seq::new(self.keys@.len(), |i: int| (self.keys@[i]@, self.values@[i]@))
    }
}

impl<V: View> ActorTable<V> {
    /// The table is well formed: one value per identifier, identifiers in order.
    pub closed spec fn wf(&self) -> bool {
        &&& self.keys@.len() == self.values@.len()
        &&& entries_sorted(self@)
    }

    /// A well-formed table's entries are sorted.
    pub proof fn lemma_sorted(&self)
        requires
            self.wf(),
        ensures
            entries_sorted(self@),
    {
    }

    pub fn new() -> (table: Self)
        ensures
            table.wf(),
            table@ == Seq::<(Seq<char>, V::V)>::empty(),
    {
        let table = ActorTable { keys: Vec::new(), values: Vec::new() };
        assert(table@ =~= Seq::<(Seq<char>, V::V)>::empty());
        table
    }

    /// The number of entries.
    pub fn len(&self) -> (n: usize)
        requires
            self.wf(),
        ensures
            n == self@.len(),
    {
        self.keys.len()
    }

    /// The place of `key`: the number of entries whose identifier comes first.
    pub fn lower_bound(&self, key: &str) -> (i: usize)
        requires
            self.wf(),
        ensures
            i == lower_bound(self@, key@),
    {
        let ghost t = self@;
        let mut i: usize = 0;
        proof {
            assert(t.skip(0) =~= t);
        }
        while i < self.keys.len()
            invariant
                self.wf(),
                t == self@,
                i <= t.len(),
                lower_bound(t, key@) == i + lower_bound(t.skip(i as int), key@),
            decreases t.len() - i,
        {
            proof {
                assert(t.skip(i as int)[0] == t[i as int]);
                assert(t.skip(i as int).drop_first() =~= t.skip(i + 1));
            }
            match compare_keys(self.keys[i].as_str(), key) {
                KeyOrder::Less => {},
                _ => {
                    return i;
                },
            }
            i += 1;
        }
        i
    }

    /// The index of the entry for `key`, if there is one.
    pub fn index_of(&self, key: &str) -> (found: Option<usize>)
        requires
            self.wf(),
        ensures
            found is Some <==> entry_index(self@, key@) >= 0,
            found matches Some(i) ==> i == entry_index(self@, key@),
    {
        let i = self.lower_bound(key);
        if i < self.keys.len() {
            match compare_keys(self.keys[i].as_str(), key) {
                KeyOrder::Equal => {
                    return Some(i);
                },
                _ => {},
            }
        }
        None
    }

    /// The value stored for `key`.
    pub fn get(&self, key: &str) -> (value: Option<&V>)
        requires
            self.wf(),
        ensures
            value is Some <==> lookup(self@, key@) is Some,
            value matches Some(v) ==> v@ == lookup(self@, key@)->0,
    {
        match self.index_of(key) {
            Some(i) => Some(&self.values[i]),
            None => None,
        }
    }

    /// The identifier of entry `i`.
    pub fn key_at(&self, i: usize) -> (key: &String)
        requires
            self.wf(),
            i < self@.len(),
        ensures
            key@ == self@[i as int].0,
    {
        &self.keys[i]
    }

    /// The value of entry `i`.
    pub fn value_at(&self, i: usize) -> (value: &V)
        requires
            self.wf(),
            i < self@.len(),
        ensures
            value@ == self@[i as int].1,
    {
        &self.values[i]
    }

    /// Replaces the value of entry `i`.
    pub fn set_value_at(&mut self, i: usize, value: V)
        requires
            old(self).wf(),
            i < old(self)@.len(),
        ensures
            final(self).wf(),
            final(self)@ == old(self)@.update(i as int, (old(self)@[i as int].0, value@)),
    {
        self.values.set(i, value);
        assert(self@ =~= old(self)@.update(i as int, (old(self)@[i as int].0, value@)));
    }

    /// Takes the value of entry `i` out, leaving `filler` in its place.
    pub fn swap_value_at(&mut self, i: usize, filler: V) -> (value: V)
        requires
            old(self).wf(),
            i < old(self)@.len(),
        ensures
            final(self).wf(),
            value@ == old(self)@[i as int].1,
            final(self)@ == old(self)@.update(i as int, (old(self)@[i as int].0, filler@)),
    {
        let mut filler = filler;
        let ghost f = filler@;
        let ghost v = self.values@[i as int];
        std::mem::swap(&mut filler, &mut self.values[i]);
        assert(self.values@ =~= old(self).values@.update(i as int, self.values@[i as int]));
        assert(self@ =~= old(self)@.update(i as int, (old(self)@[i as int].0, f)));
        filler
    }

    /// Makes sure `key` has an entry, adding `default` when it has none.
    /// Returns the index of the entry.
    pub fn ensure_entry(&mut self, key: &String, default: V) -> (i: usize)
        requires
            old(self).wf(),
        ensures
            final(self).wf(),
            final(self)@ == ensure_entry(old(self)@, key@, default@),
            i == entry_index(final(self)@, key@),
            i < final(self)@.len(),
    {
        proof {
            lemma_ensure_entry(self@, key@, default@);
            lemma_lower_bound(self@, key@);
        }
        let i = self.lower_bound(key.as_str());
        if i < self.keys.len() {
            match compare_keys(self.keys[i].as_str(), key.as_str()) {
                KeyOrder::Equal => {
                    return i;
                },
                _ => {},
            }
        }
        let ghost t = self@;
        self.keys.insert(i, key.clone());
        self.values.insert(i, default);
        assert(self@ =~= t.insert(i as int, (key@, default@)));
        i
    }

    /// The identifiers, in table order.
    pub fn keys(&self) -> (keys: Vec<String>)
        requires
            self.wf(),
        ensures
            keys@.len() == self@.len(),
            forall|i: int| 0 <= i < keys@.len() ==> #[trigger] keys@[i]@ == self@[i].0,
    {
        let mut out: Vec<String> = Vec::new();
        let mut i: usize = 0;
        while i < self.keys.len()
            invariant
                self.wf(),
                i <= self@.len(),
                out@.len() == i,
                forall|j: int| 0 <= j < i ==> #[trigger] out@[j]@ == self@[j].0,
            decreases self@.len() - i,
        {
            out.push(self.keys[i].clone());
            i += 1;
        }
        out
    }
}

} // verus!
