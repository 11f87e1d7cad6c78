//! An insertion-ordered table keyed by strings.
//!
//! The application keeps its state definitions, its paragraphs and its
//! runtime values in tables whose keys are variable or paragraph names.
//! A table never holds two entries under the same key; inserting under an
//! existing key replaces the value in place.
use vstd::prelude::*;

verus! {

/// A table from names to values that remembers the order of first insertion.
#[derive(Debug)]
pub struct Table<V> {
    entries: Vec<(String, V)>,
}

impl<V> View for Table<V> {
    type V = Map<Seq<char>, V>;

    /// The table as a map from keys to values.
    open spec fn view(&self) -> Map<Seq<char>, V> {
        Map::new(|k: Seq<char>| self.has(k), |k: Seq<char>| self.at(k))
    }
}

impl<V> Table<V> {
    #[verifier::type_invariant]
    spec fn keys_unique(self) -> bool {
        forall|i: int, j: int|
            0 <= i < j < self.entries@.len() ==> self.entries@[i].0@ != self.entries@[j].0@
    }

    /// The keys, in the order in which they were first inserted.
    pub closed spec fn keys(self) -> Seq<Seq<char>> {
        self.entries@.map_values(|e: (String, V)| e.0@)
    }

    /// The values, in the order of `keys`.
    pub closed spec fn values(self) -> Seq<V> {
        self.entries@.map_values(|e: (String, V)| e.1)
    }

    /// The number of entries.
    pub open spec fn size(self) -> nat {
        self.keys().len()
    }

    /// The position of `k` among the keys (meaningful when `k` is a key).
    pub open spec fn position(self, k: Seq<char>) -> int {
        choose|i: int| 0 <= i < self.keys().len() && self.keys()[i] == k
    }

    /// Whether `k` is a key of the table.
    pub open spec fn has(self, k: Seq<char>) -> bool {
        self.keys().contains(k)
    }

    /// The value stored under `k` (meaningful when `k` is a key).
    pub open spec fn at(self, k: Seq<char>) -> V {
        self.values()[self.position(k)]
    }

    /// Keys and values have the same length, and the keys are pairwise distinct.
    pub closed spec fn well_formed(self) -> bool {
        &&& self.keys().len() == self.values().len()
        &&& forall|i: int, j: int|
            0 <= i < j < self.keys().len() ==> self.keys()[i] != self.keys()[j]
    }

    /// The entry at a position holds the key at that position.
    pub proof fn lemma_position(self, i: int)
        requires
            self.well_formed(),
            0 <= i < self.keys().len(),
        ensures
            self.position(self.keys()[i]) == i,
            self.has(self.keys()[i]),
            self.at(self.keys()[i]) == self.values()[i],
    {
        let k = self.keys()[i];
        assert(self.keys().contains(k));
        let p = self.position(k);
        assert(0 <= p < self.keys().len() && self.keys()[p] == k);
        if p != i {
            if p < i {
                assert(self.keys()[p] != self.keys()[i]);
            } else {
                assert(self.keys()[i] != self.keys()[p]);
            }
        }
    }

    /// How the map view follows an insertion.
    proof fn lemma_view_after_insert(self, before: Self, k: Seq<char>, v: V)
        requires
            self.well_formed(),
            before.well_formed(),
            self.keys() == (if before.has(k) {
                before.keys()
            } else {
                before.keys().push(k)
            }),
            self.values() == (if before.has(k) {
                before.values().update(before.position(k), v)
            } else {
                before.values().push(v)
            }),
        ensures
            self@ == before@.insert(k, v),
    {
        assert forall|q: Seq<char>| #[trigger] self@.contains_key(q) == before@.insert(k, v).contains_key(q) by {
            if before.has(k) {
            } else {
                if q != k && self.keys().contains(q) {
                    let i = choose|i: int| 0 <= i < self.keys().len() && self.keys()[i] == q;
                    assert(before.keys()[i] == q);
                }
                if q == k {
                    assert(self.keys()[self.keys().len() - 1] == k);
                }
                if before.keys().contains(q) {
                    let j = choose|j: int| 0 <= j < before.keys().len() && before.keys()[j] == q;
                    assert(self.keys()[j] == q);
                }
            }
        }
        assert forall|q: Seq<char>| #[trigger] self@.contains_key(q) implies self@[q] == before@.insert(k, v)[q] by {
            let i = choose|i: int| 0 <= i < self.keys().len() && self.keys()[i] == q;
            self.lemma_position(i);
            if q == k {
            } else {
                if before.has(k) {
                    before.lemma_position(i);
                } else {
                    assert(i < before.keys().len());
                    before.lemma_position(i);
                }
            }
        }
        assert(self@ =~= before@.insert(k, v));
    }

    /// Every table is well formed.
    pub fn check_well_formed(&self)
        ensures
            self.well_formed(),
    {
        proof {
            use_type_invariant(self);
            assert forall|i: int, j: int|
                0 <= i < j < self.keys().len() implies self.keys()[i] != self.keys()[j] by {
                assert(self.entries@[i].0@ != self.entries@[j].0@);
            }
        }
    }

    /// An empty table.
    pub fn new() -> (t: Self)
        ensures
            t.keys() == Seq::<Seq<char>>::empty(),
            t.values() == Seq::<V>::empty(),
    {
        let t = Table { entries: Vec::new() };
        assert(t.keys() =~= Seq::<Seq<char>>::empty());
        assert(t.values() =~= Seq::<V>::empty());
        t
    }

    /// The number of entries.
    pub fn len(&self) -> (n: usize)
        ensures
            n == self.size(),
            n == self.values().len(),
    {
        proof { use_type_invariant(self); }
        self.entries.len()
    }

    /// The key at a position.
    pub fn key_at(&self, i: usize) -> (k: &String)
        requires
            i < self.size(),
        ensures
            k@ == self.keys()[i as int],
    {
        &self.entries[i].0
    }

    /// The value at a position.
    pub fn value_at(&self, i: usize) -> (v: &V)
        requires
            i < self.size(),
        ensures
            *v == self.values()[i as int],
    {
        proof { use_type_invariant(self); }
        &self.entries[i].1
    }

    /// Finds the position of a key.
    pub fn find(&self, key: &str) -> (r: Option<usize>)
        ensures
            match r {
                Some(i) => i < self.size() && self.keys()[i as int] == key@ && self.position(key@)
                    == i && self.has(key@),
                None => !self.has(key@),
            },
    {
        self.check_well_formed();
        let k = String::from_str(key);
        let n = self.entries.len();
        let mut i: usize = 0;
        while i < n
            invariant
                n == self.entries@.len(),
                self.well_formed(),
                k@ == key@,
                0 <= i <= n,
                forall|j: int| 0 <= j < i ==> self.keys()[j] != key@,
            decreases n - i,
        {
            if self.entries[i].0 == k {
                proof { self.lemma_position(i as int); }
                return Some(i);
            }
            i = i + 1;
        }
        proof {
            if self.keys().contains(key@) {
                let j = choose|j: int| 0 <= j < self.keys().len() && self.keys()[j] == key@;
                assert(self.keys()[j] != key@);
            }
        }
        None
    }

    /// Whether a key is present.
    pub fn contains_key(&self, key: &str) -> (b: bool)
        ensures
            b == self.has(key@),
    {
        self.find(key).is_some()
    }

    /// The value stored under a key, if any.
    pub fn get(&self, key: &str) -> (r: Option<&V>)
        ensures
            match r {
                Some(v) => self.has(key@) && *v == self.at(key@),
                None => !self.has(key@),
            },
    {
        match self.find(key) {
            Some(i) => Some(self.value_at(i)),
            None => None,
        }
    }

    /// Stores `value` under `key`: an existing entry is replaced in place,
    /// otherwise the entry is appended.
    pub fn insert(&mut self, key: String, value: V)
        ensures
            final(self).keys() == (if old(self).has(key@) {
                old(self).keys()
            } else {
                old(self).keys().push(key@)
            }),
            final(self).values() == (if old(self).has(key@) {
                old(self).values().update(old(self).position(key@), value)
            } else {
                old(self).values().push(value)
            }),
            final(self)@ == old(self)@.insert(key@, value),
    {
        self.check_well_formed();
        match self.find(key.as_str()) {
            Some(i) => {
                let ghost old_entries = self.entries@;
                let mut entries = Vec::new();
                std::mem::swap(&mut entries, &mut self.entries);
                entries.set(i, (key, value));
                proof {
                    let nk = entries@.map_values(|e: (String, V)| e.0@);
                    let ok = old_entries.map_values(|e: (String, V)| e.0@);
                    assert(nk =~= ok);
                    assert forall|a: int, b: int|
                        0 <= a < b < entries@.len() implies entries@[a].0@ != entries@[b].0@ by {
                        assert(nk[a] == ok[a] && nk[b] == ok[b]);
                        assert(old(self).keys()[a] != old(self).keys()[b]);
                    }
                }
                self.entries = entries;
                assert(self.values() =~= old(self).values().update(i as int, value));
                self.check_well_formed();
                proof { self.lemma_view_after_insert(*old(self), key@, value); }
            },
            None => {
                let ghost old_entries = self.entries@;
                let mut entries = Vec::new();
                std::mem::swap(&mut entries, &mut self.entries);
                entries.push((key, value));
                proof {
                    assert(entries@.map_values(|e: (String, V)| e.0@) =~= old_entries.map_values(
                        |e: (String, V)| e.0@,
                    ).push(key@));
                    let ok = old_entries.map_values(|e: (String, V)| e.0@);
                    assert forall|a: int, b: int|
                        0 <= a < b < entries@.len() implies entries@[a].0@ != entries@[b].0@ by {
                        if b == entries@.len() - 1 {
                            assert(ok[a] == old_entries[a].0@);
                            assert(ok.contains(ok[a]));
                        } else {
                            assert(ok[a] == old_entries[a].0@ && ok[b] == old_entries[b].0@);
                            assert(old(self).keys()[a] != old(self).keys()[b]);
                        }
                    }
                }
                self.entries = entries;
                assert(self.keys() =~= old(self).keys().push(key@));
                assert(self.values() =~= old(self).values().push(value));
                self.check_well_formed();
                proof { self.lemma_view_after_insert(*old(self), key@, value); }
            },
        }
    }
}

/// The entries of a table as (key, model of value) pairs, in order.
pub open spec fn pairs<V, W>(t: Table<V>, f: spec_fn(V) -> W) -> Seq<(Seq<char>, W)> {
    Seq::new(t.keys().len(), |i: int| (t.keys()[i], f(t.values()[i])))
}

/// `tab` with `v` stored under `k`: in place when `k` is present, else at the end.
pub open spec fn table_insert<W>(tab: Seq<(Seq<char>, W)>, k: Seq<char>, v: W) -> Seq<(Seq<char>, W)> {
    if exists|i: int| 0 <= i < tab.len() && tab[i].0 == k {
        let i = choose|i: int| 0 <= i < tab.len() && tab[i].0 == k;
        tab.update(i, (k, v))
    } else {
        tab.push((k, v))
    }
}

/// Inserting into a table inserts into its pairs.
pub proof fn lemma_pairs_insert<V, W>(before: Table<V>, after: Table<V>, k: Seq<char>, v: V, f: spec_fn(V) -> W)
    requires
        before.well_formed(),
        after.keys() == (if before.has(k) {
            before.keys()
        } else {
            before.keys().push(k)
        }),
        after.values() == (if before.has(k) {
            before.values().update(before.position(k), v)
        } else {
            before.values().push(v)
        }),
    ensures
        pairs(after, f) == table_insert(pairs(before, f), k, f(v)),
{
    let pb = pairs(before, f);
    if before.has(k) {
        let p = before.position(k);
        assert(0 <= p < before.keys().len() && before.keys()[p] == k);
        assert(pb[p].0 == k);
        let i = choose|i: int| 0 <= i < pb.len() && pb[i].0 == k;
        assert(before.keys()[i] == k);
        if i != p {
            if i < p {
                assert(before.keys()[i] != before.keys()[p]);
            } else {
                assert(before.keys()[p] != before.keys()[i]);
            }
        }
        assert(pairs(after, f) =~= pb.update(p, (k, f(v))));
    } else {
        if exists|i: int| 0 <= i < pb.len() && pb[i].0 == k {
            let i = choose|i: int| 0 <= i < pb.len() && pb[i].0 == k;
            assert(before.keys()[i] == k);
            assert(before.keys().contains(k));
        }
        assert(pairs(after, f) =~= pb.push((k, f(v))));
    }
}

impl Table<String> {
    /// A copy of a table of strings.
    pub fn duplicate(&self) -> (r: Table<String>)
        ensures
            r.keys() == self.keys(),
            r.values() == self.values(),
            r@ == self@,
    {
        self.check_well_formed();
        let mut entries: Vec<(String, String)> = Vec::new();
        let n = self.entries.len();
        let mut i: usize = 0;
        while i < n
            invariant
                n == self.entries@.len(),
                i <= n,
                entries@.len() == i,
                forall|j: int| 0 <= j < i ==> #[trigger] entries@[j] == self.entries@[j],
            decreases n - i,
        {
            let e = &self.entries[i];
            entries.push((e.0.clone(), e.1.clone()));
            i = i + 1;
        }
        assert(entries@ =~= self.entries@);
        proof { use_type_invariant(self); }
        Table { entries }
    }
}

} // verus!
