//! A small map keyed by strings, kept as a list of entries with distinct keys.

use vstd::prelude::*;
use crate::text::owned;

verus! {

/// A map from strings to values. Entries keep their insertion order; keys are distinct.
#[derive(Debug)]
pub struct StrMap<V> {
    entries: Vec<(String, V)>,
}

/// Keys of an entry list are pairwise distinct.
pub open spec fn keys_distinct<V>(s: Seq<(String, V)>) -> bool {
    forall|i: int, j: int| 0 <= i < s.len() && 0 <= j < s.len() && i != j ==> s[i].0@ != s[j].0@
}

/// The map that an entry list with distinct keys stands for.
pub open spec fn entries_map<V>(s: Seq<(String, V)>) -> Map<Seq<char>, V> {
    Map::new(
        |k: Seq<char>| exists|i: int| 0 <= i < s.len() && s[i].0@ == k,
        |k: Seq<char>| s[choose|i: int| 0 <= i < s.len() && s[i].0@ == k].1,
    )
}

/// Looking up the key of the `i`-th entry gives that entry's value.
pub proof fn lemma_entries_map_at<V>(s: Seq<(String, V)>, i: int)
    requires
        keys_distinct(s),
        0 <= i < s.len(),
    ensures
        entries_map(s).contains_key(s[i].0@),
        entries_map(s)[s[i].0@] == s[i].1,
{
    let k = s[i].0@;
    assert(exists|j: int| 0 <= j < s.len() && s[j].0@ == k);
    let j = choose|j: int| 0 <= j < s.len() && s[j].0@ == k;
    assert(j == i);
}

impl<V> StrMap<V> {
    #[verifier::type_invariant]
    spec fn wf(&self) -> bool {
        keys_distinct(self.entries@)
    }

    /// The entries, in insertion order.
    pub closed spec fn entries(&self) -> Seq<(String, V)> {
        self.entries@
    }

    /// The values of the entries, in insertion order.
    pub open spec fn values(&self) -> Seq<V> {
        self.entries().map_values(|e: (String, V)| e.1)
    }

    /// An empty map.
    pub fn new() -> (res: Self)
        ensures
            res@ == Map::<Seq<char>, V>::empty(),
            res.entries().len() == 0,
    {
        let res = StrMap { entries: Vec::new() };
        assert(res@ =~= Map::<Seq<char>, V>::empty());
        res
    }

    /// The number of entries.
    pub fn len(&self) -> (res: usize)
        ensures
            res == self.entries().len(),
    {
        self.entries.len()
    }

    /// The key and value of the `i`-th entry.
    pub fn entry_at(&self, i: usize) -> (res: (&String, &V))
        requires
            i < self.entries().len(),
        ensures
            *res.0 == self.entries()[i as int].0,
            *res.1 == self.entries()[i as int].1,
    {
        let e = &self.entries[i];
        (&e.0, &e.1)
    }

    fn position(&self, key: &String) -> (res: Option<usize>)
        ensures
            match res {
                Some(i) => i < self.entries@.len() && self.entries@[i as int].0@ == key@,
                None => forall|i: int| 0 <= i < self.entries@.len() ==> self.entries@[i].0@ != key@,
            },
    {
        let mut i: usize = 0;
        while i < self.entries.len()
            invariant
                i <= self.entries@.len(),
                forall|j: int| 0 <= j < i ==> self.entries@[j].0@ != key@,
            decreases self.entries@.len() - i,
        {
            if self.entries[i].0 == *key {
                return Some(i);
            }
            i += 1;
        }
        None
    }

    /// The `i`-th entry is in the map, with its value.
    pub proof fn lemma_entry_in_map(&self, i: int)
        requires
            0 <= i < self.entries().len(),
            keys_distinct(self.entries()),
        ensures
            self@.contains_key(self.entries()[i].0@),
            self@[self.entries()[i].0@] == self.entries()[i].1,
    {
        lemma_entries_map_at(self.entries@, i);
    }

    /// Every key of the map is the key of some entry.
    pub proof fn lemma_key_has_entry(&self, k: Seq<char>)
        requires
            self@.contains_key(k),
        ensures
            exists|j: int| 0 <= j < self.entries().len() && self.entries()[j].0@ == k,
    {
        assert(entries_map(self.entries@).dom().contains(k));
        let j = choose|j: int| 0 <= j < self.entries@.len() && self.entries@[j].0@ == k;
        assert(self.entries()[j].0@ == k);
    }

    /// The value stored under a key is among the values.
    pub proof fn lemma_value_listed(&self, k: Seq<char>)
        requires
            keys_distinct(self.entries()),
            self@.contains_key(k),
        ensures
            self.values().contains(self@[k]),
    {
        self.lemma_key_has_entry(k);
        let j = choose|j: int| 0 <= j < self.entries().len() && self.entries()[j].0@ == k;
        self.lemma_entry_in_map(j);
        assert(self.values()[j] == self@[k]);
    }

    /// The keys of the entries are distinct.
    pub fn keys_are_distinct(&self)
        ensures
            keys_distinct(self.entries()),
    {
        proof { use_type_invariant(self); }
    }

    /// The value stored under `key`, if any.
    pub fn get(&self, key: &str) -> (res: Option<&V>)
        ensures
            match res {
                Some(v) => self@.contains_key(key@) && *v == self@[key@],
                None => !self@.contains_key(key@),
            },
    {
        proof { use_type_invariant(self); }
        let k = owned(key);
        match self.position(&k) {
            Some(i) => {
                proof { lemma_entries_map_at(self.entries@, i as int); }
                Some(&self.entries[i].1)
            },
            None => None,
        }
    }

    /// Whether a value is stored under `key`.
    pub fn contains_key(&self, key: &str) -> (res: bool)
        ensures
            res == self@.contains_key(key@),
    {
        self.get(key).is_some()
    }

    /// Stores `value` under `key`, replacing any previous value.
    pub fn insert(&mut self, key: String, value: V)
        ensures
            final(self)@ == old(self)@.insert(key@, value),
    {
        proof { use_type_invariant(&*self); }
        let ghost old_entries = self.entries@;
        match self.position(&key) {
            Some(i) => {
                let mut entries = Vec::new();
                std::mem::swap(&mut entries, &mut self.entries);
                entries.set(i, (key, value));
                let ghost s = entries@;
                assert(keys_distinct(s));
                assert forall|k: Seq<char>| #[trigger] entries_map(s).contains_key(k)
                    == entries_map(old_entries).insert(key@, value).contains_key(k) by {
                    if entries_map(old_entries).insert(key@, value).contains_key(k) {
                        if k == key@ {
                            lemma_entries_map_at(s, i as int);
                        } else {
                            let j = choose|j: int| 0 <= j < old_entries.len() && old_entries[j].0@ == k;
                            assert(s[j] == old_entries[j]);
                        }
                    }
                    if entries_map(s).contains_key(k) {
                        let j = choose|j: int| 0 <= j < s.len() && s[j].0@ == k;
                        if j != i {
                            assert(s[j] == old_entries[j]);
                        }
                    }
                }
                assert forall|k: Seq<char>| entries_map(s).contains_key(k) implies
                    entries_map(s)[k] == entries_map(old_entries).insert(key@, value)[k] by {
                    let j = choose|j: int| 0 <= j < s.len() && s[j].0@ == k;
                    lemma_entries_map_at(s, j);
                    if j != i {
                        assert(s[j] == old_entries[j]);
                        lemma_entries_map_at(old_entries, j);
                    }
                }
                assert(entries_map(s) =~= entries_map(old_entries).insert(key@, value));
                self.entries = entries;
            },
            None => {
                let mut entries = Vec::new();
                std::mem::swap(&mut entries, &mut self.entries);
                entries.push((key, value));
                let ghost s = entries@;
                assert(keys_distinct(s));
                assert forall|k: Seq<char>| #[trigger] entries_map(s).contains_key(k)
                    == entries_map(old_entries).insert(key@, value).contains_key(k) by {
                    if entries_map(old_entries).insert(key@, value).contains_key(k) {
                        if k == key@ {
                            lemma_entries_map_at(s, s.len() - 1);
                        } else {
                            let j = choose|j: int| 0 <= j < old_entries.len() && old_entries[j].0@ == k;
                            assert(s[j] == old_entries[j]);
                        }
                    }
                    if entries_map(s).contains_key(k) {
                        let j = choose|j: int| 0 <= j < s.len() && s[j].0@ == k;
                        if j < old_entries.len() {
                            assert(s[j] == old_entries[j]);
                        }
                    }
                }
                assert forall|k: Seq<char>| entries_map(s).contains_key(k) implies
                    entries_map(s)[k] == entries_map(old_entries).insert(key@, value)[k] by {
                    let j = choose|j: int| 0 <= j < s.len() && s[j].0@ == k;
                    lemma_entries_map_at(s, j);
                    if j < old_entries.len() {
                        assert(s[j] == old_entries[j]);
                        lemma_entries_map_at(old_entries, j);
                    }
                }
                assert(entries_map(s) =~= entries_map(old_entries).insert(key@, value));
                self.entries = entries;
            },
        }
    }

    /// Removes the value stored under `key`, returning it.
    pub fn remove(&mut self, key: &str) -> (res: Option<V>)
        ensures
            final(self)@ == old(self)@.remove(key@),
            match res {
                Some(v) => old(self)@.contains_key(key@) && v == old(self)@[key@],
                None => !old(self)@.contains_key(key@),
            },
    {
        proof { use_type_invariant(&*self); }
        let ghost old_entries = self.entries@;
        let k = owned(key);
        match self.position(&k) {
            Some(i) => {
                let mut entries = Vec::new();
                std::mem::swap(&mut entries, &mut self.entries);
                let removed = entries.remove(i);
                let ghost s = entries@;
                proof { lemma_entries_map_at(old_entries, i as int); }
                assert(keys_distinct(s)) by {
                    assert forall|a: int, b: int| 0 <= a < s.len() && 0 <= b < s.len() && a != b
                        implies s[a].0@ != s[b].0@ by {
                        let oa = if a < i { a } else { a + 1 };
                        let ob = if b < i { b } else { b + 1 };
                        assert(s[a] == old_entries[oa]);
                        assert(s[b] == old_entries[ob]);
                    }
                }
                assert forall|q: Seq<char>| #[trigger] entries_map(s).contains_key(q)
                    == entries_map(old_entries).remove(key@).contains_key(q) by {
                    if entries_map(s).contains_key(q) {
                        let j = choose|j: int| 0 <= j < s.len() && s[j].0@ == q;
                        let oj = if j < i { j } else { j + 1 };
                        assert(s[j] == old_entries[oj]);
                    }
                    if entries_map(old_entries).remove(key@).contains_key(q) {
                        let j = choose|j: int| 0 <= j < old_entries.len() && old_entries[j].0@ == q;
                        assert(j != i);
                        if j < i {
                            assert(s[j] == old_entries[j]);
                        } else {
                            assert(s[j - 1] == old_entries[j]);
                        }
                    }
                }
                assert forall|q: Seq<char>| entries_map(s).contains_key(q) implies
                    entries_map(s)[q] == entries_map(old_entries).remove(key@)[q] by {
                    let j = choose|j: int| 0 <= j < s.len() && s[j].0@ == q;
                    lemma_entries_map_at(s, j);
                    let oj = if j < i { j } else { j + 1 };
                    assert(s[j] == old_entries[oj]);
                    lemma_entries_map_at(old_entries, oj);
                }
                assert(entries_map(s) =~= entries_map(old_entries).remove(key@));
                self.entries = entries;
                Some(removed.1)
            },
            None => {
                assert(entries_map(old_entries).remove(key@) =~= entries_map(old_entries));
                None
            },
        }
    }
}

impl<V> View for StrMap<V> {
    type V = Map<Seq<char>, V>;

    closed spec fn view(&self) -> Map<Seq<char>, V> {
        entries_map(self.entries@)
    }
}

} // verus!
