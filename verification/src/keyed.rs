//! Vectors of items kept in strictly increasing order of a string key.

use vstd::prelude::*;
use crate::text::{lex_lt, lex_less, lemma_lex_irreflexive, lemma_lex_trichotomy, lemma_lex_transitive};

verus! {

/// Items that carry a string key.
pub trait Keyed {
    /// The key of the item.
    spec fn key(&self) -> Seq<char>;

    /// The key of the item.
    fn key_string(&self) -> (res: &String)
        ensures
            res@ == self.key();
}

/// Keys strictly increase along `s`.
pub open spec fn sorted_keys<T: Keyed>(s: Seq<T>) -> bool {
    forall|i: int, j: int| 0 <= i < j < s.len() ==> lex_lt(#[trigger] s[i].key(), #[trigger] s[j].key())
}

/// Whether some item of `s` has key `k`.
pub open spec fn has_key<T: Keyed>(s: Seq<T>, k: Seq<char>) -> bool {
    exists|i: int| 0 <= i < s.len() && s[i].key() == k
}

/// A position of an item of `s` with key `k`.
pub open spec fn key_index<T: Keyed>(s: Seq<T>, k: Seq<char>) -> int {
    choose|i: int| 0 <= i < s.len() && s[i].key() == k
}

/// The map from key to item of a sequence with distinct keys.
pub open spec fn keyed_map<T: Keyed>(s: Seq<T>) -> Map<Seq<char>, T> {
    Map::new(|k: Seq<char>| has_key(s, k), |k: Seq<char>| s[key_index(s, k)])
}

/// In a sorted sequence, distinct positions have distinct keys.
pub proof fn lemma_sorted_distinct<T: Keyed>(s: Seq<T>, i: int, j: int)
    requires
        sorted_keys(s),
        0 <= i < s.len(),
        0 <= j < s.len(),
        i != j,
    ensures
        s[i].key() != s[j].key(),
{
    if i < j {
        assert(lex_lt(s[i].key(), s[j].key()));
        lemma_lex_irreflexive(s[i].key());
    } else {
        assert(lex_lt(s[j].key(), s[i].key()));
        lemma_lex_irreflexive(s[i].key());
    }
}

/// Looking up the key of the `i`-th item of a sorted sequence gives that item.
pub proof fn lemma_keyed_map_at<T: Keyed>(s: Seq<T>, i: int)
    requires
        sorted_keys(s),
        0 <= i < s.len(),
    ensures
        keyed_map(s).contains_key(s[i].key()),
        keyed_map(s)[s[i].key()] == s[i],
{
    let k = s[i].key();
    assert(has_key(s, k));
    let j = key_index(s, k);
    if j != i {
        lemma_sorted_distinct(s, i, j);
    }
}

/// Every key of the map of a sequence is the key of one of its items.
pub proof fn lemma_keyed_map_key<T: Keyed>(s: Seq<T>, k: Seq<char>)
    requires
        keyed_map(s).contains_key(k),
    ensures
        exists|i: int| 0 <= i < s.len() && s[i].key() == k,
{
    assert(keyed_map(s).dom().contains(k));
    assert(has_key(s, k));
}

/// Where `key` is or would go in a sorted vector: the first position whose key is not below it.
pub fn locate<T: Keyed>(v: &Vec<T>, key: &String) -> (res: (bool, usize))
    requires
        sorted_keys(v@),
    ensures
        res.1 <= v@.len(),
        forall|j: int| 0 <= j < res.1 ==> lex_lt(#[trigger] v@[j].key(), key@),
        res.0 ==> res.1 < v@.len() && v@[res.1 as int].key() == key@,
        !res.0 ==> forall|j: int| res.1 <= j < v@.len() ==> lex_lt(key@, #[trigger] v@[j].key()),
        res.0 == keyed_map(v@).contains_key(key@),
{
    let mut i: usize = 0;
    while i < v.len() && lex_less(v[i].key_string(), key)
        invariant
            i <= v@.len(),
            forall|j: int| 0 <= j < i ==> lex_lt(#[trigger] v@[j].key(), key@),
        decreases v@.len() - i,
    {
        i += 1;
    }
    if i < v.len() && *v[i].key_string() == *key {
        proof { lemma_keyed_map_at(v@, i as int); }
        (true, i)
    } else {
        proof {
            if i < v@.len() {
                lemma_lex_trichotomy(v@[i as int].key(), key@);
                assert(lex_lt(key@, v@[i as int].key()));
                assert forall|j: int| i <= j < v@.len() implies lex_lt(key@, #[trigger] v@[j].key()) by {
                    if j > i {
                        assert(lex_lt(v@[i as int].key(), v@[j].key()));
                        lemma_lex_transitive(key@, v@[i as int].key(), v@[j].key());
                    }
                }
            }
            if keyed_map(v@).contains_key(key@) {
                lemma_keyed_map_key(v@, key@);
                let j = choose|j: int| 0 <= j < v@.len() && v@[j].key() == key@;
                if j < i {
                    lemma_lex_irreflexive(key@);
                } else {
                    lemma_lex_irreflexive(key@);
                }
            }
        }
        (false, i)
    }
}

/// Stores `x` in a sorted vector: it replaces the item with the same key, or is inserted in order.
pub fn put<T: Keyed>(v: &mut Vec<T>, x: T) -> (res: usize)
    requires
        sorted_keys(old(v)@),
    ensures
        sorted_keys(final(v)@),
        keyed_map(final(v)@) == keyed_map(old(v)@).insert(x.key(), x),
        res < final(v)@.len(),
        final(v)@[res as int] == x,
        keyed_map(old(v)@).contains_key(x.key()) ==> final(v)@ == old(v)@.update(res as int, x),
        !keyed_map(old(v)@).contains_key(x.key()) ==> final(v)@ == old(v)@.insert(res as int, x),
{
    let ghost old_v = v@;
    let ghost k = x.key();
    let (found, pos) = locate(v, x.key_string());
    if found {
        v.set(pos, x);
        let ghost s = v@;
        assert(s == old_v.update(pos as int, x));
        assert(sorted_keys(s)) by {
            assert forall|i: int, j: int| 0 <= i < j < s.len() implies lex_lt(#[trigger] s[i].key(), #[trigger] s[j].key()) by {
                assert(lex_lt(old_v[i].key(), old_v[j].key()));
            }
        }
        proof { lemma_put_map(old_v, s, k, x, pos as int, true); }
    } else {
        v.insert(pos, x);
        let ghost s = v@;
        assert(s == old_v.insert(pos as int, x));
        assert(sorted_keys(s)) by {
            assert forall|i: int, j: int| 0 <= i < j < s.len() implies lex_lt(#[trigger] s[i].key(), #[trigger] s[j].key()) by {
                if j < pos {
                    assert(lex_lt(old_v[i].key(), old_v[j].key()));
                } else if j == pos {
                    assert(lex_lt(old_v[i].key(), k));
                } else if i < pos {
                    assert(lex_lt(old_v[i].key(), k));
                    assert(lex_lt(k, old_v[j - 1].key()));
                    lemma_lex_transitive(old_v[i].key(), k, old_v[j - 1].key());
                } else if i == pos {
                    assert(lex_lt(k, old_v[j - 1].key()));
                } else {
                    assert(lex_lt(old_v[i - 1].key(), old_v[j - 1].key()));
                }
            }
        }
        proof { lemma_put_map(old_v, s, k, x, pos as int, false); }
    }
    pos
}

proof fn lemma_put_map<T: Keyed>(old_v: Seq<T>, s: Seq<T>, k: Seq<char>, x: T, pos: int, found: bool)
    requires
        sorted_keys(old_v),
        sorted_keys(s),
        x.key() == k,
        found ==> 0 <= pos < old_v.len() && old_v[pos].key() == k && s == old_v.update(pos, x),
        !found ==> 0 <= pos <= old_v.len() && s == old_v.insert(pos, x)
            && forall|j: int| 0 <= j < old_v.len() ==> old_v[j].key() != k,
    ensures
        keyed_map(s) == keyed_map(old_v).insert(k, x),
{
    let m = keyed_map(old_v).insert(k, x);
    assert forall|q: Seq<char>| #[trigger] keyed_map(s).contains_key(q) == m.contains_key(q) by {
        if keyed_map(s).contains_key(q) {
            lemma_keyed_map_key(s, q);
            let i = choose|i: int| 0 <= i < s.len() && s[i].key() == q;
            if q != k {
                let oi = if found || i < pos { i } else { i - 1 };
                assert(s[i] == old_v[oi]);
                lemma_keyed_map_at(old_v, oi);
            }
        }
        if m.contains_key(q) {
            if q == k {
                lemma_keyed_map_at(s, pos);
            } else {
                lemma_keyed_map_key(old_v, q);
                let i = choose|i: int| 0 <= i < old_v.len() && old_v[i].key() == q;
                let si = if found || i < pos { i } else { i + 1 };
                assert(s[si] == old_v[i]);
                lemma_keyed_map_at(s, si);
            }
        }
    }
    assert forall|q: Seq<char>| keyed_map(s).contains_key(q) implies keyed_map(s)[q] == m[q] by {
        lemma_keyed_map_key(s, q);
        let i = choose|i: int| 0 <= i < s.len() && s[i].key() == q;
        lemma_keyed_map_at(s, i);
        if q == k {
            if i != pos {
                lemma_sorted_distinct(s, i, pos);
            }
        } else {
            let oi = if found || i < pos { i } else { i - 1 };
            assert(s[i] == old_v[oi]);
            lemma_keyed_map_at(old_v, oi);
        }
    }
    assert(keyed_map(s) =~= m);
}

/// Removes the item at `pos` of a sorted vector.
pub fn take_at<T: Keyed>(v: &mut Vec<T>, pos: usize) -> (res: T)
    requires
        sorted_keys(old(v)@),
        pos < old(v)@.len(),
    ensures
        sorted_keys(final(v)@),
        res == old(v)@[pos as int],
        final(v)@ == old(v)@.remove(pos as int),
        keyed_map(final(v)@) == keyed_map(old(v)@).remove(res.key()),
{
    let ghost old_v = v@;
    let r = v.remove(pos);
    let ghost s = v@;
    let ghost k = r.key();
    assert(sorted_keys(s)) by {
        assert forall|i: int, j: int| 0 <= i < j < s.len() implies lex_lt(#[trigger] s[i].key(), #[trigger] s[j].key()) by {
            let oi = if i < pos { i } else { i + 1 };
            let oj = if j < pos { j } else { j + 1 };
            assert(s[i] == old_v[oi] && s[j] == old_v[oj]);
        }
    }
    proof {
        let m = keyed_map(old_v).remove(k);
        assert forall|q: Seq<char>| #[trigger] keyed_map(s).contains_key(q) == m.contains_key(q) by {
            if keyed_map(s).contains_key(q) {
                lemma_keyed_map_key(s, q);
                let i = choose|i: int| 0 <= i < s.len() && s[i].key() == q;
                let oi = if i < pos { i } else { i + 1 };
                assert(s[i] == old_v[oi]);
                lemma_sorted_distinct(old_v, oi, pos as int);
                lemma_keyed_map_at(old_v, oi);
            }
            if m.contains_key(q) {
                lemma_keyed_map_key(old_v, q);
                let i = choose|i: int| 0 <= i < old_v.len() && old_v[i].key() == q;
                assert(i != pos);
                let si = if i < pos { i } else { i - 1 };
                assert(s[si] == old_v[i]);
                lemma_keyed_map_at(s, si);
            }
        }
        assert forall|q: Seq<char>| keyed_map(s).contains_key(q) implies keyed_map(s)[q] == m[q] by {
            lemma_keyed_map_key(s, q);
            let i = choose|i: int| 0 <= i < s.len() && s[i].key() == q;
            lemma_keyed_map_at(s, i);
            let oi = if i < pos { i } else { i + 1 };
            assert(s[i] == old_v[oi]);
            lemma_keyed_map_at(old_v, oi);
        }
        assert(keyed_map(s) =~= m);
    }
    r
}

} // verus!

verus! {

impl Keyed for String {
    open spec fn key(&self) -> Seq<char> {
        self@
    }

    fn key_string(&self) -> (res: &String) {
        self
    }
}

} // verus!
