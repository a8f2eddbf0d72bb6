//! The store of the native sidecar: nodes, edges, vectors and passages of corpora, kept under
//! `corpus:id` keys, with memory snapshots and job checkpoints.

use vstd::prelude::*;
use crate::strmap::StrMap;
use crate::text::{chars_of, concat, string_from_chars};

verus! {

/// The reference of a node: its JSON text and the document ids the JSON names, as read from
/// `sourceDocumentIds` (its string items) and from `metadata.documentId`.
#[derive(Debug)]
pub struct NativeRef {
    pub json: String,
    pub source_document_ids: Option<Vec<String>>,
    pub metadata_document_id: Option<String>,
}

/// A node of a corpus.
#[derive(Debug)]
pub struct NativeNode {
    pub node_id: String,
    pub corpus_id: String,
    pub layer: String,
    pub reference: NativeRef,
    pub label: String,
}

/// An edge of a corpus; the weight is a float held by its IEEE-754 bits.
#[derive(Debug)]
pub struct NativeEdge {
    pub edge_id: String,
    pub corpus_id: String,
    pub source_node_id: String,
    pub target_node_id: String,
    pub relation: String,
    pub weight: u64,
    pub bridge_kind: Option<String>,
}

/// A vector of a corpus namespace; values are floats held by their bits. The metadata is kept
/// as JSON text, with the `documentId` it names (empty when it names none).
#[derive(Debug)]
pub struct NativeVector {
    pub id: String,
    pub corpus_id: String,
    pub namespace: String,
    pub values: Vec<u64>,
    pub metadata_json: String,
    pub metadata_document_id: String,
}

/// A text passage of a document.
#[derive(Debug)]
pub struct NativePassage {
    pub passage_id: String,
    pub corpus_id: String,
    pub document_id: String,
    pub text: String,
}

/// The whole store. Snapshots are kept by corpus and checkpoints by job, as JSON text.
#[derive(Debug)]
pub struct NativeState {
    pub nodes: StrMap<NativeNode>,
    pub edges: StrMap<NativeEdge>,
    pub vectors: StrMap<NativeVector>,
    pub passages: StrMap<NativePassage>,
    pub snapshots: StrMap<String>,
    pub checkpoints: StrMap<String>,
}

/// The key of an item: its corpus, a colon, and its id.
pub open spec fn native_key(corpus: Seq<char>, id: Seq<char>) -> Seq<char> {
    corpus + ":"@ + id
}

/// The key of an item: its corpus, a colon, and its id.
pub fn make_key(corpus: &str, id: &str) -> (res: String)
    ensures
        res@ == native_key(corpus@, id@),
{
    let v = concat(&concat(&chars_of(corpus), &chars_of(":")), &chars_of(id));
    string_from_chars(v.as_slice())
}

/// Items stored under the key of their corpus and id.
pub trait Stored {
    /// The item's corpus.
    spec fn corpus(&self) -> Seq<char>;

    /// The item's id within its corpus.
    spec fn local_id(&self) -> Seq<char>;

    /// The item's corpus.
    fn corpus_str(&self) -> (res: &String)
        ensures
            res@ == self.corpus();

    /// The item's id within its corpus.
    fn local_id_str(&self) -> (res: &String)
        ensures
            res@ == self.local_id();
}

impl Stored for NativeNode {
    open spec fn corpus(&self) -> Seq<char> { self.corpus_id@ }
    open spec fn local_id(&self) -> Seq<char> { self.node_id@ }
    fn corpus_str(&self) -> (res: &String) { &self.corpus_id }
    fn local_id_str(&self) -> (res: &String) { &self.node_id }
}

impl Stored for NativeEdge {
    open spec fn corpus(&self) -> Seq<char> { self.corpus_id@ }
    open spec fn local_id(&self) -> Seq<char> { self.edge_id@ }
    fn corpus_str(&self) -> (res: &String) { &self.corpus_id }
    fn local_id_str(&self) -> (res: &String) { &self.edge_id }
}

impl Stored for NativeVector {
    open spec fn corpus(&self) -> Seq<char> { self.corpus_id@ }
    open spec fn local_id(&self) -> Seq<char> { self.id@ }
    fn corpus_str(&self) -> (res: &String) { &self.corpus_id }
    fn local_id_str(&self) -> (res: &String) { &self.id }
}

impl Stored for NativePassage {
    open spec fn corpus(&self) -> Seq<char> { self.corpus_id@ }
    open spec fn local_id(&self) -> Seq<char> { self.passage_id@ }
    fn corpus_str(&self) -> (res: &String) { &self.corpus_id }
    fn local_id_str(&self) -> (res: &String) { &self.passage_id }
}

/// The parse error of the first item that failed to parse, if any.
pub open spec fn first_error<V>(items: Seq<Result<V, String>>) -> Option<Seq<char>>
    decreases items.len(),
{
    if items.len() == 0 {
        None
    } else {
        match items[0] {
            Err(e) => Some(e@),
            Ok(_) => first_error(items.drop_first()),
        }
    }
}

/// The map after storing the parsed items in order, each under its key.
pub open spec fn insert_all<V: Stored>(m: Map<Seq<char>, V>, items: Seq<Result<V, String>>) -> Map<Seq<char>, V>
    decreases items.len(),
{
    if items.len() == 0 {
        m
    } else {
        match items[0] {
            Err(_) => insert_all(m, items.drop_first()),
            Ok(v) => insert_all(m.insert(native_key(v.corpus(), v.local_id()), v), items.drop_first()),
        }
    }
}

/// A batch is stored whole or not at all: where an item failed to parse, the map stays as it
/// was and the first parse error is reported; else every item is stored in order under its key.
pub open spec fn upsert_all<V: Stored>(m: Map<Seq<char>, V>, items: Seq<Result<V, String>>)
    -> (Map<Seq<char>, V>, Option<Seq<char>>)
{
    match first_error(items) {
        Some(e) => (m, Some(e)),
        None => (insert_all(m, items), None),
    }
}

/// Stores a batch of parsed items whole: where an item failed to parse, nothing is stored and
/// the first parse error is returned; else every item is stored in order under its key.
pub fn upsert_items<V: Stored>(map: &mut StrMap<V>, items: Vec<Result<V, String>>) -> (res: Result<(), String>)
    ensures
        (final(map)@, match res { Ok(()) => None, Err(e) => Some(e@) }) == upsert_all(old(map)@, items@),
{
    let ghost orig = items@;
    let mut i: usize = 0;
    assert(orig.skip(0) =~= orig);
    while i < items.len()
        invariant
            orig == items@,
            i <= orig.len(),
            first_error(orig) == first_error(orig.skip(i as int)),
            map@ == old(map)@,
        decreases orig.len() - i,
    {
        assert(orig.skip(i as int).drop_first() =~= orig.skip(i as int + 1));
        match &items[i] {
            Err(e) => {
                let m = crate::text::owned(e.as_str());
                return Err(m);
            },
            Ok(_) => {},
        }
        i += 1;
    }
    assert(first_error(orig.skip(i as int)) is None);
    let mut rest = items;
    let ghost mut done: int = 0;
    while rest.len() > 0
        invariant
            0 <= done <= orig.len(),
            rest@ == orig.skip(done),
            insert_all(old(map)@, orig) == insert_all(map@, rest@),
        decreases rest@.len(),
    {
        let ghost r = rest@;
        let item = rest.remove(0);
        assert(rest@ =~= r.drop_first());
        assert(item == r[0]);
        match item {
            Err(_) => {},
            Ok(v) => {
                let k = make_key(v.corpus_str().as_str(), v.local_id_str().as_str());
                map.insert(k, v);
            },
        }
        proof { done = done + 1; }
        assert(rest@ =~= orig.skip(done));
    }
    Ok(())
}

/// The keys of `m` whose values satisfy `pred`.
pub open spec fn keys_where<V>(m: Map<Seq<char>, V>, pred: spec_fn(V) -> bool) -> Set<Seq<char>> {
    Set::new(|k: Seq<char>| m.contains_key(k) && pred(m[k]))
}

/// Whether one of the first `n` strings is `k`.
pub open spec fn in_prefix(keys: Seq<String>, n: int, k: Seq<char>) -> bool {
    exists|q: int| 0 <= q < n && #[trigger] keys[q]@ == k
}

/// A test on stored items.
pub trait ItemTest<V> {
    /// Whether the test holds of `v`.
    spec fn holds(&self, v: V) -> bool;

    /// Decides the test.
    fn test(&self, v: &V) -> (r: bool)
        ensures
            r == self.holds(*v);
}

/// Removes the entries whose values pass the test.
pub fn remove_where<V, T: ItemTest<V>>(m: &mut StrMap<V>, t: &T)
    ensures
        final(m)@ == old(m)@.remove_keys(keys_where(old(m)@, |v: V| t.holds(v))),
{
    let ghost pred = |v: V| t.holds(v);
    m.keys_are_distinct();
    let ghost es = m.entries();
    let ghost m0 = m@;
    let mut keys: Vec<String> = Vec::new();
    let mut i: usize = 0;
    while i < m.len()
        invariant
            es == m.entries(),
            m0 == m@,
            crate::strmap::keys_distinct(es),
            pred == (|v: V| t.holds(v)),
            i <= es.len(),
            forall|j: int| 0 <= j < keys@.len() ==> m0.contains_key(#[trigger] keys@[j]@) && pred(m0[keys@[j]@]),
            forall|j: int| 0 <= j < i && pred(es[j].1) ==> exists|q: int| 0 <= q < keys@.len() && #[trigger] keys@[q]@ == es[j].0@,
        decreases es.len() - i,
    {
        let (k, v) = m.entry_at(i);
        proof { m.lemma_entry_in_map(i as int); }
        let ghost before = keys@;
        let keep = t.test(v);
        if keep {
            keys.push(k.clone());
            assert(keys@[keys@.len() - 1]@ == es[i as int].0@);
        }
        proof {
            assert forall|jj: int| 0 <= jj < i + 1 && pred(es[jj].1) implies
                exists|q: int| 0 <= q < keys@.len() && #[trigger] keys@[q]@ == es[jj].0@ by {
                if jj < i {
                    let q = choose|q: int| 0 <= q < before.len() && #[trigger] before[q]@ == es[jj].0@;
                    assert(keys@[q] == before[q]);
                } else {
                    assert(keep);
                    assert(keys@[keys@.len() - 1]@ == es[jj].0@);
                }
            }
        }
        i += 1;
    }
    proof {
        assert forall|k: Seq<char>| keys_where(m0, pred).contains(k) implies
            exists|q: int| 0 <= q < keys@.len() && #[trigger] keys@[q]@ == k by {
            m.lemma_key_has_entry(k);
            let j = choose|j: int| 0 <= j < es.len() && es[j].0@ == k;
            m.lemma_entry_in_map(j);
        }
    }
    let ghost target = m0.remove_keys(keys_where(m0, pred));
    let mut j: usize = 0;
    while j < keys.len()
        invariant
            j <= keys@.len(),
            forall|q: int| 0 <= q < keys@.len() ==> m0.contains_key(#[trigger] keys@[q]@) && pred(m0[keys@[q]@]),
            forall|k: Seq<char>| keys_where(m0, pred).contains(k) ==> exists|q: int| 0 <= q < keys@.len() && #[trigger] keys@[q]@ == k,
            m@ == m0.remove_keys(Set::new(|k: Seq<char>| in_prefix(keys@, j as int, k))),
        decreases keys@.len() - j,
    {
        let ghost before = m@;
        m.remove(keys[j].as_str());
        assert(m@ =~= m0.remove_keys(Set::new(|k: Seq<char>| in_prefix(keys@, j + 1, k)))) by {
            assert forall|k: Seq<char>| #[trigger] in_prefix(keys@, j + 1, k)
                <==> (in_prefix(keys@, j as int, k) || k == keys@[j as int]@) by {
                if in_prefix(keys@, j + 1, k) {
                    let q = choose|q: int| 0 <= q < j + 1 && #[trigger] keys@[q]@ == k;
                    if q < j {} else {}
                }
                if k == keys@[j as int]@ {
                    assert(keys@[j as int]@ == k);
                }
            }
        }
        j += 1;
    }
    proof {
        assert forall|k: Seq<char>| keys_where(m0, pred).contains(k) <==>
            in_prefix(keys@, keys@.len() as int, k) by {
            if keys_where(m0, pred).contains(k) {
                let q = choose|q: int| 0 <= q < keys@.len() && #[trigger] keys@[q]@ == k;
                assert(in_prefix(keys@, keys@.len() as int, k));
            }
            if in_prefix(keys@, keys@.len() as int, k) {
                let q = choose|q: int| 0 <= q < keys@.len() && #[trigger] keys@[q]@ == k;
                assert(m0.contains_key(keys@[q]@));
            }
        }
        assert(m@ =~= target);
    }
}

} // verus!
