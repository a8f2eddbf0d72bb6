//! Read queries of the native sidecar store: lookups, listings sorted by id, adjacency,
//! transitions and dangling nodes of a corpus.

use vstd::prelude::*;
use crate::keyed::Keyed;
use crate::native_state::{NativeEdge, NativeNode, NativePassage, NativeState, NativeVector, native_key, make_key};
use crate::strmap::StrMap;
use crate::text::{lex_lt, lex_less, lemma_lex_trichotomy, lemma_lex_transitive, lemma_lex_irreflexive, str_eq,
    find, lemma_find, find_chars, match_at, slice_chars, chars_of, to_lowercase, lowercase, split_whitespace, split_whitespace_exec};

verus! {

broadcast use vstd::seq_lib::group_seq_properties;

/// Keys never decrease along `s` (equal keys may follow each other).
pub open spec fn keys_nondecreasing<T: Keyed>(s: Seq<T>) -> bool {
    forall|i: int, j: int| 0 <= i < j < s.len() ==> !lex_lt(#[trigger] s[j].key(), #[trigger] s[i].key())
}

/// Sorts items by key; items with equal keys may come in any order.
pub fn sort_by_key<T: Keyed>(v: Vec<T>) -> (res: Vec<T>)
    ensures
        keys_nondecreasing(res@),
        res@.to_multiset() == v@.to_multiset(),
{
    let mut rest = v;
    let mut out: Vec<T> = Vec::new();
    while rest.len() > 0
        invariant
            keys_nondecreasing(out@),
            out@.to_multiset().add(rest@.to_multiset()) == v@.to_multiset(),
        decreases rest@.len(),
    {
        let ghost r = rest@;
        let x = rest.pop().unwrap();
        assert(r == rest@.push(x));
        let mut p: usize = 0;
        while p < out.len() && !lex_less(x.key_string(), out[p].key_string())
            invariant
                p <= out@.len(),
                forall|j: int| 0 <= j < p ==> !lex_lt(x.key(), #[trigger] out@[j].key()),
            decreases out@.len() - p,
        {
            p += 1;
        }
        let ghost o = out@;
        proof {
            assert forall|j: int| p <= j < o.len() implies lex_lt(x.key(), #[trigger] o[j].key()) by {
                lemma_lex_trichotomy(x.key(), o[p as int].key());
                if j > p {
                    assert(!lex_lt(o[j].key(), o[p as int].key()));
                    lemma_lex_trichotomy(o[p as int].key(), o[j].key());
                    if o[p as int].key() != o[j].key() {
                        lemma_lex_transitive(x.key(), o[p as int].key(), o[j].key());
                    }
                }
            }
        }
        out.insert(p, x);
        proof {
            let s = out@;
            assert(s == o.insert(p as int, x));
            assert forall|i: int, j: int| 0 <= i < j < s.len() implies !lex_lt(#[trigger] s[j].key(), #[trigger] s[i].key()) by {
                if j < p {
                    assert(s[i] == o[i] && s[j] == o[j]);
                } else if j == p {
                    assert(s[i] == o[i]);
                    assert(!lex_lt(x.key(), o[i].key()));
                } else if i < p {
                    assert(s[i] == o[i] && s[j] == o[j - 1]);
                    assert(lex_lt(x.key(), o[j - 1].key()));
                    assert(!lex_lt(x.key(), o[i].key()));
                    lemma_lex_trichotomy(x.key(), o[i].key());
                    if o[i].key() != x.key() {
                        lemma_lex_transitive(o[i].key(), x.key(), o[j - 1].key());
                    }
                    lemma_lex_trichotomy(o[i].key(), o[j - 1].key());
                } else if i == p {
                    assert(s[j] == o[j - 1]);
                    assert(lex_lt(x.key(), o[j - 1].key()));
                    lemma_lex_trichotomy(x.key(), o[j - 1].key());
                } else {
                    assert(s[i] == o[i - 1] && s[j] == o[j - 1]);
                }
            }
            vstd::seq_lib::to_multiset_insert(o, p as int, x);
            assert(r.to_multiset() == rest@.to_multiset().insert(x));
        }
    }
    proof {
        assert(rest@ =~= Seq::<T>::empty());
        assert(rest@.to_multiset() =~= vstd::multiset::Multiset::<T>::empty());
    }
    out
}

/// Mapping a function over two sequences with the same items gives sequences with the same items.
pub proof fn lemma_map_values_multiset<A, B>(s: Seq<A>, t: Seq<A>, f: spec_fn(A) -> B)
    requires
        s.to_multiset() == t.to_multiset(),
    ensures
        s.map_values(f).to_multiset() == t.map_values(f).to_multiset(),
    decreases s.len(),
{
    if s.len() == 0 {
        assert(t.to_multiset().len() == 0);
        assert(t.len() == 0);
        assert(s.map_values(f) =~= Seq::<B>::empty());
        assert(t.map_values(f) =~= Seq::<B>::empty());
    } else {
        let x = s.last();
        let s1 = s.drop_last();
        assert(s =~= s1.push(x));
        assert(s.to_multiset() == s1.to_multiset().insert(x));
        assert(t.to_multiset().count(x) > 0);
        assert(t.contains(x));
        let j = choose|j: int| 0 <= j < t.len() && t[j] == x;
        let t1 = t.remove(j);
        vstd::seq_lib::to_multiset_remove(t, j);
        assert(t1.to_multiset() == t.to_multiset().remove(x));
        assert(s1.to_multiset() =~= s.to_multiset().remove(x));
        lemma_map_values_multiset(s1, t1, f);
        assert(s.map_values(f) =~= s1.map_values(f).push(f(x)));
        assert(t.map_values(f) =~= t1.map_values(f).insert(j, f(x)));
        vstd::seq_lib::to_multiset_insert(t1.map_values(f), j, f(x));
    }
}

impl Keyed for NativeNode {
    open spec fn key(&self) -> Seq<char> {
        self.node_id@
    }

    fn key_string(&self) -> (res: &String) {
        &self.node_id
    }
}

impl Keyed for NativeEdge {
    open spec fn key(&self) -> Seq<char> {
        self.edge_id@
    }

    fn key_string(&self) -> (res: &String) {
        &self.edge_id
    }
}

impl<'a, T: Keyed> Keyed for &'a T {
    open spec fn key(&self) -> Seq<char> {
        (**self).key()
    }

    fn key_string(&self) -> (res: &String) {
        (**self).key_string()
    }
}

/// Whether a node belongs to `corpus` and, where one is given, to `layer`.
pub open spec fn node_selected(n: NativeNode, corpus: Seq<char>, layer: Option<Seq<char>>) -> bool {
    n.corpus_id@ == corpus && (layer matches Some(l) ==> n.layer@ == l)
}

/// Whether an edge belongs to `corpus` and, where one is given, leaves `source`.
pub open spec fn edge_selected(e: NativeEdge, corpus: Seq<char>, source: Option<Seq<char>>) -> bool {
    e.corpus_id@ == corpus && (source matches Some(s) ==> e.source_node_id@ == s)
}

/// Whether an edge touches the node stored under key `k`: the key of its source or of its
/// target (each taken in the edge's corpus) is `k`.
pub open spec fn edge_touches(e: NativeEdge, k: Seq<char>) -> bool {
    native_key(e.corpus_id@, e.source_node_id@) == k || native_key(e.corpus_id@, e.target_node_id@) == k
}

/// One more item of a sequence, filtered.
pub proof fn lemma_filter_step<A>(s: Seq<A>, i: int, pred: spec_fn(A) -> bool)
    requires
        0 <= i < s.len(),
    ensures
        s.take(i + 1).filter(pred) == (if pred(s[i]) { s.take(i).filter(pred).push(s[i]) } else { s.take(i).filter(pred) }),
{
    reveal(Seq::filter);
    assert(s.take(i + 1).drop_last() =~= s.take(i));
    assert(s.take(i + 1).last() == s[i]);
}

/// The items a reference list points at.
pub open spec fn derefs<T>(s: Seq<&T>) -> Seq<T> {
    s.map_values(|r: &T| *r)
}

/// The node stored under the key of `corpus` and `node_id`, if any.
pub fn get_node<'a>(state: &'a NativeState, corpus: &str, node_id: &str) -> (res: Option<&'a NativeNode>)
    ensures
        match res {
            Some(n) => state.nodes@.contains_key(native_key(corpus@, node_id@)) && *n == state.nodes@[native_key(corpus@, node_id@)],
            None => !state.nodes@.contains_key(native_key(corpus@, node_id@)),
        },
{
    let k = make_key(corpus, node_id);
    state.nodes.get(k.as_str())
}

/// The nodes of a corpus, of one layer where one is given, sorted by node id.
pub fn nodes_of<'a>(state: &'a NativeState, corpus: &str, layer: Option<&str>) -> (res: Vec<&'a NativeNode>)
    ensures
        keys_nondecreasing(res@),
        derefs(res@).to_multiset() == state.nodes.values().filter(
            |n: NativeNode| node_selected(n, corpus@, crate::graph::opt_str_view(layer))).to_multiset(),
{
    let ghost vals = state.nodes.values();
    let ghost pred = |n: NativeNode| node_selected(n, corpus@, crate::graph::opt_str_view(layer));
    let mut cand: Vec<&'a NativeNode> = Vec::new();
    let mut i: usize = 0;
    while i < state.nodes.len()
        invariant
            vals == state.nodes.values(),
            pred == (|n: NativeNode| node_selected(n, corpus@, crate::graph::opt_str_view(layer))),
            vals.len() == state.nodes.entries().len(),
            i <= vals.len(),
            derefs(cand@) == vals.take(i as int).filter(pred),
        decreases vals.len() - i,
    {
        let (_, n) = state.nodes.entry_at(i);
        assert(vals.take(i + 1).drop_last() =~= vals.take(i as int));
        assert(vals[i as int] == *n);
        let keep = str_eq(n.corpus_id.as_str(), corpus) && match layer {
            Some(l) => str_eq(n.layer.as_str(), l),
            None => true,
        };
        let ghost before = cand@;
        proof { lemma_filter_step(vals, i as int, pred); }
        assert(keep == pred(*n));
        if keep {
            cand.push(n);
            assert(derefs(cand@) =~= derefs(before).push(*n));
        }
        i += 1;
    }
    assert(vals.take(vals.len() as int) =~= vals);
    let sorted = sort_by_key(cand);
    proof { lemma_map_values_multiset(sorted@, cand@, |r: &NativeNode| *r); }
    sorted
}

/// The edges of a corpus, leaving one node where one is given, sorted by edge id.
pub fn edges_of<'a>(state: &'a NativeState, corpus: &str, source: Option<&str>) -> (res: Vec<&'a NativeEdge>)
    ensures
        keys_nondecreasing(res@),
        derefs(res@).to_multiset() == state.edges.values().filter(
            |e: NativeEdge| edge_selected(e, corpus@, crate::graph::opt_str_view(source))).to_multiset(),
{
    let ghost vals = state.edges.values();
    let ghost pred = |e: NativeEdge| edge_selected(e, corpus@, crate::graph::opt_str_view(source));
    let mut cand: Vec<&'a NativeEdge> = Vec::new();
    let mut i: usize = 0;
    while i < state.edges.len()
        invariant
            vals == state.edges.values(),
            pred == (|e: NativeEdge| edge_selected(e, corpus@, crate::graph::opt_str_view(source))),
            vals.len() == state.edges.entries().len(),
            i <= vals.len(),
            derefs(cand@) == vals.take(i as int).filter(pred),
        decreases vals.len() - i,
    {
        let (_, e) = state.edges.entry_at(i);
        assert(vals.take(i + 1).drop_last() =~= vals.take(i as int));
        assert(vals[i as int] == *e);
        let keep = str_eq(e.corpus_id.as_str(), corpus) && match source {
            Some(x) => str_eq(e.source_node_id.as_str(), x),
            None => true,
        };
        let ghost before = cand@;
        proof { lemma_filter_step(vals, i as int, pred); }
        assert(keep == pred(*e));
        if keep {
            cand.push(e);
            assert(derefs(cand@) =~= derefs(before).push(*e));
        }
        i += 1;
    }
    assert(vals.take(vals.len() as int) =~= vals);
    let sorted = sort_by_key(cand);
    proof { lemma_map_values_multiset(sorted@, cand@, |r: &NativeEdge| *r); }
    sorted
}

/// The edges touching the node of `corpus` and `node_id`, sorted by edge id.
pub fn adjacent_edges<'a>(state: &'a NativeState, corpus: &str, node_id: &str) -> (res: Vec<&'a NativeEdge>)
    ensures
        keys_nondecreasing(res@),
        derefs(res@).to_multiset() == state.edges.values().filter(
            |e: NativeEdge| edge_touches(e, native_key(corpus@, node_id@))).to_multiset(),
{
    let k = make_key(corpus, node_id);
    let ghost vals = state.edges.values();
    let ghost pred = |e: NativeEdge| edge_touches(e, native_key(corpus@, node_id@));
    let mut cand: Vec<&'a NativeEdge> = Vec::new();
    let mut i: usize = 0;
    while i < state.edges.len()
        invariant
            vals == state.edges.values(),
            pred == (|e: NativeEdge| edge_touches(e, native_key(corpus@, node_id@))),
            vals.len() == state.edges.entries().len(),
            i <= vals.len(),
            k@ == native_key(corpus@, node_id@),
            derefs(cand@) == vals.take(i as int).filter(pred),
        decreases vals.len() - i,
    {
        let (_, e) = state.edges.entry_at(i);
        assert(vals.take(i + 1).drop_last() =~= vals.take(i as int));
        assert(vals[i as int] == *e);
        let sk = make_key(e.corpus_id.as_str(), e.source_node_id.as_str());
        let tk = make_key(e.corpus_id.as_str(), e.target_node_id.as_str());
        let ghost before = cand@;
        proof { lemma_filter_step(vals, i as int, pred); }
        let keep = str_eq(sk.as_str(), k.as_str()) || str_eq(tk.as_str(), k.as_str());
        assert(keep == pred(*e));
        if keep {
            cand.push(e);
            assert(derefs(cand@) =~= derefs(before).push(*e));
        }
        i += 1;
    }
    assert(vals.take(vals.len() as int) =~= vals);
    let sorted = sort_by_key(cand);
    proof { lemma_map_values_multiset(sorted@, cand@, |r: &NativeEdge| *r); }
    sorted
}

/// How many nodes belong to a corpus.
pub fn node_count(state: &NativeState, corpus: &str) -> (res: usize)
    ensures
        res == state.nodes.values().filter(|n: NativeNode| node_selected(n, corpus@, None)).len(),
{
    let ghost vals = state.nodes.values();
    let ghost pred = |n: NativeNode| node_selected(n, corpus@, None);
    let mut count: usize = 0;
    let mut i: usize = 0;
    while i < state.nodes.len()
        invariant
            vals == state.nodes.values(),
            pred == (|n: NativeNode| node_selected(n, corpus@, None)),
            vals.len() == state.nodes.entries().len(),
            i <= vals.len(),
            count == vals.take(i as int).filter(pred).len(),
            count <= i,
        decreases vals.len() - i,
    {
        let (_, n) = state.nodes.entry_at(i);
        assert(vals.take(i + 1).drop_last() =~= vals.take(i as int));
        assert(vals[i as int] == *n);
        proof { lemma_filter_step(vals, i as int, pred); }
        if str_eq(n.corpus_id.as_str(), corpus) {
            count = count + 1;
        }
        i += 1;
    }
    assert(vals.take(vals.len() as int) =~= vals);
    count
}

/// A transition of the projection: an edge's source, target and weight bits.
#[derive(Debug)]
pub struct Transition {
    pub source_node_id: String,
    pub target_node_id: String,
    pub weight: u64,
}

impl Keyed for Transition {
    open spec fn key(&self) -> Seq<char> {
        self.source_node_id@
    }

    fn key_string(&self) -> (res: &String) {
        &self.source_node_id
    }
}

/// The transition of an edge.
pub open spec fn transition_of(e: NativeEdge) -> Transition {
    Transition { source_node_id: e.source_node_id, target_node_id: e.target_node_id, weight: e.weight }
}

/// The transitions of the edges of a corpus, sorted by source node id.
pub fn transitions(state: &NativeState, corpus: &str) -> (res: Vec<Transition>)
    ensures
        keys_nondecreasing(res@),
        res@.to_multiset() == state.edges.values().filter(|e: NativeEdge| edge_selected(e, corpus@, None))
            .map_values(|e: NativeEdge| transition_of(e)).to_multiset(),
{
    let ghost vals = state.edges.values();
    let ghost pred = |e: NativeEdge| edge_selected(e, corpus@, None);
    let ghost f = |e: NativeEdge| transition_of(e);
    let mut cand: Vec<Transition> = Vec::new();
    let mut i: usize = 0;
    while i < state.edges.len()
        invariant
            vals == state.edges.values(),
            pred == (|e: NativeEdge| edge_selected(e, corpus@, None)),
            f == (|e: NativeEdge| transition_of(e)),
            vals.len() == state.edges.entries().len(),
            i <= vals.len(),
            cand@ == vals.take(i as int).filter(pred).map_values(f),
        decreases vals.len() - i,
    {
        let (_, e) = state.edges.entry_at(i);
        assert(vals[i as int] == *e);
        let ghost before = cand@;
        proof { lemma_filter_step(vals, i as int, pred); }
        if str_eq(e.corpus_id.as_str(), corpus) {
            let t = Transition {
                source_node_id: e.source_node_id.clone(),
                target_node_id: e.target_node_id.clone(),
                weight: e.weight,
            };
            assert(t == transition_of(*e));
            cand.push(t);
            assert(vals.take(i + 1).filter(pred) == vals.take(i as int).filter(pred).push(*e));
            assert(vals.take(i + 1).filter(pred).map_values(f) =~= before.push(f(*e)));
        }
        i += 1;
    }
    assert(vals.take(vals.len() as int) =~= vals);
    let sorted = sort_by_key(cand);
    sorted
}

/// Whether an edge of the corpus leaves the node with id `id`.
pub open spec fn has_outgoing(edges: Seq<NativeEdge>, corpus: Seq<char>, id: Seq<char>) -> bool {
    exists|j: int| 0 <= j < edges.len() && edges[j].corpus_id@ == corpus && #[trigger] edges[j].source_node_id@ == id
}

/// The ids of the nodes of a corpus that no edge of the corpus leaves, sorted.
pub fn dangling_nodes(state: &NativeState, corpus: &str) -> (res: Vec<String>)
    ensures
        keys_nondecreasing(res@),
        res@.to_multiset() == state.nodes.values().filter(
            |n: NativeNode| n.corpus_id@ == corpus@ && !has_outgoing(state.edges.values(), corpus@, n.node_id@))
            .map_values(|n: NativeNode| n.node_id).to_multiset(),
{
    let ghost evals = state.edges.values();
    let mut sources: Vec<String> = Vec::new();
    let mut i: usize = 0;
    while i < state.edges.len()
        invariant
            evals == state.edges.values(),
            evals.len() == state.edges.entries().len(),
            i <= evals.len(),
            forall|id: Seq<char>| strings_view_of(sources@).contains(id)
                <==> has_outgoing(evals.take(i as int), corpus@, id),
        decreases evals.len() - i,
    {
        let (_, e) = state.edges.entry_at(i);
        assert(evals[i as int] == *e);
        let ghost before = sources@;
        let ghost t = evals.take(i as int);
        let ghost t1 = evals.take(i + 1);
        assert(t1 =~= t.push(*e));
        if str_eq(e.corpus_id.as_str(), corpus) {
            sources.push(e.source_node_id.clone());
            assert(strings_view_of(sources@) =~= strings_view_of(before).push(e.source_node_id@));
        }
        assert forall|id: Seq<char>| strings_view_of(sources@).contains(id) <==> has_outgoing(t1, corpus@, id) by {
            if has_outgoing(t1, corpus@, id) {
                let j = choose|j: int| 0 <= j < t1.len() && t1[j].corpus_id@ == corpus@ && #[trigger] t1[j].source_node_id@ == id;
                if j < t.len() {
                    assert(t[j] == t1[j]);
                    assert(has_outgoing(t, corpus@, id));
                    assert(strings_view_of(before).contains(id));
                    let k = choose|k: int| 0 <= k < strings_view_of(before).len() && strings_view_of(before)[k] == id;
                    assert(strings_view_of(sources@)[k] == id);
                } else {
                    assert(strings_view_of(sources@).last() == id);
                }
            }
            if strings_view_of(sources@).contains(id) {
                let k = choose|k: int| 0 <= k < strings_view_of(sources@).len() && strings_view_of(sources@)[k] == id;
                if k < before.len() {
                    assert(strings_view_of(before)[k] == id);
                    assert(strings_view_of(before).contains(id));
                    let j = choose|j: int| 0 <= j < t.len() && t[j].corpus_id@ == corpus@ && #[trigger] t[j].source_node_id@ == id;
                    assert(t1[j] == t[j]);
                } else {
                    assert(t1[i as int] == *e);
                    assert(t1[i as int].source_node_id@ == id);
                }
            }
        }
        i += 1;
    }
    assert(evals.take(evals.len() as int) =~= evals);
    let ghost vals = state.nodes.values();
    let ghost pred = |n: NativeNode| n.corpus_id@ == corpus@ && !has_outgoing(evals, corpus@, n.node_id@);
    let ghost f = |n: NativeNode| n.node_id;
    let mut ids: Vec<String> = Vec::new();
    let mut i: usize = 0;
    while i < state.nodes.len()
        invariant
            vals == state.nodes.values(),
            evals == state.edges.values(),
            pred == (|n: NativeNode| n.corpus_id@ == corpus@ && !has_outgoing(evals, corpus@, n.node_id@)),
            f == (|n: NativeNode| n.node_id),
            vals.len() == state.nodes.entries().len(),
            i <= vals.len(),
            forall|id: Seq<char>| strings_view_of(sources@).contains(id) <==> has_outgoing(evals, corpus@, id),
            ids@ == vals.take(i as int).filter(pred).map_values(f),
        decreases vals.len() - i,
    {
        let (_, n) = state.nodes.entry_at(i);
        assert(vals[i as int] == *n);
        let ghost before = ids@;
        proof { lemma_filter_step(vals, i as int, pred); }
        let outgoing = crate::graph::labels_contain(&sources, n.node_id.as_str());
        proof {
            assert(crate::graph::strings_view(sources@) =~= strings_view_of(sources@));
        }
        if str_eq(n.corpus_id.as_str(), corpus) && !outgoing {
            ids.push(n.node_id.clone());
            assert(vals.take(i + 1).filter(pred).map_values(f) =~= before.push(f(*n)));
        }
        i += 1;
    }
    assert(vals.take(vals.len() as int) =~= vals);
    sort_by_key(ids)
}

/// The character sequences of a list of strings.
pub open spec fn strings_view_of(v: Seq<String>) -> Seq<Seq<char>> {
    v.map_values(|s: String| s@)
}

/// The vectors stored for a corpus namespace: those whose corpus and namespace are the ones
/// asked for, in store order.
pub fn vectors_of<'a>(state: &'a NativeState, corpus: &str, namespace: &str) -> (res: Vec<&'a NativeVector>)
    ensures
        derefs(res@) == state.vectors.values().filter(
            |v: NativeVector| v.corpus_id@ == corpus@ && v.namespace@ == namespace@),
{
    let ghost vals = state.vectors.values();
    let ghost pred = |v: NativeVector| v.corpus_id@ == corpus@ && v.namespace@ == namespace@;
    let mut out: Vec<&'a NativeVector> = Vec::new();
    let mut i: usize = 0;
    while i < state.vectors.len()
        invariant
            vals == state.vectors.values(),
            pred == (|v: NativeVector| v.corpus_id@ == corpus@ && v.namespace@ == namespace@),
            vals.len() == state.vectors.entries().len(),
            i <= vals.len(),
            derefs(out@) == vals.take(i as int).filter(pred),
        decreases vals.len() - i,
    {
        let (_, v) = state.vectors.entry_at(i);
        assert(vals[i as int] == *v);
        let ghost before = out@;
        proof { lemma_filter_step(vals, i as int, pred); }
        if str_eq(v.corpus_id.as_str(), corpus) && str_eq(v.namespace.as_str(), namespace) {
            out.push(v);
            assert(derefs(out@) =~= derefs(before).push(*v));
        }
        i += 1;
    }
    assert(vals.take(vals.len() as int) =~= vals);
    out
}

/// How many times `p` occurs in `s`, counting non-overlapping occurrences from the left
/// (`str::matches`); the empty pattern occurs at each of the `s.len() + 1` boundaries.
pub open spec fn count_matches(s: Seq<char>, p: Seq<char>) -> nat
    decreases s.len(),
{
    if p.len() == 0 {
        s.len() + 1
    } else {
        match find(s, p) {
            None => 0,
            Some(i) => {
                proof { lemma_find(s, p); }
                1 + count_matches(s.skip(i + p.len()), p)
            },
        }
    }
}

/// `n`, or the largest `u64` when `n` is larger.
pub open spec fn sat(n: nat) -> u64 {
    if n > u64::MAX { u64::MAX } else { n as u64 }
}

fn count_matches_exec(s: &Vec<char>, p: &Vec<char>) -> (res: u64)
    ensures
        res == sat(count_matches(s@, p@)),
{
    if p.len() == 0 {
        return (s.len() as u64).saturating_add(1);
    }
    let mut cur = slice_chars(s, 0, s.len());
    let mut n: u64 = 0;
    let ghost mut exact: nat = 0;
    assert(s@.subrange(0, s@.len() as int) =~= s@);
    loop
        invariant
            p@.len() > 0,
            count_matches(s@, p@) == exact + count_matches(cur@, p@),
            n == sat(exact),
        decreases cur@.len(),
    {
        match find_chars(&cur, p) {
            None => {
                return n;
            },
            Some(i) => {
                proof { lemma_find(cur@, p@); }
                assert(match_at(cur@, p@, i as int));
                let cl = cur.len();
                assert(i + p@.len() <= cl);
                let next = slice_chars(&cur, i + p.len(), cl);
                assert(next@ =~= cur@.skip(i + p@.len()));
                proof { exact = exact + 1; }
                n = n.saturating_add(1);
                cur = next;
            },
        }
    }
}

/// The score of a text for some tokens: how often the tokens occur in it, added up.
pub open spec fn token_score(text: Seq<char>, tokens: Seq<Seq<char>>) -> nat
    decreases tokens.len(),
{
    if tokens.len() == 0 {
        0
    } else {
        token_score(text, tokens.drop_last()) + count_matches(text, tokens.last())
    }
}

fn token_score_exec(text: &Vec<char>, tokens: &Vec<Vec<char>>) -> (res: u64)
    ensures
        res == sat(token_score(text@, tokens@.map_values(|t: Vec<char>| t@))),
{
    let ghost ts = tokens@.map_values(|t: Vec<char>| t@);
    let mut total: u64 = 0;
    let mut i: usize = 0;
    while i < tokens.len()
        invariant
            ts == tokens@.map_values(|t: Vec<char>| t@),
            i <= tokens@.len(),
            total == sat(token_score(text@, ts.take(i as int))),
        decreases tokens@.len() - i,
    {
        assert(ts.take(i + 1).drop_last() =~= ts.take(i as int));
        assert(ts.take(i + 1).last() == tokens@[i as int]@);
        let c = count_matches_exec(text, &tokens[i]);
        total = total.saturating_add(c);
        i += 1;
    }
    assert(ts.take(tokens@.len() as int) =~= ts);
    total
}

/// A passage, the document it belongs to, and its score.
#[derive(Debug)]
pub struct PassageScore {
    pub passage_id: String,
    pub document_id: String,
    pub score: u64,
}

/// Whether `a` ranks before `b`: a higher score; at the same score, a lower document id; at
/// the same document id too, a lower passage id.
pub open spec fn ranks_before(a: PassageScore, b: PassageScore) -> bool {
    ||| a.score > b.score
    ||| (a.score == b.score && lex_lt(a.document_id@, b.document_id@))
    ||| (a.score == b.score && a.document_id@ == b.document_id@ && lex_lt(a.passage_id@, b.passage_id@))
}

/// No item ranks before an earlier one.
pub open spec fn ranked(s: Seq<PassageScore>) -> bool {
    forall|i: int, j: int| 0 <= i < j < s.len() ==> !ranks_before(#[trigger] s[j], #[trigger] s[i])
}

proof fn lemma_rank_total(a: PassageScore, b: PassageScore)
    ensures
        ranks_before(a, b) || ranks_before(b, a)
            || (a.score == b.score && a.document_id@ == b.document_id@ && a.passage_id@ == b.passage_id@),
        !(ranks_before(a, b) && ranks_before(b, a)),
{
    lemma_lex_trichotomy(a.passage_id@, b.passage_id@);
    lemma_lex_trichotomy(a.document_id@, b.document_id@);
    crate::text::lemma_lex_irreflexive(a.document_id@);
    crate::text::lemma_lex_irreflexive(a.passage_id@);
}

proof fn lemma_rank_transitive(a: PassageScore, b: PassageScore, c: PassageScore)
    requires
        ranks_before(a, b),
        !ranks_before(c, b),
    ensures
        ranks_before(a, c),
{
    lemma_rank_total(b, c);
    lemma_lex_trichotomy(b.document_id@, c.document_id@);
    if a.score == b.score && b.score == c.score {
        if lex_lt(a.document_id@, b.document_id@) && lex_lt(b.document_id@, c.document_id@) {
            lemma_lex_transitive(a.document_id@, b.document_id@, c.document_id@);
        }
        if a.document_id@ == b.document_id@ && b.document_id@ == c.document_id@
            && lex_lt(a.passage_id@, b.passage_id@) && lex_lt(b.passage_id@, c.passage_id@) {
            lemma_lex_transitive(a.passage_id@, b.passage_id@, c.passage_id@);
        }
    }
}

fn ranks_before_exec(a: &PassageScore, b: &PassageScore) -> (res: bool)
    ensures
        res == ranks_before(*a, *b),
{
    a.score > b.score
        || (a.score == b.score && lex_less(&a.document_id, &b.document_id))
        || (a.score == b.score && str_eq(a.document_id.as_str(), b.document_id.as_str())
            && lex_less(&a.passage_id, &b.passage_id))
}

/// Sorts scored passages into rank order.
pub fn rank_passages(v: Vec<PassageScore>) -> (res: Vec<PassageScore>)
    ensures
        ranked(res@),
        res@.to_multiset() == v@.to_multiset(),
{
    let mut rest = v;
    let mut out: Vec<PassageScore> = Vec::new();
    while rest.len() > 0
        invariant
            ranked(out@),
            out@.to_multiset().add(rest@.to_multiset()) == v@.to_multiset(),
        decreases rest@.len(),
    {
        let ghost r = rest@;
        let x = rest.pop().unwrap();
        assert(r == rest@.push(x));
        let mut p: usize = 0;
        while p < out.len() && !ranks_before_exec(&x, &out[p])
            invariant
                p <= out@.len(),
                forall|j: int| 0 <= j < p ==> !ranks_before(x, #[trigger] out@[j]),
            decreases out@.len() - p,
        {
            p += 1;
        }
        let ghost o = out@;
        proof {
            assert forall|j: int| p <= j < o.len() implies ranks_before(x, #[trigger] o[j]) by {
                if j > p {
                    assert(!ranks_before(o[j], o[p as int]));
                    lemma_rank_transitive(x, o[p as int], o[j]);
                }
            }
        }
        out.insert(p, x);
        proof {
            let s = out@;
            assert(s == o.insert(p as int, x));
            assert forall|i: int, j: int| 0 <= i < j < s.len() implies !ranks_before(#[trigger] s[j], #[trigger] s[i]) by {
                if j < p {
                    assert(s[i] == o[i] && s[j] == o[j]);
                } else if j == p {
                    assert(s[i] == o[i]);
                } else if i < p {
                    assert(s[i] == o[i] && s[j] == o[j - 1]);
                    assert(ranks_before(x, o[j - 1]));
                    if ranks_before(o[j - 1], o[i]) {
                        lemma_rank_transitive(x, o[j - 1], o[i]);
                        lemma_rank_total(o[j - 1], o[i]);
                    }
                } else if i == p {
                    assert(s[j] == o[j - 1]);
                    lemma_rank_total(x, o[j - 1]);
                } else {
                    assert(s[i] == o[i - 1] && s[j] == o[j - 1]);
                }
            }
            vstd::seq_lib::to_multiset_insert(o, p as int, x);
            assert(r.to_multiset() == rest@.to_multiset().insert(x));
        }
    }
    proof {
        assert(rest@ =~= Seq::<PassageScore>::empty());
        assert(rest@.to_multiset() =~= vstd::multiset::Multiset::<PassageScore>::empty());
    }
    out
}

/// The score of a passage for a lower-cased query's tokens.
pub open spec fn passage_score(p: NativePassage, tokens: Seq<Seq<char>>) -> u64 {
    sat(token_score(lowercase(p.text@), tokens))
}

/// The scored passages of a corpus that match the query at all, in store order.
pub open spec fn scored_passages(vals: Seq<NativePassage>, corpus: Seq<char>, tokens: Seq<Seq<char>>) -> Seq<PassageScore> {
    vals.filter(|p: NativePassage| p.corpus_id@ == corpus && passage_score(p, tokens) > 0)
        .map_values(|p: NativePassage| PassageScore { passage_id: p.passage_id, document_id: p.document_id, score: passage_score(p, tokens) })
}

/// `res` is the first `k` items of a rank-ordered arrangement of `cands`.
pub open spec fn top_ranked(res: Seq<PassageScore>, cands: Seq<PassageScore>, k: usize) -> bool {
    exists|full: Seq<PassageScore>| ranked(full) && full.to_multiset() == cands.to_multiset()
        && res == (if k < full.len() { full.take(k as int) } else { full })
}

/// The `top_k` best passages of a corpus for a query: the query is lower-cased and split at
/// white space; a passage scores how often the tokens occur in its lower-cased text; passages
/// that score are ranked by score, then by document id, then by passage id.
pub fn lexical_search(state: &NativeState, corpus: &str, query: &str, top_k: usize) -> (res: Vec<PassageScore>)
    ensures
        top_ranked(res@, scored_passages(state.passages.values(), corpus@, split_whitespace(lowercase(query@))), top_k),
{
    let lower_query = to_lowercase(query);
    let tokens = split_whitespace_exec(&chars_of(lower_query.as_str()));
    let ghost ts = split_whitespace(lowercase(query@));
    assert(tokens@.map_values(|t: Vec<char>| t@) == ts);
    let ghost vals = state.passages.values();
    let ghost pred = |p: NativePassage| p.corpus_id@ == corpus@ && passage_score(p, ts) > 0;
    let ghost f = |p: NativePassage| PassageScore { passage_id: p.passage_id, document_id: p.document_id, score: passage_score(p, ts) };
    let mut cand: Vec<PassageScore> = Vec::new();
    let mut i: usize = 0;
    while i < state.passages.len()
        invariant
            vals == state.passages.values(),
            vals.len() == state.passages.entries().len(),
            tokens@.map_values(|t: Vec<char>| t@) == ts,
            pred == (|p: NativePassage| p.corpus_id@ == corpus@ && passage_score(p, ts) > 0),
            f == (|p: NativePassage| PassageScore { passage_id: p.passage_id, document_id: p.document_id, score: passage_score(p, ts) }),
            i <= vals.len(),
            cand@ == vals.take(i as int).filter(pred).map_values(f),
        decreases vals.len() - i,
    {
        let (_, p) = state.passages.entry_at(i);
        assert(vals[i as int] == *p);
        let ghost before = cand@;
        proof { lemma_filter_step(vals, i as int, pred); }
        if str_eq(p.corpus_id.as_str(), corpus) {
            let lower = to_lowercase(p.text.as_str());
            let score = token_score_exec(&chars_of(lower.as_str()), &tokens);
            assert(score == passage_score(*p, ts));
            if score > 0 {
                cand.push(PassageScore { passage_id: p.passage_id.clone(), document_id: p.document_id.clone(), score });
                assert(vals.take(i + 1).filter(pred).map_values(f) =~= before.push(f(*p)));
            }
        }
        i += 1;
    }
    assert(vals.take(vals.len() as int) =~= vals);
    let mut ranked_all = rank_passages(cand);
    let ghost full = ranked_all@;
    ranked_all.truncate(top_k);
    assert(top_ranked(ranked_all@, scored_passages(vals, corpus@, ts), top_k)) by {
        if top_k < full.len() {
            assert(ranked_all@ =~= full.take(top_k as int));
        }
    }
    ranked_all
}

} // verus!

verus! {

/// A passage's lexical score is a sum over the query tokens: the score for two token lists
/// together is the sum of their scores, a single token scores its occurrences in the text, and
/// no tokens score nothing.
pub proof fn lemma_token_score_sums(text: Seq<char>, a: Seq<Seq<char>>, b: Seq<Seq<char>>, t: Seq<char>)
    ensures
        token_score(text, a + b) == token_score(text, a) + token_score(text, b),
        token_score(text, seq![t]) == count_matches(text, t),
        token_score(text, Seq::<Seq<char>>::empty()) == 0,
    decreases b.len(),
{
    assert(seq![t].drop_last() =~= Seq::<Seq<char>>::empty());
    if b.len() == 0 {
        assert(a + b =~= a);
    } else {
        lemma_token_score_sums(text, a, b.drop_last(), t);
        assert((a + b).drop_last() =~= a + b.drop_last());
        assert((a + b).last() == b.last());
    }
}

} // verus!
