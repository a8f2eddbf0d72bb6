//! Writes of the native sidecar store: deletions by id, by document and by corpus, passage
//! indexing, and memory snapshots and checkpoints.

use vstd::prelude::*;
use crate::native_state::{NativeEdge, NativeNode, NativePassage, NativeRef, NativeState, NativeVector,
    keys_where, make_key, native_key, remove_where, ItemTest, Stored};
use crate::text::str_eq;
use crate::graph::{labels_contain, strings_view};

verus! {

/// Whether an edge of `corpus` leaves or enters the node with id `id`.
pub open spec fn edge_touches_id(e: NativeEdge, corpus: Seq<char>, id: Seq<char>) -> bool {
    e.corpus_id@ == corpus && (e.source_node_id@ == id || e.target_node_id@ == id)
}

/// The edges of a corpus that touch a node id.
pub struct TouchesId<'a> {
    pub corpus: &'a str,
    pub id: &'a str,
}

impl<'a> ItemTest<NativeEdge> for TouchesId<'a> {
    open spec fn holds(&self, e: NativeEdge) -> bool {
        edge_touches_id(e, self.corpus@, self.id@)
    }

    fn test(&self, e: &NativeEdge) -> (r: bool) {
        str_eq(e.corpus_id.as_str(), self.corpus)
            && (str_eq(e.source_node_id.as_str(), self.id) || str_eq(e.target_node_id.as_str(), self.id))
    }
}

/// Nodes and edges after deleting the nodes `ids` of `corpus` in order, each with the edges of
/// the corpus that touch it, and how many of the nodes were stored.
pub open spec fn delete_nodes_fold(nodes: Map<Seq<char>, NativeNode>, edges: Map<Seq<char>, NativeEdge>,
    corpus: Seq<char>, ids: Seq<Seq<char>>) -> (Map<Seq<char>, NativeNode>, Map<Seq<char>, NativeEdge>, nat)
    decreases ids.len(),
{
    if ids.len() == 0 {
        (nodes, edges, 0)
    } else {
        let k = native_key(corpus, ids[0]);
        let e1 = edges.remove_keys(keys_where(edges, |e: NativeEdge| edge_touches_id(e, corpus, ids[0])));
        let r = delete_nodes_fold(nodes.remove(k), e1, corpus, ids.drop_first());
        (r.0, r.1, r.2 + if nodes.contains_key(k) { 1nat } else { 0nat })
    }
}

/// Deletes the nodes `ids` of a corpus, in order, with the edges of the corpus that touch each;
/// returns how many of the nodes were stored.
pub fn delete_nodes(state: &mut NativeState, corpus: &str, ids: &Vec<String>) -> (res: usize)
    ensures
        (final(state).nodes@, final(state).edges@, res as nat)
            == delete_nodes_fold(old(state).nodes@, old(state).edges@, corpus@, strings_view(ids@)),
        final(state).vectors == old(state).vectors,
        final(state).passages == old(state).passages,
        final(state).snapshots == old(state).snapshots,
        final(state).checkpoints == old(state).checkpoints,
{
    let ghost all = strings_view(ids@);
    let mut deleted: usize = 0;
    let mut i: usize = 0;
    assert(all.skip(0) =~= all);
    while i < ids.len()
        invariant
            all == strings_view(ids@),
            i <= ids@.len(),
            deleted <= i,
            delete_nodes_fold(old(state).nodes@, old(state).edges@, corpus@, all).0
                == delete_nodes_fold(state.nodes@, state.edges@, corpus@, all.skip(i as int)).0,
            delete_nodes_fold(old(state).nodes@, old(state).edges@, corpus@, all).1
                == delete_nodes_fold(state.nodes@, state.edges@, corpus@, all.skip(i as int)).1,
            delete_nodes_fold(old(state).nodes@, old(state).edges@, corpus@, all).2
                == delete_nodes_fold(state.nodes@, state.edges@, corpus@, all.skip(i as int)).2 + deleted,
            state.vectors == old(state).vectors,
            state.passages == old(state).passages,
            state.snapshots == old(state).snapshots,
            state.checkpoints == old(state).checkpoints,
        decreases ids@.len() - i,
    {
        let id = &ids[i];
        let ghost rest = all.skip(i as int);
        assert(rest[0] == id@);
        assert(rest.drop_first() =~= all.skip(i + 1));
        let k = make_key(corpus, id.as_str());
        let ghost had = state.nodes@.contains_key(k@);
        let removed = state.nodes.remove(k.as_str());
        if removed.is_some() {
            deleted = deleted + 1;
        }
        let test = TouchesId { corpus, id: id.as_str() };
        remove_where(&mut state.edges, &test);
        assert((|e: NativeEdge| test.holds(e)) =~= (|e: NativeEdge| edge_touches_id(e, corpus@, id@)));
        i += 1;
    }
    assert(all.skip(ids@.len() as int) =~= Seq::<Seq<char>>::empty());
    deleted
}

/// Edges after deleting the edges `ids` of `corpus` in order, and how many were stored.
pub open spec fn delete_edges_fold(edges: Map<Seq<char>, NativeEdge>, corpus: Seq<char>, ids: Seq<Seq<char>>)
    -> (Map<Seq<char>, NativeEdge>, nat)
    decreases ids.len(),
{
    if ids.len() == 0 {
        (edges, 0)
    } else {
        let k = native_key(corpus, ids[0]);
        let r = delete_edges_fold(edges.remove(k), corpus, ids.drop_first());
        (r.0, r.1 + if edges.contains_key(k) { 1nat } else { 0nat })
    }
}

/// Deletes the edges `ids` of a corpus; returns how many were stored.
pub fn delete_edges(state: &mut NativeState, corpus: &str, ids: &Vec<String>) -> (res: usize)
    ensures
        (final(state).edges@, res as nat) == delete_edges_fold(old(state).edges@, corpus@, strings_view(ids@)),
        final(state).nodes == old(state).nodes,
        final(state).vectors == old(state).vectors,
        final(state).passages == old(state).passages,
        final(state).snapshots == old(state).snapshots,
        final(state).checkpoints == old(state).checkpoints,
{
    let ghost all = strings_view(ids@);
    let mut deleted: usize = 0;
    let mut i: usize = 0;
    assert(all.skip(0) =~= all);
    while i < ids.len()
        invariant
            all == strings_view(ids@),
            i <= ids@.len(),
            deleted <= i,
            delete_edges_fold(old(state).edges@, corpus@, all).0 == delete_edges_fold(state.edges@, corpus@, all.skip(i as int)).0,
            delete_edges_fold(old(state).edges@, corpus@, all).1 == delete_edges_fold(state.edges@, corpus@, all.skip(i as int)).1 + deleted,
            state.nodes == old(state).nodes,
            state.vectors == old(state).vectors,
            state.passages == old(state).passages,
            state.snapshots == old(state).snapshots,
            state.checkpoints == old(state).checkpoints,
        decreases ids@.len() - i,
    {
        let ghost rest = all.skip(i as int);
        assert(rest[0] == ids@[i as int]@);
        assert(rest.drop_first() =~= all.skip(i + 1));
        let k = make_key(corpus, ids[i].as_str());
        let removed = state.edges.remove(k.as_str());
        if removed.is_some() {
            deleted = deleted + 1;
        }
        i += 1;
    }
    assert(all.skip(ids@.len() as int) =~= Seq::<Seq<char>>::empty());
    deleted
}

/// The items of one corpus.
pub struct InCorpus<'a> {
    pub corpus: &'a str,
}

impl<'a, V: Stored> ItemTest<V> for InCorpus<'a> {
    open spec fn holds(&self, v: V) -> bool {
        v.corpus() == self.corpus@
    }

    fn test(&self, v: &V) -> (r: bool) {
        str_eq(v.corpus_str().as_str(), self.corpus)
    }
}

/// `a - b`, or zero when `b` is larger.
pub open spec fn sat_sub(a: nat, b: nat) -> nat {
    if a >= b { (a - b) as nat } else { 0 }
}

/// Deletes everything stored for a corpus, and its snapshot; returns how many nodes and edges
/// the store held fewer afterwards.
pub fn delete_by_corpus(state: &mut NativeState, corpus: &str) -> (res: (usize, usize))
    ensures
        final(state).nodes@ == old(state).nodes@.remove_keys(keys_where(old(state).nodes@, |n: NativeNode| n.corpus_id@ == corpus@)),
        final(state).edges@ == old(state).edges@.remove_keys(keys_where(old(state).edges@, |e: NativeEdge| e.corpus_id@ == corpus@)),
        final(state).vectors@ == old(state).vectors@.remove_keys(keys_where(old(state).vectors@, |v: NativeVector| v.corpus_id@ == corpus@)),
        final(state).passages@ == old(state).passages@.remove_keys(keys_where(old(state).passages@, |p: NativePassage| p.corpus_id@ == corpus@)),
        final(state).snapshots@ == old(state).snapshots@.remove(corpus@),
        final(state).checkpoints == old(state).checkpoints,
        res.0 as nat == sat_sub(old(state).nodes.entries().len(), final(state).nodes.entries().len()),
        res.1 as nat == sat_sub(old(state).edges.entries().len(), final(state).edges.entries().len()),
{
    let before_nodes = state.nodes.len();
    let before_edges = state.edges.len();
    let test = InCorpus { corpus };
    remove_where(&mut state.nodes, &test);
    assert((|v: NativeNode| test.holds(v)) =~= (|n: NativeNode| n.corpus_id@ == corpus@));
    remove_where(&mut state.edges, &test);
    assert((|v: NativeEdge| test.holds(v)) =~= (|e: NativeEdge| e.corpus_id@ == corpus@));
    remove_where(&mut state.vectors, &test);
    assert((|v: NativeVector| test.holds(v)) =~= (|v: NativeVector| v.corpus_id@ == corpus@));
    remove_where(&mut state.passages, &test);
    assert((|v: NativePassage| test.holds(v)) =~= (|p: NativePassage| p.corpus_id@ == corpus@));
    state.snapshots.remove(corpus);
    (before_nodes.saturating_sub(state.nodes.len()), before_edges.saturating_sub(state.edges.len()))
}

/// The document ids a node's reference names: the string items of `sourceDocumentIds` when it
/// is a list, else `metadata.documentId` when it is a string, else none.
pub open spec fn ref_document_ids(r: NativeRef) -> Seq<Seq<char>> {
    match r.source_document_ids {
        Some(ids) => strings_view(ids@),
        None => match r.metadata_document_id {
            Some(d) => seq![d@],
            None => Seq::empty(),
        },
    }
}

/// Whether a node of `corpus` is derived from document `doc`.
pub open spec fn node_of_document(n: NativeNode, corpus: Seq<char>, doc: Seq<char>) -> bool {
    n.corpus_id@ == corpus && ref_document_ids(n.reference).contains(doc)
}

/// The nodes of a corpus derived from a document.
pub struct NodeOfDocument<'a> {
    pub corpus: &'a str,
    pub doc: &'a str,
}

impl<'a> ItemTest<NativeNode> for NodeOfDocument<'a> {
    open spec fn holds(&self, n: NativeNode) -> bool {
        node_of_document(n, self.corpus@, self.doc@)
    }

    fn test(&self, n: &NativeNode) -> (r: bool) {
        if !str_eq(n.corpus_id.as_str(), self.corpus) {
            return false;
        }
        match &n.reference.source_document_ids {
            Some(ids) => labels_contain(ids, self.doc),
            None => match &n.reference.metadata_document_id {
                Some(d) => {
                    let r = str_eq(d.as_str(), self.doc);
                    assert(r == seq![d@].contains(self.doc@)) by {
                        if seq![d@].contains(self.doc@) {
                            let j = choose|j: int| 0 <= j < seq![d@].len() && seq![d@][j] == self.doc@;
                            assert(j == 0);
                        }
                        if r {
                            assert(seq![d@][0] == self.doc@);
                        }
                    }
                    r
                },
                None => false,
            },
        }
    }
}

/// The vectors of a corpus whose metadata names a document.
pub struct VectorOfDocument<'a> {
    pub corpus: &'a str,
    pub doc: &'a str,
}

impl<'a> ItemTest<NativeVector> for VectorOfDocument<'a> {
    open spec fn holds(&self, v: NativeVector) -> bool {
        v.corpus_id@ == self.corpus@ && v.metadata_document_id@ == self.doc@
    }

    fn test(&self, v: &NativeVector) -> (r: bool) {
        str_eq(v.corpus_id.as_str(), self.corpus) && str_eq(v.metadata_document_id.as_str(), self.doc)
    }
}

/// The passages of a corpus taken from a document.
pub struct PassageOfDocument<'a> {
    pub corpus: &'a str,
    pub doc: &'a str,
}

impl<'a> ItemTest<NativePassage> for PassageOfDocument<'a> {
    open spec fn holds(&self, p: NativePassage) -> bool {
        p.corpus_id@ == self.corpus@ && p.document_id@ == self.doc@
    }

    fn test(&self, p: &NativePassage) -> (r: bool) {
        str_eq(p.corpus_id.as_str(), self.corpus) && str_eq(p.document_id.as_str(), self.doc)
    }
}

/// Deletes the vectors of a corpus whose metadata names a document.
pub fn vector_delete_by_document(state: &mut NativeState, corpus: &str, doc: &str)
    ensures
        final(state).vectors@ == old(state).vectors@.remove_keys(keys_where(old(state).vectors@,
            |v: NativeVector| v.corpus_id@ == corpus@ && v.metadata_document_id@ == doc@)),
        final(state).nodes == old(state).nodes,
        final(state).edges == old(state).edges,
        final(state).passages == old(state).passages,
        final(state).snapshots == old(state).snapshots,
        final(state).checkpoints == old(state).checkpoints,
{
    let test = VectorOfDocument { corpus, doc };
    remove_where(&mut state.vectors, &test);
    assert((|v: NativeVector| test.holds(v))
        =~= (|v: NativeVector| v.corpus_id@ == corpus@ && v.metadata_document_id@ == doc@));
}

/// Deletes the passages of a corpus taken from a document.
pub fn lexical_delete_by_document(state: &mut NativeState, corpus: &str, doc: &str)
    ensures
        final(state).passages@ == old(state).passages@.remove_keys(keys_where(old(state).passages@,
            |p: NativePassage| p.corpus_id@ == corpus@ && p.document_id@ == doc@)),
        final(state).nodes == old(state).nodes,
        final(state).edges == old(state).edges,
        final(state).vectors == old(state).vectors,
        final(state).snapshots == old(state).snapshots,
        final(state).checkpoints == old(state).checkpoints,
{
    let test = PassageOfDocument { corpus, doc };
    remove_where(&mut state.passages, &test);
    assert((|p: NativePassage| test.holds(p))
        =~= (|p: NativePassage| p.corpus_id@ == corpus@ && p.document_id@ == doc@));
}

/// The ids of the nodes of a corpus derived from a document.
pub open spec fn document_node_ids(nodes: Map<Seq<char>, NativeNode>, corpus: Seq<char>, doc: Seq<char>) -> Set<Seq<char>> {
    Set::new(|id: Seq<char>| exists|k: Seq<char>| #[trigger] nodes.contains_key(k)
        && node_of_document(nodes[k], corpus, doc) && nodes[k].node_id@ == id)
}

/// The edges of a corpus touching one of a list of node ids.
pub struct EdgeOfIds<'a> {
    pub corpus: &'a str,
    pub ids: &'a Vec<String>,
}

impl<'a> ItemTest<NativeEdge> for EdgeOfIds<'a> {
    open spec fn holds(&self, e: NativeEdge) -> bool {
        e.corpus_id@ == self.corpus@ && (strings_view(self.ids@).contains(e.source_node_id@)
            || strings_view(self.ids@).contains(e.target_node_id@))
    }

    fn test(&self, e: &NativeEdge) -> (r: bool) {
        str_eq(e.corpus_id.as_str(), self.corpus) && (labels_contain(self.ids, e.source_node_id.as_str())
            || labels_contain(self.ids, e.target_node_id.as_str()))
    }
}

fn document_node_ids_exec(state: &NativeState, corpus: &str, doc: &str) -> (res: Vec<String>)
    ensures
        forall|id: Seq<char>| strings_view(res@).contains(id) <==> document_node_ids(state.nodes@, corpus@, doc@).contains(id),
{
    state.nodes.keys_are_distinct();
    let test = NodeOfDocument { corpus, doc };
    let ghost es = state.nodes.entries();
    let mut ids: Vec<String> = Vec::new();
    let mut i: usize = 0;
    while i < state.nodes.len()
        invariant
            es == state.nodes.entries(),
            crate::strmap::keys_distinct(es),
            test.corpus == corpus && test.doc == doc,
            i <= es.len(),
            forall|j: int| 0 <= j < ids@.len() ==> document_node_ids(state.nodes@, corpus@, doc@).contains(#[trigger] ids@[j]@),
            forall|j: int| 0 <= j < i && node_of_document(es[j].1, corpus@, doc@)
                ==> strings_view(ids@).contains(#[trigger] es[j].1.node_id@),
        decreases es.len() - i,
    {
        let (k, n) = state.nodes.entry_at(i);
        proof { state.nodes.lemma_entry_in_map(i as int); }
        let ghost before = ids@;
        if test.test(n) {
            ids.push(n.node_id.clone());
            assert(strings_view(ids@)[ids@.len() - 1] == n.node_id@);
            assert(document_node_ids(state.nodes@, corpus@, doc@).contains(n.node_id@)) by {
                assert(state.nodes@.contains_key(k@));
            }
        }
        proof {
            assert forall|j: int| 0 <= j < i + 1 && node_of_document(es[j].1, corpus@, doc@)
                implies strings_view(ids@).contains(#[trigger] es[j].1.node_id@) by {
                if j < i {
                    let q = choose|q: int| 0 <= q < strings_view(before).len() && strings_view(before)[q] == es[j].1.node_id@;
                    assert(strings_view(ids@)[q] == strings_view(before)[q]);
                } else {
                    assert(strings_view(ids@)[ids@.len() - 1] == n.node_id@);
                }
            }
        }
        i += 1;
    }
    proof {
        assert forall|id: Seq<char>| strings_view(ids@).contains(id) <==> document_node_ids(state.nodes@, corpus@, doc@).contains(id) by {
            if strings_view(ids@).contains(id) {
                let q = choose|q: int| 0 <= q < strings_view(ids@).len() && strings_view(ids@)[q] == id;
                assert(document_node_ids(state.nodes@, corpus@, doc@).contains(ids@[q]@));
            }
            if document_node_ids(state.nodes@, corpus@, doc@).contains(id) {
                let k = choose|k: Seq<char>| #[trigger] state.nodes@.contains_key(k)
                    && node_of_document(state.nodes@[k], corpus@, doc@) && state.nodes@[k].node_id@ == id;
                state.nodes.lemma_key_has_entry(k);
                let j = choose|j: int| 0 <= j < es.len() && es[j].0@ == k;
                state.nodes.lemma_entry_in_map(j);
                assert(es[j].1 == state.nodes@[k]);
            }
        }
    }
    ids
}

/// Deletes what a corpus holds of a document: the nodes derived from it, the edges of the
/// corpus touching those nodes, the vectors whose metadata names it and its passages; returns
/// how many nodes and edges the store held fewer afterwards.
pub fn delete_by_document(state: &mut NativeState, corpus: &str, doc: &str) -> (res: (usize, usize))
    ensures
        final(state).nodes@ == old(state).nodes@.remove_keys(keys_where(old(state).nodes@,
            |n: NativeNode| node_of_document(n, corpus@, doc@))),
        final(state).edges@ == old(state).edges@.remove_keys(keys_where(old(state).edges@,
            |e: NativeEdge| e.corpus_id@ == corpus@
                && (document_node_ids(old(state).nodes@, corpus@, doc@).contains(e.source_node_id@)
                    || document_node_ids(old(state).nodes@, corpus@, doc@).contains(e.target_node_id@)))),
        final(state).vectors@ == old(state).vectors@.remove_keys(keys_where(old(state).vectors@,
            |v: NativeVector| v.corpus_id@ == corpus@ && v.metadata_document_id@ == doc@)),
        final(state).passages@ == old(state).passages@.remove_keys(keys_where(old(state).passages@,
            |p: NativePassage| p.corpus_id@ == corpus@ && p.document_id@ == doc@)),
        final(state).snapshots == old(state).snapshots,
        final(state).checkpoints == old(state).checkpoints,
        res.0 as nat == sat_sub(old(state).nodes.entries().len(), final(state).nodes.entries().len()),
        res.1 as nat == sat_sub(old(state).edges.entries().len(), final(state).edges.entries().len()),
{
    let before_nodes = state.nodes.len();
    let before_edges = state.edges.len();
    let ids = document_node_ids_exec(state, corpus, doc);
    let ghost removed = document_node_ids(state.nodes@, corpus@, doc@);
    let node_test = NodeOfDocument { corpus, doc };
    remove_where(&mut state.nodes, &node_test);
    assert((|n: NativeNode| node_test.holds(n)) =~= (|n: NativeNode| node_of_document(n, corpus@, doc@)));
    let edge_test = EdgeOfIds { corpus, ids: &ids };
    remove_where(&mut state.edges, &edge_test);
    assert((|e: NativeEdge| edge_test.holds(e)) =~= (|e: NativeEdge| e.corpus_id@ == corpus@
        && (removed.contains(e.source_node_id@) || removed.contains(e.target_node_id@))));
    vector_delete_by_document(state, corpus, doc);
    lexical_delete_by_document(state, corpus, doc);
    (before_nodes.saturating_sub(state.nodes.len()), before_edges.saturating_sub(state.edges.len()))
}

/// A passage to index as the request gives it: its id and document id where present, and its
/// text.
#[derive(Debug)]
pub struct PassageInput {
    pub passage_id: Option<String>,
    pub document_id: Option<String>,
    pub text: String,
}

/// What is missing from a passage to be indexed, if anything.
pub open spec fn passage_problem(item: PassageInput) -> Option<Seq<char>> {
    match item.passage_id {
        None => Some("missing passageId"@),
        Some(_) => match item.document_id {
            None => Some("missing metadata.documentId"@),
            Some(_) => None,
        },
    }
}

/// The problem of the first passage that cannot be indexed, if any.
pub open spec fn first_problem(items: Seq<PassageInput>) -> Option<Seq<char>>
    decreases items.len(),
{
    if items.len() == 0 {
        None
    } else {
        match passage_problem(items[0]) {
            Some(m) => Some(m),
            None => first_problem(items.drop_first()),
        }
    }
}

/// The passages after indexing each complete item of `items` for `corpus`, in order.
pub open spec fn index_all(m: Map<Seq<char>, NativePassage>, corpus: String, items: Seq<PassageInput>)
    -> Map<Seq<char>, NativePassage>
    decreases items.len(),
{
    if items.len() == 0 {
        m
    } else {
        match items[0].passage_id {
            None => index_all(m, corpus, items.drop_first()),
            Some(pid) => match items[0].document_id {
                None => index_all(m, corpus, items.drop_first()),
                Some(doc) => index_all(
                    m.insert(native_key(corpus@, pid@),
                        NativePassage { passage_id: pid, corpus_id: corpus, document_id: doc, text: items[0].text }),
                    corpus, items.drop_first()),
            },
        }
    }
}

/// A batch of passages is indexed whole or not at all: where a passage lacks its passage id
/// or document id, the passages stay as they were and the first such problem is reported;
/// else every passage is indexed for `corpus`, in order.
pub open spec fn index_fold(m: Map<Seq<char>, NativePassage>, corpus: String, items: Seq<PassageInput>)
    -> (Map<Seq<char>, NativePassage>, Option<Seq<char>>)
{
    match first_problem(items) {
        Some(p) => (m, Some(p)),
        None => (index_all(m, corpus, items), None),
    }
}

/// Indexes a batch of passages for a corpus whole: where a passage lacks its passage id or
/// document id, nothing is indexed and the first such lack is named; else every passage is
/// indexed in order.
pub fn index_passages(state: &mut NativeState, corpus: &String, items: Vec<PassageInput>) -> (res: Result<(), &'static str>)
    ensures
        (final(state).passages@, match res { Ok(()) => None, Err(m) => Some(m@) })
            == index_fold(old(state).passages@, *corpus, items@),
        final(state).nodes == old(state).nodes,
        final(state).edges == old(state).edges,
        final(state).vectors == old(state).vectors,
        final(state).snapshots == old(state).snapshots,
        final(state).checkpoints == old(state).checkpoints,
{
    let ghost orig = items@;
    let mut i: usize = 0;
    assert(orig.skip(0) =~= orig);
    while i < items.len()
        invariant
            orig == items@,
            i <= orig.len(),
            first_problem(orig) == first_problem(orig.skip(i as int)),
        decreases orig.len() - i,
    {
        assert(orig.skip(i as int).drop_first() =~= orig.skip(i as int + 1));
        assert(orig.skip(i as int)[0] == orig[i as int]);
        if items[i].passage_id.is_none() {
            proof { reveal_strlit("missing passageId"); }
            return Err("missing passageId");
        }
        if items[i].document_id.is_none() {
            proof { reveal_strlit("missing metadata.documentId"); }
            return Err("missing metadata.documentId");
        }
        i += 1;
    }
    assert(first_problem(orig.skip(i as int)) is None);
    let mut rest = items;
    let ghost mut done: int = 0;
    while rest.len() > 0
        invariant
            0 <= done <= orig.len(),
            rest@ == orig.skip(done),
            index_all(old(state).passages@, *corpus, orig) == index_all(state.passages@, *corpus, rest@),
            state.nodes == old(state).nodes,
            state.edges == old(state).edges,
            state.vectors == old(state).vectors,
            state.snapshots == old(state).snapshots,
            state.checkpoints == old(state).checkpoints,
        decreases rest@.len(),
    {
        let ghost r = rest@;
        let item = rest.remove(0);
        assert(rest@ =~= r.drop_first());
        assert(item == r[0]);
        match item.passage_id {
            None => {},
            Some(pid) => match item.document_id {
                None => {},
                Some(doc) => {
                    let k = make_key(corpus.as_str(), pid.as_str());
                    let p = NativePassage { passage_id: pid, corpus_id: corpus.clone(), document_id: doc, text: item.text };
                    state.passages.insert(k, p);
                },
            },
        }
        proof { done = done + 1; }
        assert(rest@ =~= orig.skip(done));
    }
    Ok(())
}

} // verus!
