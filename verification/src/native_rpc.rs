//! The requests of the native sidecar and how each is answered: what it changes in the store,
//! what it replies, whether the store must be made durable before the reply, and the errors.

use vstd::prelude::*;
use crate::graph::strings_view;
use crate::native_ops::{delete_by_corpus, delete_by_document, delete_edges, delete_edges_fold, delete_nodes,
    delete_nodes_fold, document_node_ids, index_fold, index_passages, lexical_delete_by_document, node_of_document,
    sat_sub, vector_delete_by_document, PassageInput};
use crate::native_query::{adjacent_edges, dangling_nodes, derefs, edge_selected, edge_touches, edges_of,
    get_node, has_outgoing, keys_nondecreasing, lexical_search, node_count, node_selected, nodes_of,
    scored_passages, top_ranked, transition_of, transitions, vectors_of, PassageScore, Transition};
use crate::native_state::{keys_where, native_key, upsert_all, upsert_items, NativeEdge, NativeNode,
    NativePassage, NativeState, NativeVector};
use crate::text::{chars_of, concat, lowercase, owned, split_whitespace, string_from_chars};

verus! {

/// A request to the sidecar, with its parameters as the request gives them. Items that failed
/// to parse carry the parse error's text.
#[derive(Debug)]
pub enum NativeRequest {
    Ping,
    UpsertNodes { nodes: Vec<Result<NativeNode, String>> },
    UpsertEdges { edges: Vec<Result<NativeEdge, String>> },
    GetNode { corpus_id: String, node_id: String },
    GetNodes { corpus_id: String, layer: Option<String> },
    GetEdges { corpus_id: String, source_node_id: Option<String> },
    GetAdjacent { corpus_id: String, node_id: String },
    DeleteNodes { corpus_id: String, node_ids: Vec<String> },
    DeleteEdges { corpus_id: String, edge_ids: Vec<String> },
    DeleteByDocument { corpus_id: String, document_id: String },
    DeleteByCorpus { corpus_id: String },
    VectorUpsert { records: Vec<Result<NativeVector, String>> },
    VectorSearch { corpus_id: String, namespace: String },
    VectorDeleteByDocument { corpus_id: String, document_id: String },
    MemorySave { snapshot_corpus_id: Option<String>, snapshot: String },
    MemoryLoad { corpus_id: String },
    MemorySaveCheckpoint { checkpoint_job_id: Option<String>, checkpoint: String },
    MemoryLoadCheckpoint { job_id: String },
    MemoryValidateIntegrity,
    ProjectionGetTransitions { corpus_id: String },
    ProjectionGetDanglingNodes { corpus_id: String },
    ProjectionGetNodeCount { corpus_id: String },
    LexicalIndexPassages { corpus_id: String, passages: Vec<PassageInput> },
    LexicalSearch { corpus_id: String, query: String, top_k: usize },
    LexicalDeleteByDocument { corpus_id: String, document_id: String },
    Unsupported { method: String },
}

/// The answer to a request. Candidates of a vector search come in store order, to be scored by
/// the caller.
#[derive(Debug)]
pub enum NativeReply<'a> {
    Pong,
    Null,
    Node(Option<&'a NativeNode>),
    Nodes(Vec<&'a NativeNode>),
    Edges(Vec<&'a NativeEdge>),
    Deleted(usize),
    DeletedCounts { nodes: usize, edges: usize },
    VectorCandidates(Vec<&'a NativeVector>),
    Snapshot(Option<&'a String>),
    Checkpoint(Option<&'a String>),
    NoProblems,
    Transitions(Vec<Transition>),
    NodeIds(Vec<String>),
    Count(usize),
    Passages(Vec<PassageScore>),
}

/// An error answer: its code, message and failure class.
#[derive(Debug)]
pub struct NativeError {
    pub code: String,
    pub message: String,
    pub failure_class: Option<String>,
}

/// Whether `e` has this code, message and failure class.
pub open spec fn native_error_is(e: NativeError, code: Seq<char>, message: Seq<char>, class: Seq<char>) -> bool {
    &&& e.code@ == code
    &&& e.message@ == message
    &&& e.failure_class matches Some(c)
    &&& c@ == class
}

/// A request that could not be carried out because of its input.
pub fn execution_client_error(message: &str) -> (res: NativeError)
    ensures
        native_error_is(res, "REQUEST_EXECUTION_FAILED"@, message@, "CLIENT_INPUT"@),
{
    NativeError {
        code: owned("REQUEST_EXECUTION_FAILED"),
        message: owned(message),
        failure_class: Some(owned("CLIENT_INPUT")),
    }
}

/// A request that could not be carried out because the store could not be written.
pub fn execution_io_error(message: &str) -> (res: NativeError)
    ensures
        native_error_is(res, "REQUEST_EXECUTION_FAILED"@, message@, "IO_FAILURE"@),
{
    NativeError {
        code: owned("REQUEST_EXECUTION_FAILED"),
        message: owned(message),
        failure_class: Some(owned("IO_FAILURE")),
    }
}

/// A request for a method the sidecar does not offer.
pub fn unsupported_method_error(method: &str) -> (res: NativeError)
    ensures
        native_error_is(res, "UNSUPPORTED_FEATURE"@, "unsupported_method:"@ + method@, "CLIENT_INPUT"@),
{
    let m = concat(&chars_of("unsupported_method:"), &chars_of(method));
    NativeError {
        code: owned("UNSUPPORTED_FEATURE"),
        message: string_from_chars(m.as_slice()),
        failure_class: Some(owned("CLIENT_INPUT")),
    }
}

/// The error code and failure class an error answer is audited with; a missing class is
/// audited as `INTERNAL_BUG`.
pub fn audit_fields(e: &NativeError) -> (res: (String, String))
    ensures
        res.0 == e.code,
        res.1@ == (match e.failure_class { Some(c) => c@, None => "INTERNAL_BUG"@ }),
{
    let class = match &e.failure_class {
        Some(c) => c.clone(),
        None => owned("INTERNAL_BUG"),
    };
    (e.code.clone(), class)
}

fn prefixed_client_error(prefix: &str, detail: &str) -> (res: NativeError)
    ensures
        native_error_is(res, "REQUEST_EXECUTION_FAILED"@, prefix@ + detail@, "CLIENT_INPUT"@),
{
    let m = concat(&chars_of(prefix), &chars_of(detail));
    let s = string_from_chars(m.as_slice());
    execution_client_error(s.as_str())
}

/// The store after an upsert of parsed items, and the answer: `Null` (to be made durable), or
/// the parse error of the first bad item with `label` in front.
pub open spec fn upsert_answer<V>(r: (Map<Seq<char>, V>, Option<Seq<char>>), label: Seq<char>, new_map: Map<Seq<char>, V>,
    res: Result<(NativeReply, bool), NativeError>) -> bool
{
    &&& new_map == r.0
    &&& match r.1 {
        None => res matches Ok((NativeReply::Null, true)),
        Some(m) => {
            &&& res matches Err(e)
            &&& native_error_is(e, "REQUEST_EXECUTION_FAILED"@, label + m, "CLIENT_INPUT"@)
        },
    }
}

/// Everything but the nodes and edges is as it was.
pub open spec fn rest_kept(s: NativeState, t: NativeState) -> bool {
    t.vectors == s.vectors && t.passages == s.passages && t.snapshots == s.snapshots && t.checkpoints == s.checkpoints
}

/// How a request is answered, given the store before and after.
pub open spec fn handled(s: NativeState, req: NativeRequest, t: NativeState, res: Result<(NativeReply, bool), NativeError>) -> bool {
    match req {
        NativeRequest::Ping => t == s && res matches Ok((NativeReply::Pong, false)),
        NativeRequest::UpsertNodes { nodes } => {
            &&& upsert_answer(upsert_all(s.nodes@, nodes@), "invalid node: "@, t.nodes@, res)
            &&& t.edges == s.edges
            &&& rest_kept(s, t)
        },
        NativeRequest::UpsertEdges { edges } => {
            &&& upsert_answer(upsert_all(s.edges@, edges@), "invalid edge: "@, t.edges@, res)
            &&& t.nodes == s.nodes
            &&& rest_kept(s, t)
        },
        NativeRequest::VectorUpsert { records } => {
            &&& upsert_answer(upsert_all(s.vectors@, records@), "invalid vector record: "@, t.vectors@, res)
            &&& t.nodes == s.nodes && t.edges == s.edges && t.passages == s.passages
            &&& t.snapshots == s.snapshots && t.checkpoints == s.checkpoints
        },
        NativeRequest::GetNode { corpus_id, node_id } => {
            &&& t == s
            &&& res matches Ok((NativeReply::Node(n), false))
            &&& match n {
                Some(x) => s.nodes@.contains_key(native_key(corpus_id@, node_id@)) && *x == s.nodes@[native_key(corpus_id@, node_id@)],
                None => !s.nodes@.contains_key(native_key(corpus_id@, node_id@)),
            }
        },
        NativeRequest::GetNodes { corpus_id, layer } => {
            &&& t == s
            &&& res matches Ok((NativeReply::Nodes(v), false))
            &&& keys_nondecreasing(v@)
            &&& derefs(v@).to_multiset() == s.nodes.values().filter(
                |n: NativeNode| node_selected(n, corpus_id@, crate::cypher::opt_string_view(layer))).to_multiset()
        },
        NativeRequest::GetEdges { corpus_id, source_node_id } => {
            &&& t == s
            &&& res matches Ok((NativeReply::Edges(v), false))
            &&& keys_nondecreasing(v@)
            &&& derefs(v@).to_multiset() == s.edges.values().filter(
                |e: NativeEdge| edge_selected(e, corpus_id@, crate::cypher::opt_string_view(source_node_id))).to_multiset()
        },
        NativeRequest::GetAdjacent { corpus_id, node_id } => {
            &&& t == s
            &&& res matches Ok((NativeReply::Edges(v), false))
            &&& keys_nondecreasing(v@)
            &&& derefs(v@).to_multiset() == s.edges.values().filter(
                |e: NativeEdge| edge_touches(e, native_key(corpus_id@, node_id@))).to_multiset()
        },
        NativeRequest::DeleteNodes { corpus_id, node_ids } => {
            &&& res matches Ok((NativeReply::Deleted(n), true))
            &&& (t.nodes@, t.edges@, n as nat) == delete_nodes_fold(s.nodes@, s.edges@, corpus_id@, strings_view(node_ids@))
            &&& rest_kept(s, t)
        },
        NativeRequest::DeleteEdges { corpus_id, edge_ids } => {
            &&& res matches Ok((NativeReply::Deleted(n), true))
            &&& (t.edges@, n as nat) == delete_edges_fold(s.edges@, corpus_id@, strings_view(edge_ids@))
            &&& t.nodes == s.nodes
            &&& rest_kept(s, t)
        },
        NativeRequest::DeleteByDocument { corpus_id, document_id } => {
            &&& res matches Ok((NativeReply::DeletedCounts { nodes, edges }, true))
            &&& t.nodes@ == s.nodes@.remove_keys(keys_where(s.nodes@, |n: NativeNode| node_of_document(n, corpus_id@, document_id@)))
            &&& t.edges@ == s.edges@.remove_keys(keys_where(s.edges@, |e: NativeEdge| e.corpus_id@ == corpus_id@
                && (document_node_ids(s.nodes@, corpus_id@, document_id@).contains(e.source_node_id@)
                    || document_node_ids(s.nodes@, corpus_id@, document_id@).contains(e.target_node_id@))))
            &&& t.vectors@ == s.vectors@.remove_keys(keys_where(s.vectors@,
                |v: NativeVector| v.corpus_id@ == corpus_id@ && v.metadata_document_id@ == document_id@))
            &&& t.passages@ == s.passages@.remove_keys(keys_where(s.passages@,
                |p: NativePassage| p.corpus_id@ == corpus_id@ && p.document_id@ == document_id@))
            &&& t.snapshots == s.snapshots && t.checkpoints == s.checkpoints
            &&& nodes as nat == sat_sub(s.nodes.entries().len(), t.nodes.entries().len())
            &&& edges as nat == sat_sub(s.edges.entries().len(), t.edges.entries().len())
        },
        NativeRequest::DeleteByCorpus { corpus_id } => {
            &&& res matches Ok((NativeReply::DeletedCounts { nodes, edges }, true))
            &&& t.nodes@ == s.nodes@.remove_keys(keys_where(s.nodes@, |n: NativeNode| n.corpus_id@ == corpus_id@))
            &&& t.edges@ == s.edges@.remove_keys(keys_where(s.edges@, |e: NativeEdge| e.corpus_id@ == corpus_id@))
            &&& t.vectors@ == s.vectors@.remove_keys(keys_where(s.vectors@, |v: NativeVector| v.corpus_id@ == corpus_id@))
            &&& t.passages@ == s.passages@.remove_keys(keys_where(s.passages@, |p: NativePassage| p.corpus_id@ == corpus_id@))
            &&& t.snapshots@ == s.snapshots@.remove(corpus_id@) && t.checkpoints == s.checkpoints
            &&& nodes as nat == sat_sub(s.nodes.entries().len(), t.nodes.entries().len())
            &&& edges as nat == sat_sub(s.edges.entries().len(), t.edges.entries().len())
        },
        NativeRequest::VectorSearch { corpus_id, namespace } => {
            &&& t == s
            &&& res matches Ok((NativeReply::VectorCandidates(v), false))
            &&& derefs(v@) == s.vectors.values().filter(
                |x: NativeVector| x.corpus_id@ == corpus_id@ && x.namespace@ == namespace@)
        },
        NativeRequest::VectorDeleteByDocument { corpus_id, document_id } => {
            &&& res matches Ok((NativeReply::Null, true))
            &&& t.vectors@ == s.vectors@.remove_keys(keys_where(s.vectors@,
                |v: NativeVector| v.corpus_id@ == corpus_id@ && v.metadata_document_id@ == document_id@))
            &&& t.nodes == s.nodes && t.edges == s.edges && t.passages == s.passages
            &&& t.snapshots == s.snapshots && t.checkpoints == s.checkpoints
        },
        NativeRequest::MemorySave { snapshot_corpus_id, snapshot } => {
            &&& t.nodes == s.nodes && t.edges == s.edges && t.vectors == s.vectors && t.passages == s.passages
            &&& t.checkpoints == s.checkpoints
            &&& match snapshot_corpus_id {
                None => {
                    &&& t.snapshots == s.snapshots
                    &&& res matches Err(e)
                    &&& native_error_is(e, "REQUEST_EXECUTION_FAILED"@, "missing snapshot.corpusId"@, "CLIENT_INPUT"@)
                },
                Some(c) => t.snapshots@ == s.snapshots@.insert(c@, snapshot) && res matches Ok((NativeReply::Null, true)),
            }
        },
        NativeRequest::MemoryLoad { corpus_id } => {
            &&& t == s
            &&& res matches Ok((NativeReply::Snapshot(x), false))
            &&& match x {
                Some(j) => s.snapshots@.contains_key(corpus_id@) && *j == s.snapshots@[corpus_id@],
                None => !s.snapshots@.contains_key(corpus_id@),
            }
        },
        NativeRequest::MemorySaveCheckpoint { checkpoint_job_id, checkpoint } => {
            &&& t.nodes == s.nodes && t.edges == s.edges && t.vectors == s.vectors && t.passages == s.passages
            &&& t.snapshots == s.snapshots
            &&& match checkpoint_job_id {
                None => {
                    &&& t.checkpoints == s.checkpoints
                    &&& res matches Err(e)
                    &&& native_error_is(e, "REQUEST_EXECUTION_FAILED"@, "missing checkpoint.jobId"@, "CLIENT_INPUT"@)
                },
                Some(j) => t.checkpoints@ == s.checkpoints@.insert(j@, checkpoint) && res matches Ok((NativeReply::Null, true)),
            }
        },
        NativeRequest::MemoryLoadCheckpoint { job_id } => {
            &&& t == s
            &&& res matches Ok((NativeReply::Checkpoint(x), false))
            &&& match x {
                Some(c) => s.checkpoints@.contains_key(job_id@) && *c == s.checkpoints@[job_id@],
                None => !s.checkpoints@.contains_key(job_id@),
            }
        },
        NativeRequest::MemoryValidateIntegrity => t == s && res matches Ok((NativeReply::NoProblems, false)),
        NativeRequest::ProjectionGetTransitions { corpus_id } => {
            &&& t == s
            &&& res matches Ok((NativeReply::Transitions(v), false))
            &&& keys_nondecreasing(v@)
            &&& v@.to_multiset() == s.edges.values().filter(|e: NativeEdge| edge_selected(e, corpus_id@, None))
                .map_values(|e: NativeEdge| transition_of(e)).to_multiset()
        },
        NativeRequest::ProjectionGetDanglingNodes { corpus_id } => {
            &&& t == s
            &&& res matches Ok((NativeReply::NodeIds(v), false))
            &&& keys_nondecreasing(v@)
            &&& v@.to_multiset() == s.nodes.values().filter(
                |n: NativeNode| n.corpus_id@ == corpus_id@ && !has_outgoing(s.edges.values(), corpus_id@, n.node_id@))
                .map_values(|n: NativeNode| n.node_id).to_multiset()
        },
        NativeRequest::ProjectionGetNodeCount { corpus_id } => {
            &&& t == s
            &&& res matches Ok((NativeReply::Count(n), false))
            &&& n == s.nodes.values().filter(|n: NativeNode| node_selected(n, corpus_id@, None)).len()
        },
        NativeRequest::LexicalIndexPassages { corpus_id, passages } => {
            &&& t.nodes == s.nodes && t.edges == s.edges && t.vectors == s.vectors
            &&& t.snapshots == s.snapshots && t.checkpoints == s.checkpoints
            &&& t.passages@ == index_fold(s.passages@, corpus_id, passages@).0
            &&& match index_fold(s.passages@, corpus_id, passages@).1 {
                None => res matches Ok((NativeReply::Null, true)),
                Some(m) => {
                    &&& res matches Err(e)
                    &&& native_error_is(e, "REQUEST_EXECUTION_FAILED"@, m, "CLIENT_INPUT"@)
                },
            }
        },
        NativeRequest::LexicalSearch { corpus_id, query, top_k } => {
            &&& t == s
            &&& res matches Ok((NativeReply::Passages(v), false))
            &&& top_ranked(v@, scored_passages(s.passages.values(), corpus_id@, split_whitespace(lowercase(query@))), top_k)
        },
        NativeRequest::LexicalDeleteByDocument { corpus_id, document_id } => {
            &&& res matches Ok((NativeReply::Null, true))
            &&& t.passages@ == s.passages@.remove_keys(keys_where(s.passages@,
                |p: NativePassage| p.corpus_id@ == corpus_id@ && p.document_id@ == document_id@))
            &&& t.nodes == s.nodes && t.edges == s.edges && t.vectors == s.vectors
            &&& t.snapshots == s.snapshots && t.checkpoints == s.checkpoints
        },
        NativeRequest::Unsupported { method } => {
            &&& t == s
            &&& res matches Err(e)
            &&& native_error_is(e, "UNSUPPORTED_FEATURE"@, "unsupported_method:"@ + method@, "CLIENT_INPUT"@)
        },
    }
}

/// Answers a request: changes the store as the request says and replies; a reply with `true`
/// asks the caller to make the store durable before sending it (a failure to do so is answered
/// with `execution_io_error`).
pub fn handle<'a>(state: &'a mut NativeState, req: NativeRequest) -> (res: Result<(NativeReply<'a>, bool), NativeError>)
    ensures
        handled(*old(state), req, *final(state), res),
{
    match req {
        NativeRequest::Ping => Ok((NativeReply::Pong, false)),
        NativeRequest::UpsertNodes { nodes } => match upsert_items(&mut state.nodes, nodes) {
            Ok(()) => Ok((NativeReply::Null, true)),
            Err(e) => Err(prefixed_client_error("invalid node: ", e.as_str())),
        },
        NativeRequest::UpsertEdges { edges } => match upsert_items(&mut state.edges, edges) {
            Ok(()) => Ok((NativeReply::Null, true)),
            Err(e) => Err(prefixed_client_error("invalid edge: ", e.as_str())),
        },
        NativeRequest::VectorUpsert { records } => match upsert_items(&mut state.vectors, records) {
            Ok(()) => Ok((NativeReply::Null, true)),
            Err(e) => Err(prefixed_client_error("invalid vector record: ", e.as_str())),
        },
        NativeRequest::GetNode { corpus_id, node_id } => {
            let st: &'a NativeState = state;
            Ok((NativeReply::Node(get_node(st, corpus_id.as_str(), node_id.as_str())), false))
        },
        NativeRequest::GetNodes { corpus_id, layer } => {
            let st: &'a NativeState = state;
            let l: Option<&str> = match &layer {
                Some(x) => Some(x.as_str()),
                None => None,
            };
            Ok((NativeReply::Nodes(nodes_of(st, corpus_id.as_str(), l)), false))
        },
        NativeRequest::GetEdges { corpus_id, source_node_id } => {
            let st: &'a NativeState = state;
            let src: Option<&str> = match &source_node_id {
                Some(x) => Some(x.as_str()),
                None => None,
            };
            Ok((NativeReply::Edges(edges_of(st, corpus_id.as_str(), src)), false))
        },
        NativeRequest::GetAdjacent { corpus_id, node_id } => {
            let st: &'a NativeState = state;
            Ok((NativeReply::Edges(adjacent_edges(st, corpus_id.as_str(), node_id.as_str())), false))
        },
        NativeRequest::DeleteNodes { corpus_id, node_ids } => {
            let n = delete_nodes(state, corpus_id.as_str(), &node_ids);
            Ok((NativeReply::Deleted(n), true))
        },
        NativeRequest::DeleteEdges { corpus_id, edge_ids } => {
            let n = delete_edges(state, corpus_id.as_str(), &edge_ids);
            Ok((NativeReply::Deleted(n), true))
        },
        NativeRequest::DeleteByDocument { corpus_id, document_id } => {
            let (nodes, edges) = delete_by_document(state, corpus_id.as_str(), document_id.as_str());
            Ok((NativeReply::DeletedCounts { nodes, edges }, true))
        },
        NativeRequest::DeleteByCorpus { corpus_id } => {
            let (nodes, edges) = delete_by_corpus(state, corpus_id.as_str());
            Ok((NativeReply::DeletedCounts { nodes, edges }, true))
        },
        NativeRequest::VectorSearch { corpus_id, namespace } => {
            let st: &'a NativeState = state;
            Ok((NativeReply::VectorCandidates(vectors_of(st, corpus_id.as_str(), namespace.as_str())), false))
        },
        NativeRequest::VectorDeleteByDocument { corpus_id, document_id } => {
            vector_delete_by_document(state, corpus_id.as_str(), document_id.as_str());
            Ok((NativeReply::Null, true))
        },
        NativeRequest::MemorySave { snapshot_corpus_id, snapshot } => match snapshot_corpus_id {
            None => Err(execution_client_error("missing snapshot.corpusId")),
            Some(c) => {
                state.snapshots.insert(c, snapshot);
                Ok((NativeReply::Null, true))
            },
        },
        NativeRequest::MemoryLoad { corpus_id } => {
            let st: &'a NativeState = state;
            Ok((NativeReply::Snapshot(st.snapshots.get(corpus_id.as_str())), false))
        },
        NativeRequest::MemorySaveCheckpoint { checkpoint_job_id, checkpoint } => match checkpoint_job_id {
            None => Err(execution_client_error("missing checkpoint.jobId")),
            Some(j) => {
                state.checkpoints.insert(j, checkpoint);
                Ok((NativeReply::Null, true))
            },
        },
        NativeRequest::MemoryLoadCheckpoint { job_id } => {
            let st: &'a NativeState = state;
            Ok((NativeReply::Checkpoint(st.checkpoints.get(job_id.as_str())), false))
        },
        NativeRequest::MemoryValidateIntegrity => Ok((NativeReply::NoProblems, false)),
        NativeRequest::ProjectionGetTransitions { corpus_id } => {
            let st: &'a NativeState = state;
            Ok((NativeReply::Transitions(transitions(st, corpus_id.as_str())), false))
        },
        NativeRequest::ProjectionGetDanglingNodes { corpus_id } => {
            let st: &'a NativeState = state;
            Ok((NativeReply::NodeIds(dangling_nodes(st, corpus_id.as_str())), false))
        },
        NativeRequest::ProjectionGetNodeCount { corpus_id } => {
            let st: &'a NativeState = state;
            Ok((NativeReply::Count(node_count(st, corpus_id.as_str())), false))
        },
        NativeRequest::LexicalIndexPassages { corpus_id, passages } => match index_passages(state, &corpus_id, passages) {
            Ok(()) => Ok((NativeReply::Null, true)),
            Err(m) => Err(execution_client_error(m)),
        },
        NativeRequest::LexicalSearch { corpus_id, query, top_k } => {
            let st: &'a NativeState = state;
            Ok((NativeReply::Passages(lexical_search(st, corpus_id.as_str(), query.as_str(), top_k)), false))
        },
        NativeRequest::LexicalDeleteByDocument { corpus_id, document_id } => {
            lexical_delete_by_document(state, corpus_id.as_str(), document_id.as_str());
            Ok((NativeReply::Null, true))
        },
        NativeRequest::Unsupported { method } => Err(unsupported_method_error(method.as_str())),
    }
}

/// A node written by an upsert is what a read of its corpus and id gives back, and the read
/// changes nothing.
pub proof fn lemma_get_after_upsert(s: NativeState, nodes: Vec<Result<NativeNode, String>>, n: NativeNode,
    t: NativeState, r1: Result<(NativeReply, bool), NativeError>, corpus_id: String, node_id: String,
    u: NativeState, r2: Result<(NativeReply, bool), NativeError>)
    requires
        nodes@ == seq![Ok::<NativeNode, String>(n)],
        handled(s, NativeRequest::UpsertNodes { nodes }, t, r1),
        corpus_id@ == n.corpus_id@,
        node_id@ == n.node_id@,
        handled(t, NativeRequest::GetNode { corpus_id, node_id }, u, r2),
    ensures
        r1 matches Ok((NativeReply::Null, true)),
        r2 matches Ok((NativeReply::Node(Some(x)), false)) && *x == n,
        u == t,
{
    let k = native_key(n.corpus_id@, n.node_id@);
    assert(nodes@.drop_first() =~= Seq::<Result<NativeNode, String>>::empty());
    assert(crate::native_state::first_error(nodes@.drop_first()) is None);
    assert(crate::native_state::first_error(nodes@) is None);
    assert(crate::native_state::insert_all(s.nodes@, nodes@)
        == crate::native_state::insert_all(s.nodes@.insert(k, n), nodes@.drop_first()));
    assert(t.nodes@ == s.nodes@.insert(k, n));
}

/// What deleting nodes leaves: none of the nodes, and no edge of the corpus that touches one
/// of them; every node and edge left was there before, unchanged.
pub proof fn lemma_delete_nodes_fold(nodes: Map<Seq<char>, NativeNode>, edges: Map<Seq<char>, NativeEdge>,
    corpus: Seq<char>, ids: Seq<Seq<char>>)
    ensures
        forall|j: int| 0 <= j < ids.len() ==> !delete_nodes_fold(nodes, edges, corpus, ids).0.contains_key(native_key(corpus, #[trigger] ids[j])),
        forall|k: Seq<char>, j: int|
            #![trigger delete_nodes_fold(nodes, edges, corpus, ids).1[k], ids[j]]
            delete_nodes_fold(nodes, edges, corpus, ids).1.contains_key(k) && 0 <= j < ids.len()
            ==> !crate::native_ops::edge_touches_id(delete_nodes_fold(nodes, edges, corpus, ids).1[k], corpus, ids[j]),
        forall|k: Seq<char>| #[trigger] delete_nodes_fold(nodes, edges, corpus, ids).0.contains_key(k)
            ==> nodes.contains_key(k) && delete_nodes_fold(nodes, edges, corpus, ids).0[k] == nodes[k],
        forall|k: Seq<char>| #[trigger] delete_nodes_fold(nodes, edges, corpus, ids).1.contains_key(k)
            ==> edges.contains_key(k) && delete_nodes_fold(nodes, edges, corpus, ids).1[k] == edges[k],
    decreases ids.len(),
{
    if ids.len() > 0 {
        let k0 = native_key(corpus, ids[0]);
        let e1 = edges.remove_keys(keys_where(edges, |e: NativeEdge| crate::native_ops::edge_touches_id(e, corpus, ids[0])));
        let rest = ids.drop_first();
        lemma_delete_nodes_fold(nodes.remove(k0), e1, corpus, rest);
        let r = delete_nodes_fold(nodes, edges, corpus, ids);
        assert(r == (delete_nodes_fold(nodes.remove(k0), e1, corpus, rest).0, delete_nodes_fold(nodes.remove(k0), e1, corpus, rest).1,
            delete_nodes_fold(nodes.remove(k0), e1, corpus, rest).2 + if nodes.contains_key(k0) { 1nat } else { 0nat }));
        assert forall|j: int| 0 <= j < ids.len() implies !r.0.contains_key(native_key(corpus, #[trigger] ids[j])) by {
            if j > 0 {
                assert(ids[j] == rest[j - 1]);
            }
        }
        assert forall|k: Seq<char>, j: int|
            #![trigger r.1[k], ids[j]]
            r.1.contains_key(k) && 0 <= j < ids.len()
            implies !crate::native_ops::edge_touches_id(r.1[k], corpus, ids[j]) by {
            if j > 0 {
                assert(ids[j] == rest[j - 1]);
            } else {
                assert(e1.contains_key(k));
            }
        }
    }
}

/// Deleting nodes leaves none of them, and no edge of the corpus that touches one of them.
pub proof fn lemma_delete_nodes_detaches(s: NativeState, corpus_id: String, node_ids: Vec<String>,
    t: NativeState, r: Result<(NativeReply, bool), NativeError>)
    requires
        handled(s, NativeRequest::DeleteNodes { corpus_id, node_ids }, t, r),
    ensures
        forall|j: int| 0 <= j < node_ids@.len() ==> !t.nodes@.contains_key(native_key(corpus_id@, (#[trigger] node_ids@[j])@)),
        forall|k: Seq<char>, j: int|
            #![trigger t.edges@[k], node_ids@[j]]
            t.edges@.contains_key(k) && 0 <= j < node_ids@.len()
            ==> !crate::native_ops::edge_touches_id(t.edges@[k], corpus_id@, node_ids@[j]@),
{
    let ids = strings_view(node_ids@);
    let f = delete_nodes_fold(s.nodes@, s.edges@, corpus_id@, ids);
    assert(t.nodes@ == f.0 && t.edges@ == f.1);
    lemma_delete_nodes_fold(s.nodes@, s.edges@, corpus_id@, ids);
    assert forall|j: int| 0 <= j < node_ids@.len()
        implies !t.nodes@.contains_key(native_key(corpus_id@, (#[trigger] node_ids@[j])@)) by {
        assert(ids[j] == node_ids@[j]@);
    }
    assert forall|k: Seq<char>, j: int|
        #![trigger t.edges@[k], node_ids@[j]]
        t.edges@.contains_key(k) && 0 <= j < node_ids@.len()
        implies !crate::native_ops::edge_touches_id(t.edges@[k], corpus_id@, node_ids@[j]@) by {
        assert(ids[j] == node_ids@[j]@);
        assert(f.1[k] == t.edges@[k]);
    }
}

/// Deleting a corpus leaves nothing of it: no node, edge, vector, passage or snapshot.
pub proof fn lemma_delete_by_corpus_clears(s: NativeState, corpus_id: String, t: NativeState,
    r: Result<(NativeReply, bool), NativeError>)
    requires
        handled(s, NativeRequest::DeleteByCorpus { corpus_id }, t, r),
    ensures
        forall|k: Seq<char>| #[trigger] t.nodes@.contains_key(k) ==> t.nodes@[k].corpus_id@ != corpus_id@,
        forall|k: Seq<char>| #[trigger] t.edges@.contains_key(k) ==> t.edges@[k].corpus_id@ != corpus_id@,
        forall|k: Seq<char>| #[trigger] t.vectors@.contains_key(k) ==> t.vectors@[k].corpus_id@ != corpus_id@,
        forall|k: Seq<char>| #[trigger] t.passages@.contains_key(k) ==> t.passages@[k].corpus_id@ != corpus_id@,
        !t.snapshots@.contains_key(corpus_id@),
{
}

/// A snapshot saved for a corpus is what a load of that corpus gives back.
pub proof fn lemma_load_after_save(s: NativeState, corpus: String, snapshot: String, t: NativeState,
    r1: Result<(NativeReply, bool), NativeError>, corpus_id: String, u: NativeState,
    r2: Result<(NativeReply, bool), NativeError>)
    requires
        handled(s, NativeRequest::MemorySave { snapshot_corpus_id: Some(corpus), snapshot }, t, r1),
        corpus_id@ == corpus@,
        handled(t, NativeRequest::MemoryLoad { corpus_id }, u, r2),
    ensures
        r1 matches Ok((NativeReply::Null, true)),
        r2 matches Ok((NativeReply::Snapshot(Some(x)), false)) && *x == snapshot,
        u == t,
{
}

/// A checkpoint saved for a job is what a load of that job gives back.
pub proof fn lemma_checkpoint_after_save(s: NativeState, job: String, checkpoint: String, t: NativeState,
    r1: Result<(NativeReply, bool), NativeError>, job_id: String, u: NativeState,
    r2: Result<(NativeReply, bool), NativeError>)
    requires
        handled(s, NativeRequest::MemorySaveCheckpoint { checkpoint_job_id: Some(job), checkpoint }, t, r1),
        job_id@ == job@,
        handled(t, NativeRequest::MemoryLoadCheckpoint { job_id }, u, r2),
    ensures
        r1 matches Ok((NativeReply::Null, true)),
        r2 matches Ok((NativeReply::Checkpoint(Some(x)), false)) && *x == checkpoint,
        u == t,
{
}

/// A vector record written by an upsert is among the candidates of a search of its corpus and
/// namespace.
pub proof fn lemma_search_after_vector_upsert(s: NativeState, records: Vec<Result<NativeVector, String>>,
    v: NativeVector, t: NativeState, r1: Result<(NativeReply, bool), NativeError>, corpus_id: String,
    namespace: String, u: NativeState, r2: Result<(NativeReply, bool), NativeError>)
    requires
        records@ == seq![Ok::<NativeVector, String>(v)],
        handled(s, NativeRequest::VectorUpsert { records }, t, r1),
        crate::strmap::keys_distinct(t.vectors.entries()),
        corpus_id@ == v.corpus_id@,
        namespace@ == v.namespace@,
        handled(t, NativeRequest::VectorSearch { corpus_id, namespace }, u, r2),
    ensures
        r1 matches Ok((NativeReply::Null, true)),
        r2 matches Ok((NativeReply::VectorCandidates(c), false)) && derefs(c@).contains(v),
        u == t,
{
    let k = native_key(v.corpus_id@, v.id@);
    assert(records@.drop_first() =~= Seq::<Result<NativeVector, String>>::empty());
    assert(crate::native_state::first_error(records@.drop_first()) is None);
    assert(crate::native_state::first_error(records@) is None);
    assert(crate::native_state::insert_all(s.vectors@, records@)
        == crate::native_state::insert_all(s.vectors@.insert(k, v), records@.drop_first()));
    assert(t.vectors@ == s.vectors@.insert(k, v));
    t.vectors.lemma_value_listed(k);
    let vals = t.vectors.values();
    let pred = |x: NativeVector| x.corpus_id@ == corpus_id@ && x.namespace@ == namespace@;
    let i = choose|i: int| 0 <= i < vals.len() && vals[i] == v;
    vals.lemma_filter_contains(pred, i);
}

/// A stored passage of the corpus that the query matches is among the results of a lexical
/// search whose `top_k` covers every stored passage, with its score.
pub proof fn lemma_search_finds_matching_passage(s: NativeState, corpus_id: String, query: String,
    top_k: usize, key: Seq<char>, u: NativeState, r: Result<(NativeReply, bool), NativeError>)
    requires
        crate::strmap::keys_distinct(s.passages.entries()),
        s.passages@.contains_key(key),
        s.passages@[key].corpus_id@ == corpus_id@,
        crate::native_query::passage_score(s.passages@[key], split_whitespace(lowercase(query@))) > 0,
        top_k >= s.passages.entries().len(),
        handled(s, NativeRequest::LexicalSearch { corpus_id, query, top_k }, u, r),
    ensures
        r matches Ok((NativeReply::Passages(v), false)) && v@.contains(crate::native_query::PassageScore {
            passage_id: s.passages@[key].passage_id,
            document_id: s.passages@[key].document_id,
            score: crate::native_query::passage_score(s.passages@[key], split_whitespace(lowercase(query@))),
        }),
        u == s,
{
    broadcast use vstd::seq_lib::group_to_multiset_ensures;
    let p = s.passages@[key];
    let ts = split_whitespace(lowercase(query@));
    let vals = s.passages.values();
    let pred = |x: NativePassage| x.corpus_id@ == corpus_id@ && crate::native_query::passage_score(x, ts) > 0;
    let f = |x: NativePassage| crate::native_query::PassageScore { passage_id: x.passage_id,
        document_id: x.document_id,
        score: crate::native_query::passage_score(x, ts) };
    let filtered = vals.filter(pred);
    let cands = crate::native_query::scored_passages(vals, corpus_id@, ts);
    assert(cands == filtered.map_values(f));
    s.passages.lemma_value_listed(key);
    let i = choose|i: int| 0 <= i < vals.len() && vals[i] == p;
    vals.lemma_filter_contains(pred, i);
    vals.lemma_filter_len(pred);
    let j = choose|j: int| 0 <= j < filtered.len() && filtered[j] == p;
    assert(cands[j] == f(p));
    assert(cands.contains(f(p)));
    let v = r->Ok_0.0->Passages_0;
    let full = choose|full: Seq<crate::native_query::PassageScore>| crate::native_query::ranked(full)
        && full.to_multiset() == cands.to_multiset()
        && v@ == (if top_k < full.len() { full.take(top_k as int) } else { full });
    assert(full.to_multiset().count(f(p)) > 0);
    assert(full.to_multiset().len() == full.len());
    assert(cands.to_multiset().len() == cands.len());
    assert(full.len() == cands.len());
    assert(cands.len() <= vals.len());
    assert(v@ == full);
}

/// Every node is stored under the key of its own corpus and id, as upserts store them.
pub open spec fn nodes_under_own_keys(s: NativeState) -> bool {
    forall|i: int| 0 <= i < s.nodes.entries().len() ==>
        (#[trigger] s.nodes.entries()[i]).0@ == native_key(s.nodes.entries()[i].1.corpus_id@, s.nodes.entries()[i].1.node_id@)
}

/// Filtering keeps a sequence free of duplicates.
proof fn lemma_filter_no_duplicates<A>(s: Seq<A>, pred: spec_fn(A) -> bool)
    requires
        s.no_duplicates(),
    ensures
        s.filter(pred).no_duplicates(),
    decreases s.len(),
{
    if s.len() > 0 {
        let d = s.drop_last();
        let x = s.last();
        assert(d.no_duplicates());
        lemma_filter_no_duplicates(d, pred);
        assert(s =~= d.push(x));
        d.lemma_filter_push(x, pred);
        if pred(x) {
            let f = d.filter(pred);
            if f.contains(x) {
                d.lemma_filter_contains_rev(pred, x);
                let i = choose|i: int| 0 <= i < d.len() && d[i] == x;
                assert(s[i] == s[s.len() - 1]);
            }
            assert forall|i: int, j: int| 0 <= i < f.push(x).len() && 0 <= j < f.push(x).len() && i != j
                implies f.push(x)[i] != f.push(x)[j] by {
                if i == f.len() {
                    assert(f[j] == f.push(x)[j]);
                } else if j == f.len() {
                    assert(f[i] == f.push(x)[i]);
                }
            }
        }
    }
}

/// A stored node of a corpus is listed by a read of the corpus's nodes, which come sorted by id;
/// exactly once where every node is stored under its own key.
pub proof fn lemma_get_nodes_lists_stored(s: NativeState, key: Seq<char>, corpus_id: String,
    u: NativeState, r: Result<(NativeReply, bool), NativeError>)
    requires
        crate::strmap::keys_distinct(s.nodes.entries()),
        s.nodes@.contains_key(key),
        s.nodes@[key].corpus_id@ == corpus_id@,
        handled(s, NativeRequest::GetNodes { corpus_id, layer: None }, u, r),
    ensures
        r matches Ok((NativeReply::Nodes(v), false)) && derefs(v@).contains(s.nodes@[key])
            && keys_nondecreasing(v@)
            && (nodes_under_own_keys(s) ==> derefs(v@).to_multiset().count(s.nodes@[key]) == 1),
        u == s,
{
    broadcast use vstd::seq_lib::group_to_multiset_ensures;
    let p = s.nodes@[key];
    let vals = s.nodes.values();
    let pred = |n: NativeNode| node_selected(n, corpus_id@, crate::cypher::opt_string_view(None::<String>));
    s.nodes.lemma_value_listed(key);
    let i = choose|i: int| 0 <= i < vals.len() && vals[i] == p;
    vals.lemma_filter_contains(pred, i);
    let v = r->Ok_0.0->Nodes_0;
    assert(vals.filter(pred).to_multiset().count(p) > 0);
    assert(derefs(v@).to_multiset().count(p) > 0);
    if nodes_under_own_keys(s) {
        let es = s.nodes.entries();
        assert forall|a: int, b: int| 0 <= a < vals.len() && 0 <= b < vals.len() && a != b
            implies vals[a] != vals[b] by {
            assert(vals[a] == es[a].1 && vals[b] == es[b].1);
            assert(es[a].0@ == native_key(es[a].1.corpus_id@, es[a].1.node_id@));
            assert(es[b].0@ == native_key(es[b].1.corpus_id@, es[b].1.node_id@));
        }
        assert(vals.no_duplicates());
        lemma_filter_no_duplicates(vals, pred);
        vals.filter(pred).lemma_multiset_has_no_duplicates();
        assert(vals.filter(pred).to_multiset().contains(p));
    }
}

/// Requests other than node upserts and deletes of nodes leave the stored nodes as they are.
pub proof fn lemma_other_requests_keep_nodes(s: NativeState, req: NativeRequest, t: NativeState,
    r: Result<(NativeReply, bool), NativeError>)
    requires
        !(req is UpsertNodes || req is DeleteNodes || req is DeleteByDocument || req is DeleteByCorpus),
        handled(s, req, t, r),
    ensures
        t.nodes == s.nodes,
{
}

/// Along a run of requests that neither upsert nor delete nodes, the stored nodes stay.
proof fn lemma_nodes_kept_along(reqs: Seq<NativeRequest>, states: Seq<NativeState>,
    outcomes: Seq<Result<(NativeReply, bool), NativeError>>, j: int)
    requires
        0 <= j <= reqs.len(),
        states.len() == reqs.len() + 1,
        outcomes.len() == reqs.len(),
        forall|q: int| 0 <= q < reqs.len() ==> !(#[trigger] reqs[q] is UpsertNodes || reqs[q] is DeleteNodes
            || reqs[q] is DeleteByDocument || reqs[q] is DeleteByCorpus),
        forall|q: int| 0 <= q < reqs.len() ==> handled(#[trigger] states[q], reqs[q], states[q + 1], outcomes[q]),
    ensures
        states[reqs.len() as int].nodes == states[j].nodes,
    decreases reqs.len() - j,
{
    if j < reqs.len() {
        assert(handled(states[j], reqs[j], states[j + 1], outcomes[j]));
        lemma_other_requests_keep_nodes(states[j], reqs[j], states[j + 1], outcomes[j]);
        lemma_nodes_kept_along(reqs, states, outcomes, j + 1);
    }
}

/// After a node is upserted and any requests that neither upsert nor delete nodes, a read of
/// its corpus's nodes lists it, sorted by id; exactly once where every node is stored under its
/// own key.
pub proof fn lemma_get_nodes_after_upsert(s: NativeState, nodes: Vec<Result<NativeNode, String>>, n: NativeNode,
    t: NativeState, r1: Result<(NativeReply, bool), NativeError>, reqs: Seq<NativeRequest>,
    states: Seq<NativeState>, outcomes: Seq<Result<(NativeReply, bool), NativeError>>, corpus_id: String,
    u: NativeState, r2: Result<(NativeReply, bool), NativeError>)
    requires
        nodes@ == seq![Ok::<NativeNode, String>(n)],
        handled(s, NativeRequest::UpsertNodes { nodes }, t, r1),
        states.len() == reqs.len() + 1,
        outcomes.len() == reqs.len(),
        states[0] == t,
        forall|k: int| 0 <= k < reqs.len() ==> !(#[trigger] reqs[k] is UpsertNodes || reqs[k] is DeleteNodes
            || reqs[k] is DeleteByDocument || reqs[k] is DeleteByCorpus),
        forall|k: int| 0 <= k < reqs.len() ==> handled(#[trigger] states[k], reqs[k], states[k + 1], outcomes[k]),
        crate::strmap::keys_distinct(states[reqs.len() as int].nodes.entries()),
        corpus_id@ == n.corpus_id@,
        handled(states[reqs.len() as int], NativeRequest::GetNodes { corpus_id, layer: None }, u, r2),
    ensures
        r1 matches Ok((NativeReply::Null, true)),
        r2 matches Ok((NativeReply::Nodes(v), false)) && derefs(v@).contains(n) && keys_nondecreasing(v@)
            && (nodes_under_own_keys(states[reqs.len() as int]) ==> derefs(v@).to_multiset().count(n) == 1),
{
    let k = native_key(n.corpus_id@, n.node_id@);
    assert(nodes@.drop_first() =~= Seq::<Result<NativeNode, String>>::empty());
    assert(crate::native_state::first_error(nodes@.drop_first()) is None);
    assert(crate::native_state::first_error(nodes@) is None);
    assert(crate::native_state::insert_all(s.nodes@, nodes@)
        == crate::native_state::insert_all(s.nodes@.insert(k, n), nodes@.drop_first()));
    assert(t.nodes@ == s.nodes@.insert(k, n));
    lemma_nodes_kept_along(reqs, states, outcomes, 0);
    let last = states[reqs.len() as int];
    assert(last.nodes@.contains_key(k) && last.nodes@[k] == n);
    lemma_get_nodes_lists_stored(last, k, corpus_id, u, r2);
}

} // verus!
