use aira_graphdb::native_ops::PassageInput;
use aira_graphdb::native_rpc::{audit_fields, handle, NativeReply, NativeRequest};
use aira_graphdb::native_state::{NativeEdge, NativeNode, NativeRef, NativeState, NativeVector};
use aira_graphdb::strmap::StrMap;

fn empty_state() -> NativeState {
    NativeState {
        nodes: StrMap::new(),
        edges: StrMap::new(),
        vectors: StrMap::new(),
        passages: StrMap::new(),
        snapshots: StrMap::new(),
        checkpoints: StrMap::new(),
    }
}

fn node(corpus: &str, id: &str, layer: &str, doc: Option<&str>) -> NativeNode {
    NativeNode {
        node_id: id.to_string(),
        corpus_id: corpus.to_string(),
        layer: layer.to_string(),
        reference: NativeRef {
            json: "{}".to_string(),
            source_document_ids: doc.map(|d| vec![d.to_string()]),
            metadata_document_id: None,
        },
        label: "L".to_string(),
    }
}

fn edge(corpus: &str, id: &str, from: &str, to: &str) -> NativeEdge {
    NativeEdge {
        edge_id: id.to_string(),
        corpus_id: corpus.to_string(),
        source_node_id: from.to_string(),
        target_node_id: to.to_string(),
        relation: "R".to_string(),
        weight: 1.0f64.to_bits(),
        bridge_kind: None,
    }
}

fn upsert_sample(state: &mut NativeState) {
    let nodes = vec![
        Ok(node("c1", "n2", "l1", Some("d1"))),
        Ok(node("c1", "n1", "l1", Some("d2"))),
        Ok(node("c1", "n3", "l2", None)),
        Ok(node("c2", "n1", "l1", Some("d1"))),
    ];
    assert!(matches!(handle(state, NativeRequest::UpsertNodes { nodes }), Ok((NativeReply::Null, true))));
    let edges = vec![Ok(edge("c1", "e2", "n1", "n2")), Ok(edge("c1", "e1", "n2", "n3")), Ok(edge("c2", "e1", "n1", "n1"))];
    assert!(matches!(handle(state, NativeRequest::UpsertEdges { edges }), Ok((NativeReply::Null, true))));
}

#[test]
fn ping_answers_pong_without_persisting() {
    let mut state = empty_state();
    assert!(matches!(handle(&mut state, NativeRequest::Ping), Ok((NativeReply::Pong, false))));
}

#[test]
fn get_node_finds_by_corpus_and_id() {
    let mut state = empty_state();
    upsert_sample(&mut state);
    match handle(&mut state, NativeRequest::GetNode { corpus_id: "c1".to_string(), node_id: "n3".to_string() }) {
        Ok((NativeReply::Node(Some(n)), false)) => assert_eq!(n.layer, "l2"),
        other => panic!("unexpected {other:?}"),
    }
    match handle(&mut state, NativeRequest::GetNode { corpus_id: "c3".to_string(), node_id: "n3".to_string() }) {
        Ok((NativeReply::Node(None), false)) => {}
        other => panic!("unexpected {other:?}"),
    }
}

#[test]
fn get_nodes_lists_a_layer_sorted_by_id() {
    let mut state = empty_state();
    upsert_sample(&mut state);
    match handle(&mut state, NativeRequest::GetNodes { corpus_id: "c1".to_string(), layer: Some("l1".to_string()) }) {
        Ok((NativeReply::Nodes(v), false)) => {
            let ids: Vec<&str> = v.iter().map(|n| n.node_id.as_str()).collect();
            assert_eq!(ids, vec!["n1", "n2"]);
        }
        other => panic!("unexpected {other:?}"),
    }
}

#[test]
fn adjacency_lists_both_directions_once() {
    let mut state = empty_state();
    upsert_sample(&mut state);
    match handle(&mut state, NativeRequest::GetAdjacent { corpus_id: "c1".to_string(), node_id: "n2".to_string() }) {
        Ok((NativeReply::Edges(v), false)) => {
            let ids: Vec<&str> = v.iter().map(|e| e.edge_id.as_str()).collect();
            assert_eq!(ids, vec!["e1", "e2"]);
        }
        other => panic!("unexpected {other:?}"),
    }
    match handle(&mut state, NativeRequest::GetAdjacent { corpus_id: "c2".to_string(), node_id: "n1".to_string() }) {
        Ok((NativeReply::Edges(v), false)) => assert_eq!(v.len(), 1),
        other => panic!("unexpected {other:?}"),
    }
}

#[test]
fn deleting_nodes_removes_their_edges() {
    let mut state = empty_state();
    upsert_sample(&mut state);
    let req = NativeRequest::DeleteNodes { corpus_id: "c1".to_string(), node_ids: vec!["n1".to_string(), "n9".to_string()] };
    assert!(matches!(handle(&mut state, req), Ok((NativeReply::Deleted(1), true))));
    match handle(&mut state, NativeRequest::GetEdges { corpus_id: "c1".to_string(), source_node_id: None }) {
        Ok((NativeReply::Edges(v), false)) => {
            let ids: Vec<&str> = v.iter().map(|e| e.edge_id.as_str()).collect();
            assert_eq!(ids, vec!["e1"]);
        }
        other => panic!("unexpected {other:?}"),
    }
}

#[test]
fn delete_by_document_counts_nodes_and_edges() {
    let mut state = empty_state();
    upsert_sample(&mut state);
    let req = NativeRequest::DeleteByDocument { corpus_id: "c1".to_string(), document_id: "d1".to_string() };
    assert!(matches!(handle(&mut state, req), Ok((NativeReply::DeletedCounts { nodes: 1, edges: 2 }, true))));
    assert_eq!(state.nodes.len(), 3);
    assert_eq!(state.edges.len(), 1);
}

#[test]
fn delete_by_corpus_clears_the_corpus() {
    let mut state = empty_state();
    upsert_sample(&mut state);
    let req = NativeRequest::DeleteByCorpus { corpus_id: "c1".to_string() };
    assert!(matches!(handle(&mut state, req), Ok((NativeReply::DeletedCounts { nodes: 3, edges: 2 }, true))));
    match handle(&mut state, NativeRequest::ProjectionGetNodeCount { corpus_id: "c1".to_string() }) {
        Ok((NativeReply::Count(0), false)) => {}
        other => panic!("unexpected {other:?}"),
    }
}

#[test]
fn dangling_nodes_have_no_outgoing_edges() {
    let mut state = empty_state();
    upsert_sample(&mut state);
    match handle(&mut state, NativeRequest::ProjectionGetDanglingNodes { corpus_id: "c1".to_string() }) {
        Ok((NativeReply::NodeIds(v), false)) => assert_eq!(v, vec!["n3".to_string()]),
        other => panic!("unexpected {other:?}"),
    }
    match handle(&mut state, NativeRequest::ProjectionGetTransitions { corpus_id: "c1".to_string() }) {
        Ok((NativeReply::Transitions(v), false)) => {
            let sources: Vec<&str> = v.iter().map(|t| t.source_node_id.as_str()).collect();
            assert_eq!(sources, vec!["n1", "n2"]);
        }
        other => panic!("unexpected {other:?}"),
    }
}

#[test]
fn invalid_payload_returns_request_execution_failed_client_input() {
    let mut state = empty_state();
    let nodes = vec![Ok(node("c1", "n1", "l", None)), Err("missing field `corpusId`".to_string())];
    match handle(&mut state, NativeRequest::UpsertNodes { nodes }) {
        Err(e) => {
            assert_eq!(e.code, "REQUEST_EXECUTION_FAILED");
            assert_eq!(e.message, "invalid node: missing field `corpusId`");
            assert_eq!(e.failure_class.as_deref(), Some("CLIENT_INPUT"));
        }
        other => panic!("unexpected {other:?}"),
    }
    assert_eq!(state.nodes.len(), 0);
}

#[test]
fn unsupported_method_returns_client_input_failure_class() {
    let mut state = empty_state();
    match handle(&mut state, NativeRequest::Unsupported { method: "unknown_method".to_string() }) {
        Err(e) => {
            assert_eq!(e.code, "UNSUPPORTED_FEATURE");
            assert_eq!(e.message, "unsupported_method:unknown_method");
            let (code, class) = audit_fields(&e);
            assert_eq!(code, "UNSUPPORTED_FEATURE");
            assert_eq!(class, "CLIENT_INPUT");
        }
        other => panic!("unexpected {other:?}"),
    }
}

#[test]
fn lexical_search_ranks_by_score_then_id() {
    let mut state = empty_state();
    let passages = vec![
        PassageInput { passage_id: Some("p2".to_string()), document_id: Some("d".to_string()), text: "Graph graph db".to_string() },
        PassageInput { passage_id: Some("p1".to_string()), document_id: Some("d".to_string()), text: "a graph".to_string() },
        PassageInput { passage_id: Some("p3".to_string()), document_id: Some("d".to_string()), text: "nothing here".to_string() },
        PassageInput { passage_id: Some("p0".to_string()), document_id: Some("d".to_string()), text: "GRAPH".to_string() },
    ];
    let req = NativeRequest::LexicalIndexPassages { corpus_id: "c".to_string(), passages };
    assert!(matches!(handle(&mut state, req), Ok((NativeReply::Null, true))));
    let req = NativeRequest::LexicalSearch { corpus_id: "c".to_string(), query: "GRAPH".to_string(), top_k: 2 };
    match handle(&mut state, req) {
        Ok((NativeReply::Passages(v), false)) => {
            let got: Vec<(&str, u64)> = v.iter().map(|p| (p.passage_id.as_str(), p.score)).collect();
            assert_eq!(got, vec![("p2", 2), ("p0", 1)]);
        }
        other => panic!("unexpected {other:?}"),
    }
}

#[test]
fn indexing_a_batch_with_a_bad_passage_stores_nothing() {
    let mut state = empty_state();
    let passages = vec![
        PassageInput { passage_id: Some("p1".to_string()), document_id: Some("d".to_string()), text: "x".to_string() },
        PassageInput { passage_id: None, document_id: Some("d".to_string()), text: "y".to_string() },
    ];
    match handle(&mut state, NativeRequest::LexicalIndexPassages { corpus_id: "c".to_string(), passages }) {
        Err(e) => assert_eq!(e.message, "missing passageId"),
        other => panic!("unexpected {other:?}"),
    }
    assert_eq!(state.passages.len(), 0);
}

#[test]
fn memory_snapshots_round_trip() {
    let mut state = empty_state();
    let req = NativeRequest::MemorySave { snapshot_corpus_id: Some("c".to_string()), snapshot: "{\"corpusId\":\"c\"}".to_string() };
    assert!(matches!(handle(&mut state, req), Ok((NativeReply::Null, true))));
    match handle(&mut state, NativeRequest::MemoryLoad { corpus_id: "c".to_string() }) {
        Ok((NativeReply::Snapshot(Some(s)), false)) => assert_eq!(s, "{\"corpusId\":\"c\"}"),
        other => panic!("unexpected {other:?}"),
    }
    match handle(&mut state, NativeRequest::MemorySave { snapshot_corpus_id: None, snapshot: "{}".to_string() }) {
        Err(e) => assert_eq!(e.message, "missing snapshot.corpusId"),
        other => panic!("unexpected {other:?}"),
    }
}

#[test]
fn vector_search_candidates_are_the_namespace() {
    let mut state = empty_state();
    let v = |id: &str, ns: &str| NativeVector {
        id: id.to_string(),
        corpus_id: "c".to_string(),
        namespace: ns.to_string(),
        values: vec![1.0f64.to_bits()],
        metadata_json: "{}".to_string(),
        metadata_document_id: String::new(),
    };
    let records = vec![Ok(v("a", "x")), Ok(v("b", "y")), Ok(v("c", "x"))];
    assert!(matches!(handle(&mut state, NativeRequest::VectorUpsert { records }), Ok((NativeReply::Null, true))));
    match handle(&mut state, NativeRequest::VectorSearch { corpus_id: "c".to_string(), namespace: "x".to_string() }) {
        Ok((NativeReply::VectorCandidates(c), false)) => assert_eq!(c.len(), 2),
        other => panic!("unexpected {other:?}"),
    }
}

#[test]
fn lexical_search_breaks_score_ties_by_document_id() {
    let mut state = empty_state();
    let passages = vec![
        PassageInput { passage_id: Some("pA".to_string()), document_id: Some("d2".to_string()), text: "graph".to_string() },
        PassageInput { passage_id: Some("pB".to_string()), document_id: Some("d1".to_string()), text: "graph".to_string() },
        PassageInput { passage_id: Some("pC".to_string()), document_id: Some("d1".to_string()), text: "graph".to_string() },
    ];
    let req = NativeRequest::LexicalIndexPassages { corpus_id: "c".to_string(), passages };
    assert!(matches!(handle(&mut state, req), Ok((NativeReply::Null, true))));
    let req = NativeRequest::LexicalSearch { corpus_id: "c".to_string(), query: "graph".to_string(), top_k: 10 };
    match handle(&mut state, req) {
        Ok((NativeReply::Passages(v), false)) => {
            let got: Vec<(&str, &str)> = v.iter().map(|p| (p.document_id.as_str(), p.passage_id.as_str())).collect();
            assert_eq!(got, vec![("d1", "pB"), ("d1", "pC"), ("d2", "pA")]);
        }
        other => panic!("unexpected {other:?}"),
    }
}
