use aira_graphdb::audit::crash_event;
use aira_graphdb::errors::ErrorCode;
use aira_graphdb::graph::{GraphEdge, GraphNode, InMemoryGraphStore, Properties};
use aira_graphdb::server::AuditNote;
use aira_graphdb::storage::{
    audit_event_from_note, check_catalog_version, default_cluster_metadata, latest_wal_snapshot, snapshot_for,
    StorageEngine, CURRENT_CATALOG_VERSION,
};

#[test]
fn rejects_incompatible_catalog() {
    assert!(check_catalog_version(CURRENT_CATALOG_VERSION).is_ok());
    let err = check_catalog_version(999).expect_err("must fail");
    assert_eq!(err.code, ErrorCode::IncompatibleFormat);
    assert_eq!(err.message, "catalog version mismatch: expected 1, got 999");
}

#[test]
fn default_metadata_is_empty_v1() {
    let m = default_cluster_metadata();
    assert_eq!(m.catalog_schema_version, "v1");
    assert!(m.partitions.is_empty());
    assert!(m.replicas.is_empty());
}

#[test]
fn recovery_takes_the_last_wal_snapshot() {
    let mut g1 = InMemoryGraphStore::new();
    g1.create_node(vec!["A".to_string()], Properties::new());
    let mut g2 = InMemoryGraphStore::new();
    g2.create_node(vec!["B".to_string()], Properties::new());
    g2.create_node(vec!["B".to_string()], Properties::new());
    let latest = latest_wal_snapshot(vec![Ok(snapshot_for(g1)), Ok(snapshot_for(g2))]).expect("readable");
    assert_eq!(latest.expect("some").graph.node_count(), 2);
    assert!(latest_wal_snapshot(Vec::new()).expect("empty").is_none());
    let err = latest_wal_snapshot(vec![Ok(snapshot_for(InMemoryGraphStore::new())), Err("eof".to_string())])
        .expect_err("bad record");
    assert_eq!(err.message, "invalid wal entry: eof");
}

#[test]
fn appends_and_loads_audit_events() {
    let note = AuditNote {
        event_type: "AUTH_REQUIRED_REJECTED".to_string(),
        code: Some("AUTH_REQUIRED".to_string()),
        message: "APP_READY required before begin_tx".to_string(),
        tx_id: None,
        request: Some("begin_tx".to_string()),
    };
    let event = audit_event_from_note(note, 42);
    assert_eq!(event.event_type, "AUTH_REQUIRED_REJECTED");
    assert_eq!(event.payload.get("request").map(String::as_str), Some("begin_tx"));
    assert_eq!(event.timestamp_epoch_ms, 42);
}

#[test]
fn storage_engine_keeps_its_db_path() {
    let engine = StorageEngine::new(std::path::PathBuf::from("/tmp/agdb-x.db"));
    assert_eq!(engine.db_path(), &std::path::PathBuf::from("/tmp/agdb-x.db"));
    assert_eq!(engine.wal_path(), &std::path::PathBuf::from("/tmp/agdb-x.wal"));
    assert_eq!(engine.audit_path(), &std::path::PathBuf::from("/tmp/agdb-x.audit.log"));
}

#[test]
fn graph_is_rebuilt_from_parts() {
    let nodes = vec![
        GraphNode { id: "n2".to_string(), labels: vec![], properties: Properties::new() },
        GraphNode { id: "n1".to_string(), labels: vec!["A".to_string()], properties: Properties::new() },
    ];
    let edges = vec![GraphEdge {
        id: "e1".to_string(),
        from: "n1".to_string(),
        to: "n2".to_string(),
        edge_type: "R".to_string(),
        properties: Properties::new(),
    }];
    let mut g = InMemoryGraphStore::from_parts(nodes, edges, 2, 1);
    assert_eq!(g.node_count(), 2);
    assert_eq!(g.list_nodes()[0].id, "n1");
    assert_eq!(g.sequences(), (2, 1));
    assert_eq!(g.create_node(vec![], Properties::new()).id, "n3");
}

#[test]
fn crash_events_name_the_signal() {
    let e = crash_event(None, Some(9), Some("req-kill-1".to_string()), 5, Some("killed".to_string()));
    assert_eq!(e.error_code, "PROCESS_CRASH");
    assert_eq!(e.signal.as_deref(), Some("SIG9"));
    assert_eq!(e.last_request_id.as_deref(), Some("req-kill-1"));
    let e = crash_event(Some(101), None, None, 0, None);
    assert_eq!(e.process_exit_code, Some(101));
    assert!(e.signal.is_none());
}
