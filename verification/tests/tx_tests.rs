use aira_graphdb::cypher::FloatOps;
use aira_graphdb::errors::ErrorCode;
use aira_graphdb::graph::InMemoryGraphStore;
use aira_graphdb::tx::TxState;

struct F64Ops;

impl FloatOps for F64Ops {
    fn float_bits(&self, text: &str) -> u64 {
        text.parse::<f64>().unwrap_or(0.0).to_bits()
    }
    fn int_to_float(&self, v: i64) -> u64 {
        (v as f64).to_bits()
    }
    fn float_le(&self, a: u64, b: u64) -> bool {
        f64::from_bits(a) <= f64::from_bits(b)
    }
    fn float_sum(&self, values: &Vec<u64>) -> u64 {
        values.iter().map(|b| f64::from_bits(*b)).sum::<f64>().to_bits()
    }
    fn float_avg(&self, values: &Vec<u64>) -> u64 {
        if values.is_empty() {
            return 0.0f64.to_bits();
        }
        let sum: f64 = values.iter().map(|b| f64::from_bits(*b)).sum();
        (sum / values.len() as f64).to_bits()
    }
    fn float_min(&self, values: &Vec<u64>) -> u64 {
        let m = values.iter().map(|b| f64::from_bits(*b)).fold(f64::INFINITY, f64::min);
        (if m.is_finite() { m } else { 0.0 }).to_bits()
    }
    fn float_max(&self, values: &Vec<u64>) -> u64 {
        let m = values.iter().map(|b| f64::from_bits(*b)).fold(f64::NEG_INFINITY, f64::max);
        (if m.is_finite() { m } else { 0.0 }).to_bits()
    }
    fn float_text(&self, v: u64) -> String {
        f64::from_bits(v).to_string()
    }
}

#[test]
fn rollback_keeps_base_graph_clean() {
    let mut txm = TxState::new(InMemoryGraphStore::new());
    let tx_id = txm.begin();
    txm.run_query(&tx_id, "CREATE (n:Doc {title='draft'})", &F64Ops).expect("tx graph");
    txm.rollback(&tx_id).expect("rollback");
    assert_eq!(txm.current_graph().node_count(), 0);
}

#[test]
fn commit_persists_graph() {
    let mut txm = TxState::new(InMemoryGraphStore::new());
    let tx_id = txm.begin();
    txm.run_query(&tx_id, "CREATE (n:Doc)", &F64Ops).expect("tx graph");
    let snapshot = txm.commit_begin(&tx_id).expect("commit");
    txm.commit_finish(snapshot);
    assert_eq!(txm.current_graph().node_count(), 1);
}

#[test]
fn conflicting_parallel_transactions_return_retryable_conflict() {
    let mut txm = TxState::new(InMemoryGraphStore::new());
    let tx1 = txm.begin();
    let tx2 = txm.begin();
    txm.run_query(&tx1, "CREATE (n:Doc)", &F64Ops).expect("tx1 graph");
    txm.run_query(&tx2, "CREATE (n:Doc)", &F64Ops).expect("tx2 graph");

    let snapshot = txm.commit_begin(&tx1).expect("first commit");
    txm.commit_finish(snapshot);
    let err = txm.commit_begin(&tx2).expect_err("second commit must conflict");
    assert_eq!(err.code, ErrorCode::RetryableConflict);
    assert_eq!(err.message, "deterministic conflict for tx_id=tx-2");
}

#[test]
fn transaction_ids_count_up() {
    let mut txm = TxState::new(InMemoryGraphStore::new());
    assert_eq!(txm.begin(), "tx-1");
    assert_eq!(txm.begin(), "tx-2");
}

#[test]
fn unknown_transaction_is_refused() {
    let mut txm = TxState::new(InMemoryGraphStore::new());
    let err = txm.rollback("tx-9").expect_err("unknown");
    assert_eq!(err.code, ErrorCode::RetryableConflict);
    assert_eq!(err.message, "unknown transaction: tx-9");
    assert!(txm.graph("tx-9").is_err());
    assert!(txm.run_query("tx-9", "CREATE (n:Doc)", &F64Ops).is_err());
    assert!(txm.commit_begin("tx-9").is_err());
}

#[test]
fn committed_transaction_is_closed() {
    let mut txm = TxState::new(InMemoryGraphStore::new());
    let tx = txm.begin();
    let snapshot = txm.commit_begin(&tx).expect("commit");
    txm.commit_finish(snapshot);
    assert!(txm.rollback(&tx).is_err());
}

#[test]
fn transaction_sees_its_own_writes_only() {
    let mut txm = TxState::new(InMemoryGraphStore::new());
    let tx1 = txm.begin();
    let tx2 = txm.begin();
    txm.run_query(&tx1, "CREATE (n:Doc)", &F64Ops).expect("create");
    assert_eq!(txm.graph(&tx1).expect("tx1").node_count(), 1);
    assert_eq!(txm.graph(&tx2).expect("tx2").node_count(), 0);
    assert_eq!(txm.current_graph().node_count(), 0);
}

#[test]
fn recovery_drops_open_transactions() {
    let mut txm = TxState::new(InMemoryGraphStore::new());
    let tx = txm.begin();
    let mut g = InMemoryGraphStore::new();
    g.create_node(vec!["Doc".to_string()], aira_graphdb::graph::Properties::new());
    txm.recover_with(g);
    assert_eq!(txm.current_graph().node_count(), 1);
    assert!(txm.graph(&tx).is_err());
}
