use aira_graphdb::cypher::FloatOps;
use aira_graphdb::errors::ErrorCode;
use aira_graphdb::graph::{InMemoryGraphStore, Properties, Value};
use aira_graphdb::query::{execute_query, resolve_row_comparison_strategy, QueryResult, RowComparisonStrategy};

struct F64Ops;

impl FloatOps for F64Ops {
    fn float_bits(&self, text: &str) -> u64 {
        text.parse::<f64>().unwrap_or(0.0).to_bits()
    }
    fn int_to_float(&self, v: i64) -> u64 {
        (v as f64).to_bits()
    }
    fn float_le(&self, a: u64, b: u64) -> bool {
        f64::from_bits(a) <= f64::from_bits(b)
    }
    fn float_sum(&self, values: &Vec<u64>) -> u64 {
        values.iter().map(|b| f64::from_bits(*b)).sum::<f64>().to_bits()
    }
    fn float_avg(&self, values: &Vec<u64>) -> u64 {
        if values.is_empty() {
            return 0.0f64.to_bits();
        }
        let sum: f64 = values.iter().map(|b| f64::from_bits(*b)).sum();
        (sum / values.len() as f64).to_bits()
    }
    fn float_min(&self, values: &Vec<u64>) -> u64 {
        let m = values.iter().map(|b| f64::from_bits(*b)).fold(f64::INFINITY, f64::min);
        (if m.is_finite() { m } else { 0.0 }).to_bits()
    }
    fn float_max(&self, values: &Vec<u64>) -> u64 {
        let m = values.iter().map(|b| f64::from_bits(*b)).fold(f64::NEG_INFINITY, f64::max);
        (if m.is_finite() { m } else { 0.0 }).to_bits()
    }
    fn float_text(&self, v: u64) -> String {
        f64::from_bits(v).to_string()
    }
}

fn run(store: &mut InMemoryGraphStore, q: &str) -> Result<QueryResult, aira_graphdb::errors::GraphDbError> {
    execute_query(store, q, &F64Ops)
}

fn detail(err: &aira_graphdb::errors::GraphDbError, key: &str) -> Option<String> {
    err.detail(key).cloned()
}

#[test]
fn executes_create_and_match() {
    let mut store = InMemoryGraphStore::new();
    run(&mut store, "CREATE (n:Paper)").expect("create");
    let result = run(&mut store, "MATCH (n) RETURN n").expect("match");
    match result {
        QueryResult::Nodes(nodes) => assert_eq!(nodes.len(), 1),
        _ => panic!("expected nodes"),
    }
}

#[test]
fn rejects_unsupported_clause() {
    let mut store = InMemoryGraphStore::new();
    let err = run(&mut store, "CALL db.labels()").expect_err("unsupported");
    assert_eq!(err.code, ErrorCode::UnsupportedFeature);
    assert!(err.details.is_some(), "details required");
    assert_eq!(detail(&err, "unsupported_clause").as_deref(), Some("CALL"));
}

#[test]
fn supports_relationship_traversal_directed_and_undirected() {
    let mut store = InMemoryGraphStore::new();
    let n1 = store.create_node(vec!["A".to_string()], Properties::new());
    let n2 = store.create_node(vec!["B".to_string()], Properties::new());
    let _ = store.create_edge(&n1.id, &n2.id, "REL".to_string(), Properties::new());

    let directed = run(&mut store, "MATCH (n)-[r]->(m) RETURN n,r,m").expect("directed");
    match directed {
        QueryResult::Table { rows, .. } => assert_eq!(rows.len(), 1),
        _ => panic!("expected table"),
    }

    let undirected = run(&mut store, "MATCH (n)-[r]-(m) RETURN n,r,m").expect("undirected");
    match undirected {
        QueryResult::Table { rows, .. } => assert_eq!(rows.len(), 2),
        _ => panic!("expected table"),
    }
}

#[test]
fn supports_relationship_optional_where_with_order_skip_limit() {
    let mut store = InMemoryGraphStore::new();
    let n1 = store.create_node(vec!["A".to_string()], Properties::new());
    let n2 = store.create_node(vec!["B".to_string()], Properties::new());
    let _n3 = store.create_node(vec!["C".to_string()], Properties::new());
    let mut edge_props = Properties::new();
    edge_props.insert("weight".to_string(), Value::Float64(0.9f64.to_bits()));
    let _ = store.create_edge(&n1.id, &n2.id, "REL".to_string(), edge_props);

    let filtered = run(
        &mut store,
        "MATCH (n)-[r]->(m) WHERE r.weight > 0.5 WITH n,r,m RETURN n,r,m ORDER BY n.id SKIP 0 LIMIT 10",
    )
    .expect("filtered");
    match filtered {
        QueryResult::Table { rows, .. } => assert_eq!(rows.len(), 1),
        _ => panic!("expected table"),
    }

    let optional = run(&mut store, "OPTIONAL MATCH (n)-[r]->(m) RETURN n,r,m").expect("optional");
    match optional {
        QueryResult::Table { rows, .. } => {
            assert!(rows.iter().any(|row| matches!(row.get(1), Some(Value::String(v)) if v == "NULL")));
        }
        _ => panic!("expected table"),
    }
}

#[test]
fn supports_manifest_call_apoc_subset() {
    let mut store = InMemoryGraphStore::new();
    run(&mut store, "CREATE (n:Paper)").expect("create");

    let schema = run(&mut store, "CALL apoc.meta.schema()").expect("meta schema");
    match schema {
        QueryResult::Table { columns, .. } => {
            assert_eq!(columns, vec!["nodes".to_string(), "relationships".to_string()])
        }
        _ => panic!("expected table"),
    }

    let to_set = run(&mut store, "CALL apoc.coll.toSet([1,2,2,3])").expect("toSet");
    match to_set {
        QueryResult::Table { rows, .. } => {
            assert_eq!(rows.len(), 1);
            assert_eq!(rows[0].len(), 3);
        }
        _ => panic!("expected table"),
    }

    let join = run(&mut store, "CALL apoc.text.join(['a','b'],'-')").expect("join");
    match join {
        QueryResult::Table { rows, .. } => {
            assert_eq!(rows[0][0], Value::String("a-b".to_string()));
        }
        _ => panic!("expected table"),
    }
}

#[test]
fn call_side_effect_procedure_is_atomic_and_returns_fixed_error_code() {
    let mut store = InMemoryGraphStore::new();
    run(&mut store, "CREATE (n:Paper)").expect("create");
    let renamed = run(&mut store, "CALL apoc.refactor.rename.label('Paper','Doc')").expect("rename");
    match renamed {
        QueryResult::Table { rows, .. } => {
            assert_eq!(rows[0][0], Value::Int64(1));
        }
        _ => panic!("expected table"),
    }

    let err = run(&mut store, "CALL apoc.refactor.rename.label('','Doc')").expect_err("invalid arguments");
    assert_eq!(err.code, ErrorCode::InvalidArgument);
}

#[test]
fn enforces_referential_integrity_on_delete() {
    let mut store = InMemoryGraphStore::new();
    run(&mut store, "CREATE (n:Author)").expect("create 1");
    run(&mut store, "CREATE (n:Paper)").expect("create 2");
    let _ = store.create_edge("n1", "n2", "WROTE".to_string(), Properties::new());

    let err = run(&mut store, "DELETE NODE n1").expect_err("must fail");
    assert_eq!(err.code, ErrorCode::ReferentialIntegrityViolation);
    run(&mut store, "DELETE NODE n1 DETACH").expect("detach delete");
}

#[test]
fn supports_match_where_filter() {
    let mut store = InMemoryGraphStore::new();
    run(&mut store, "CREATE (n:Paper)").expect("create");
    run(&mut store, "CREATE (n:Paper)").expect("create 2");
    let result = run(&mut store, "MATCH (n) WHERE n.id='n2' RETURN n").expect("where");
    match result {
        QueryResult::Nodes(nodes) => {
            assert_eq!(nodes.len(), 1);
            assert_eq!(nodes[0].id, "n2");
        }
        _ => panic!("expected nodes"),
    }
}

#[test]
fn supports_optional_match_and_order_skip_limit() {
    let mut store = InMemoryGraphStore::new();
    run(&mut store, "CREATE (n:Paper)").expect("create1");
    run(&mut store, "CREATE (n:Paper)").expect("create2");
    run(&mut store, "CREATE (n:Paper)").expect("create3");
    let result = run(&mut store, "OPTIONAL MATCH (n:Paper) RETURN n ORDER BY n.id SKIP 1 LIMIT 1").expect("optional");
    match result {
        QueryResult::Nodes(nodes) => {
            assert_eq!(nodes.len(), 1);
            assert_eq!(nodes[0].id, "n2");
        }
        _ => panic!("expected nodes"),
    }
}

#[test]
fn supports_with_passthrough() {
    let mut store = InMemoryGraphStore::new();
    run(&mut store, "CREATE (n:Paper)").expect("create");
    let result = run(&mut store, "MATCH (n) WITH n RETURN n").expect("with");
    match result {
        QueryResult::Nodes(nodes) => assert_eq!(nodes.len(), 1),
        _ => panic!("expected nodes"),
    }
}

#[test]
fn rejects_with_alias_scope_violation() {
    let mut store = InMemoryGraphStore::new();
    run(&mut store, "CREATE (n:Paper)").expect("create");
    let err = run(&mut store, "MATCH (n) WITH n AS x RETURN n").expect_err("must fail");
    assert_eq!(err.code, ErrorCode::UnsupportedFeature);
    assert!(err.details.is_some(), "details");
    assert_eq!(detail(&err, "unsupported_clause").as_deref(), Some("WITH"));
}

#[test]
fn supports_merge_on_create_and_on_match_set() {
    let mut store = InMemoryGraphStore::new();
    run(&mut store, "MERGE (n:Paper {title='A'}) ON CREATE SET n.status='new'").expect("merge create");
    run(&mut store, "MERGE (n:Paper {title='A'}) ON MATCH SET n.status='existing'").expect("merge match");
    let result = run(&mut store, "MATCH (n:Paper) RETURN n").expect("match");
    match result {
        QueryResult::Nodes(nodes) => {
            assert_eq!(nodes.len(), 1);
            let status = nodes[0].properties.get("status");
            assert!(matches!(status, Some(Value::String(v)) if v == "existing"));
        }
        _ => panic!("expected nodes"),
    }
}

#[test]
fn supports_remove_property() {
    let mut store = InMemoryGraphStore::new();
    run(&mut store, "CREATE (n:Paper {title='A'})").expect("create");
    run(&mut store, "REMOVE NODE n1 title").expect("remove");
    let result = run(&mut store, "MATCH (n) WHERE n.id='n1' RETURN n").expect("match");
    match result {
        QueryResult::Nodes(nodes) => {
            assert!(!nodes[0].properties.contains_key("title"));
        }
        _ => panic!("expected nodes"),
    }
}

fn table(result: QueryResult) -> (Vec<String>, Vec<Vec<Value>>) {
    match result {
        QueryResult::Table { columns, rows } => (columns, rows),
        _ => panic!("expected table"),
    }
}

#[test]
fn supports_unwind_all_aggregations() {
    let mut store = InMemoryGraphStore::new();
    let (columns, rows) = table(run(&mut store, "UNWIND [1,2,3] AS x RETURN count(x)").expect("count"));
    assert_eq!(columns, vec!["count".to_string()]);
    assert_eq!(rows, vec![vec![Value::Int64(3)]]);

    let (columns, rows) = table(run(&mut store, "UNWIND [1,2,3] AS x RETURN collect(x)").expect("collect"));
    assert_eq!(columns, vec!["collect".to_string()]);
    assert_eq!(rows, vec![vec![Value::Int64(1), Value::Int64(2), Value::Int64(3)]]);

    let (columns, rows) = table(run(&mut store, "UNWIND [1,2,3] AS x RETURN sum(x)").expect("sum"));
    assert_eq!(columns, vec!["sum".to_string()]);
    assert_eq!(rows, vec![vec![Value::Float64(6.0f64.to_bits())]]);

    let (columns, rows) = table(run(&mut store, "UNWIND [1,2,3] AS x RETURN avg(x)").expect("avg"));
    assert_eq!(columns, vec!["avg".to_string()]);
    assert_eq!(rows, vec![vec![Value::Float64(2.0f64.to_bits())]]);

    let (columns, rows) = table(run(&mut store, "UNWIND [1,2,3] AS x RETURN min(x)").expect("min"));
    assert_eq!(columns, vec!["min".to_string()]);
    assert_eq!(rows, vec![vec![Value::Float64(1.0f64.to_bits())]]);

    let (columns, rows) = table(run(&mut store, "UNWIND [1,2,3] AS x RETURN max(x)").expect("max"));
    assert_eq!(columns, vec!["max".to_string()]);
    assert_eq!(rows, vec![vec![Value::Float64(3.0f64.to_bits())]]);
}

#[test]
fn picks_row_comparison_strategy() {
    assert_eq!(
        resolve_row_comparison_strategy("MATCH (n) RETURN n ORDER BY n.id"),
        RowComparisonStrategy::Ordered
    );
    assert_eq!(
        resolve_row_comparison_strategy("MATCH (n) RETURN n"),
        RowComparisonStrategy::AsMultiset
    );
}

#[test]
fn unwind_without_aggregate_returns_one_row_per_item() {
    let mut store = InMemoryGraphStore::new();
    let (columns, rows) = table(run(&mut store, "UNWIND [1,2,3] AS x RETURN x").expect("plain"));
    assert_eq!(columns, vec!["x".to_string()]);
    assert_eq!(rows, vec![vec![Value::Int64(1)], vec![Value::Int64(2)], vec![Value::Int64(3)]]);
    let err = run(&mut store, "UNWIND [1,'a'] AS x RETURN x").expect_err("non-numeric");
    assert_eq!(err.message, "aggregation requires numeric values");
}

#[test]
fn unwind_aggregates_of_empty_list() {
    let mut store = InMemoryGraphStore::new();
    let (_, rows) = table(run(&mut store, "UNWIND [] AS x RETURN count(x)").expect("count"));
    assert_eq!(rows, vec![vec![Value::Int64(0)]]);
    let (_, rows) = table(run(&mut store, "UNWIND [] AS x RETURN avg(x)").expect("avg"));
    assert_eq!(rows, vec![vec![Value::Float64(0.0f64.to_bits())]]);
    let (_, rows) = table(run(&mut store, "UNWIND [] AS x RETURN min(x)").expect("min"));
    assert_eq!(rows, vec![vec![Value::Float64(0.0f64.to_bits())]]);
}

#[test]
fn create_with_properties_then_set_property() {
    let mut store = InMemoryGraphStore::new();
    run(&mut store, "CREATE (n:Paper {title='A', year=2026})").expect("create");
    run(&mut store, "SET NODE n1 title='B'").expect("set");
    let node = store.get_node("n1").expect("n1");
    assert_eq!(node.properties.get("title"), Some(&Value::String("B".to_string())));
    assert_eq!(node.properties.get("year"), Some(&Value::Int64(2026)));
    assert_eq!(node.labels, vec!["Paper".to_string()]);
}

#[test]
fn set_on_missing_node_is_referential_integrity_violation() {
    let mut store = InMemoryGraphStore::new();
    let err = run(&mut store, "SET NODE n999 title='x'").expect_err("missing");
    assert_eq!(err.code, ErrorCode::ReferentialIntegrityViolation);
    assert_eq!(store.node_count(), 0);
}

#[test]
fn malformed_literal_is_a_syntax_error() {
    let mut store = InMemoryGraphStore::new();
    let err = run(&mut store, "CREATE (n:Paper {title=A B})").expect_err("bad literal");
    assert_eq!(err.code, ErrorCode::UnsupportedFeature);
    assert_eq!(detail(&err, "unsupported_clause").as_deref(), Some("SYNTAX"));
    assert_eq!(store.node_count(), 0);
}

#[test]
fn merge_twice_creates_one_node() {
    let mut store = InMemoryGraphStore::new();
    run(&mut store, "MERGE (n:Paper {title='A'})").expect("merge 1");
    run(&mut store, "MERGE (n:Paper {title='A'})").expect("merge 2");
    assert_eq!(store.node_count(), 1);
    run(&mut store, "MERGE (n:Paper {title='B'})").expect("merge 3");
    assert_eq!(store.node_count(), 2);
}

#[test]
fn failed_rename_leaves_labels_unchanged() {
    let mut store = InMemoryGraphStore::new();
    run(&mut store, "CREATE (n:Paper)").expect("create");
    let _ = run(&mut store, "CALL apoc.refactor.rename.label('','Doc')");
    assert_eq!(store.get_node("n1").expect("n1").labels, vec!["Paper".to_string()]);
}

#[test]
fn match_on_empty_store_returns_no_nodes() {
    let mut store = InMemoryGraphStore::new();
    match run(&mut store, "MATCH (n) RETURN n").expect("match") {
        QueryResult::Nodes(nodes) => assert!(nodes.is_empty()),
        _ => panic!("expected nodes"),
    }
}

#[test]
fn join_of_numbers_uses_their_text() {
    let mut store = InMemoryGraphStore::new();
    let (_, rows) = table(run(&mut store, "CALL apoc.text.join([1,2],'-')").expect("join"));
    assert_eq!(rows[0][0], Value::String("1-2".to_string()));
    let err = run(&mut store, "CALL apoc.text.join(['a','b'],',')").expect_err("comma splits the arguments");
    assert_eq!(err.code, ErrorCode::InvalidArgument);
}
