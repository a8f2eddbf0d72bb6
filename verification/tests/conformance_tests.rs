use aira_graphdb::conformance::{
    validate_neo4j_compat_subquery_clauses, validate_neo4j_compat_unsupported_clauses,
    conformance_failed_test_ids, derive_feature_results, evaluate_neo4j_compat_governance_checks, find_unresolved_tck_ids,
    is_hex_sha40, run_clause_probes, run_conformance_governance_checks, run_neo4j_compat_governance_checks,
    validate_full_support_rules, validate_manifest_schema, validate_manifest_tck_sync, validate_required_negative_cases,
    validate_snapshot_ref_is_sha, ManifestFeature, ManifestSpec, Neo4jCompatFeature, Neo4jCompatManifestSpec,
    Neo4jCompatRequiredSpec, RequiredTestCase, RequiredTestsSpec, NEO4J_COMPAT_REQUIRED_SPEC_ID,
    OPENCYPHER_REQUIRED_SPEC_ID,
};
use aira_graphdb::contracts::{
    build_tck_selector_map, OpenCypher9TckRequiredSpec, TckRequiredId, TckSelectorEntry, TckSource, OPENCYPHER9_SPEC_ID,
};
use aira_graphdb::cypher::FloatOps;
use aira_graphdb::errors::{ErrorCode, GraphDbError};

struct F64Ops;

impl FloatOps for F64Ops {
    fn float_bits(&self, text: &str) -> u64 {
        text.parse::<f64>().unwrap_or(0.0).to_bits()
    }
    fn int_to_float(&self, v: i64) -> u64 {
        (v as f64).to_bits()
    }
    fn float_le(&self, a: u64, b: u64) -> bool {
        f64::from_bits(a) <= f64::from_bits(b)
    }
    fn float_sum(&self, values: &Vec<u64>) -> u64 {
        values.iter().map(|b| f64::from_bits(*b)).sum::<f64>().to_bits()
    }
    fn float_avg(&self, values: &Vec<u64>) -> u64 {
        if values.is_empty() {
            return 0.0f64.to_bits();
        }
        let sum: f64 = values.iter().map(|b| f64::from_bits(*b)).sum();
        (sum / values.len() as f64).to_bits()
    }
    fn float_min(&self, values: &Vec<u64>) -> u64 {
        let m = values.iter().map(|b| f64::from_bits(*b)).fold(f64::INFINITY, f64::min);
        (if m.is_finite() { m } else { 0.0 }).to_bits()
    }
    fn float_max(&self, values: &Vec<u64>) -> u64 {
        let m = values.iter().map(|b| f64::from_bits(*b)).fold(f64::NEG_INFINITY, f64::max);
        (if m.is_finite() { m } else { 0.0 }).to_bits()
    }
    fn float_text(&self, v: u64) -> String {
        f64::from_bits(v).to_string()
    }
}

const SHA: &str = "0123456789abcdef0123456789abcdef01234567";

fn tck() -> OpenCypher9TckRequiredSpec {
    let ids = ["TCK-MATCH-001", "TCK-EXPR-COMPARISON-001"];
    OpenCypher9TckRequiredSpec {
        version: "1.0.0".to_string(),
        spec_id: OPENCYPHER9_SPEC_ID.to_string(),
        source: TckSource { snapshot_ref: SHA.to_string() },
        required_tck_ids: ids
            .iter()
            .map(|id| TckRequiredId {
                id: id.to_string(),
                upstream_file: "features/clauses/match/Match1.feature".to_string(),
                upstream_scenario: "scenario".to_string(),
            })
            .collect(),
        tck_selector_map: ids
            .iter()
            .map(|id| TckSelectorEntry { tck_id: id.to_string(), selector: id.to_string() })
            .collect(),
    }
}

fn case(id: &str, kind: &str) -> RequiredTestCase {
    RequiredTestCase {
        id: id.to_string(),
        test_type: kind.to_string(),
        covers_req: "REQ-AGDB-020".to_string(),
        covers_acceptance: "CYPHER-OC9-001".to_string(),
        covers_tck_ids: None,
    }
}

fn required() -> RequiredTestsSpec {
    RequiredTestsSpec {
        version: "1.0.0".to_string(),
        spec_id: OPENCYPHER_REQUIRED_SPEC_ID.to_string(),
        required_tests: vec![
            case("OC9-TCK-FULL-RUN-001", "positive"),
            case("OC9-TCK-MANIFEST-SYNC-001", "positive"),
            case("OC9-SYNTAX-ERROR-CODE-001", "negative"),
            case("OC9-UNSUPPORTED-FEATURE-ATOMICITY-001", "negative"),
            case("OC9-MANIFEST-NORMATIVE-NONREQUIRED-FAIL-001", "negative"),
            case("OC9-TCK-SNAPSHOT-REF-SHA-001", "negative"),
        ],
    }
}

fn feature(id: &str, normative: bool, status: &str) -> ManifestFeature {
    ManifestFeature { feature_id: id.to_string(), normative, status: status.to_string() }
}

fn manifest() -> ManifestSpec {
    ManifestSpec {
        spec_id: OPENCYPHER_REQUIRED_SPEC_ID.to_string(),
        full_support: true,
        coverage_mode: "closed_world".to_string(),
        snapshot_ref: SHA.to_string(),
        upstream_normative_total_count: 2,
        extracted_normative_hash: "sha256:abc".to_string(),
        normative_feature_count: 1,
        classified_feature_count: 2,
        classified_normative_feature_count: 1,
        covers_tck_ids: vec!["TCK-EXPR-COMPARISON-001".to_string(), "TCK-MATCH-001".to_string()],
        features: vec![feature("CLAUSE-MATCH", true, "required"), feature("EXT-APOC", false, "extension")],
    }
}

fn neo4j_required() -> Neo4jCompatRequiredSpec {
    Neo4jCompatRequiredSpec {
        baseline_id: NEO4J_COMPAT_REQUIRED_SPEC_ID.to_string(),
        manifest_id: "agdb-cypher-neo4j-compat.v1.0.0".to_string(),
        required_test_ids: [
            "NEO4J-COMPAT-RUN-001",
            "NEO4J-COMPAT-RUN-002",
            "NEO4J-COMPAT-RUN-003",
            "NEO4J-COMPAT-RUN-004",
            "NEO4J-COMPAT-NEG-001",
            "NEO4J-COMPAT-NEG-002",
        ]
        .iter()
        .map(|s| s.to_string())
        .collect(),
        governance_checks: [
            "manifest_id_matches_contract",
            "required_feature_count_matches_required_status_entries",
            "classified_feature_count_matches_feature_entries",
            "required_entries_cover_req_024",
            "unsupported_entries_cover_req_025",
        ]
        .iter()
        .map(|s| s.to_string())
        .collect(),
    }
}

fn neo4j_manifest() -> Neo4jCompatManifestSpec {
    let mut features = vec![Neo4jCompatFeature {
        feature_id: "NEO4J-MATCH".to_string(),
        clause: "MATCH".to_string(),
        status: "required".to_string(),
        covers_req: vec!["REQ-AGDB-024".to_string()],
        covers_acceptance: (1..=21).map(|i| format!("CYPHER-NEO4J-{i:03}")).collect(),
    }];
    for (i, clause) in ["FOREACH", "shortestPath", "variable-length path", "pattern comprehension", "LOAD CSV"]
        .iter()
        .enumerate()
    {
        features.push(Neo4jCompatFeature {
            feature_id: format!("NEO4J-UNSUPPORTED-{i}"),
            clause: clause.to_string(),
            status: "unsupported".to_string(),
            covers_req: vec!["REQ-AGDB-025".to_string()],
            covers_acceptance: vec!["CYPHER-NEO4J-022".to_string()],
        });
    }
    Neo4jCompatManifestSpec {
        manifest_id: "agdb-cypher-neo4j-compat.v1.0.0".to_string(),
        baseline_mode: "closed_world".to_string(),
        snapshot_ref: SHA.to_string(),
        classified_feature_count: 6,
        required_feature_count: 1,
        features,
    }
}

#[test]
fn validates_governance_and_sync() {
    run_conformance_governance_checks(&tck(), &required(), &manifest()).expect("governance checks must pass");
}

#[test]
fn validates_selector_map_resolvability() {
    let tck = tck();
    let map = build_tck_selector_map(&tck).expect("selector map");
    assert_eq!(map.len(), tck.required_tck_ids.len());
}

#[test]
fn required_tests_have_traceability_fields() {
    for case in required().required_tests {
        assert!(!case.covers_req.trim().is_empty());
        assert!(!case.covers_acceptance.trim().is_empty());
        assert!(case.test_type == "positive" || case.test_type == "negative");
    }
}

#[test]
fn validates_neo4j_compat_governance_bundle() {
    run_neo4j_compat_governance_checks(&neo4j_required(), &neo4j_manifest(), &Ok(()), &Ok(()))
        .expect("neo4j compat governance checks must pass");
}

#[test]
fn neo4j_governance_names_the_failing_check() {
    let mut m = neo4j_manifest();
    m.required_feature_count = 2;
    let err = run_neo4j_compat_governance_checks(&neo4j_required(), &m, &Ok(()), &Ok(())).expect_err("count mismatch");
    assert_eq!(err.message, "neo4j compat governance check failed: manifest_schema_valid");
    let probe_err = GraphDbError::new(ErrorCode::UnsupportedFeature, "subquery failed");
    let err = run_neo4j_compat_governance_checks(&neo4j_required(), &neo4j_manifest(), &Ok(()), &Err(probe_err))
        .expect_err("probe failure");
    assert_eq!(err.message, "neo4j compat governance check failed: subquery_clauses_execute");
}

#[test]
fn neo4j_governance_lists_every_check() {
    let checks = evaluate_neo4j_compat_governance_checks(&neo4j_required(), &neo4j_manifest(), &Ok(()), &Ok(()));
    assert_eq!(checks.len(), 4 + 6 + 5 + 2);
    assert!(checks.iter().all(|c| c.status == "PASS"));
    assert_eq!(checks[4].check_id, "required_test_NEO4J-COMPAT-RUN-001");
}

#[test]
fn snapshot_ref_must_be_a_commit_sha() {
    assert!(is_hex_sha40(SHA));
    assert!(!is_hex_sha40("main"));
    let mut t = tck();
    t.source.snapshot_ref = "main".to_string();
    let err = validate_snapshot_ref_is_sha(&t).expect_err("not a sha");
    assert_eq!(err.message, "snapshot_ref must be 40-char commit SHA, got: main");
}

#[test]
fn normative_features_must_be_required_under_full_support() {
    let mut m = manifest();
    m.features[0].status = "optional".to_string();
    let err = validate_full_support_rules(&m).expect_err("non-required normative");
    assert_eq!(err.message, "normative feature CLAUSE-MATCH must be required under full_support");
    m.full_support = false;
    assert!(validate_full_support_rules(&m).is_ok());
}

#[test]
fn manifest_schema_checks_counts() {
    let mut m = manifest();
    m.normative_feature_count = 2;
    let err = validate_manifest_schema(&m).expect_err("count mismatch");
    assert_eq!(err.message, "normative_feature_count and classified_normative_feature_count must match");
}

#[test]
fn missing_negative_case_is_named() {
    let mut r = required();
    r.required_tests.retain(|c| c.id != "OC9-TCK-SNAPSHOT-REF-SHA-001");
    let err = validate_required_negative_cases(&r).expect_err("missing");
    assert_eq!(err.message, "mandatory negative-case missing: OC9-TCK-SNAPSHOT-REF-SHA-001");
}

#[test]
fn manifest_must_cover_required_tck_ids() {
    let mut m = manifest();
    m.covers_tck_ids.pop();
    let err = validate_manifest_tck_sync(&m, &tck()).expect_err("mismatch");
    assert_eq!(err.message, "covers_tck_ids and required_tck_ids mismatch");
}

#[test]
fn unresolved_ids_are_reported() {
    assert!(find_unresolved_tck_ids(&tck()).is_empty());
    let mut t = tck();
    t.tck_selector_map.pop();
    assert_eq!(find_unresolved_tck_ids(&t).len(), 2);
}

#[test]
fn clause_probes_cover_fourteen_clauses() {
    let results = run_clause_probes(&F64Ops);
    assert_eq!(results.len(), 14);
    assert_eq!(results[0].clause, "MATCH");
    assert_eq!(results[0].status, "PASS");
    assert_eq!(results[13].clause, "DELETE");
}

#[test]
fn failed_ids_of_a_valid_bundle_are_the_subquery_probes() {
    let clauses = run_clause_probes(&F64Ops);
    let m = manifest();
    let features = derive_feature_results(&m.features, &clauses, &F64Ops);
    assert_eq!(features.len(), 2);
    let (failed, negatives_ok) = conformance_failed_test_ids(&tck(), &required(), &m, &clauses, &features);
    assert!(negatives_ok);
    assert_eq!(failed, vec!["CLAUSE-CALL {".to_string(), "CLAUSE-EXISTS".to_string()]);
}

#[test]
fn unsupported_clause_probe_reports_the_first_mismatch() {
    // FOREACH is refused under its own name; the shortestPath query is refused as a MATCH form.
    let err = validate_neo4j_compat_unsupported_clauses(&F64Ops).unwrap_err();
    assert_eq!(err.code, ErrorCode::UnsupportedFeature);
    assert_eq!(err.message, "unsupported clause detail mismatch: expected shortestPath, got Some(\"MATCH\")");
    assert!(err.details.is_none());
}

#[test]
fn subquery_probe_fails_where_exists_is_not_run() {
    let res = validate_neo4j_compat_subquery_clauses(&F64Ops);
    assert!(res.is_err());
}
