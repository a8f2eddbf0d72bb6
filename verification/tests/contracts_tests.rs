use aira_graphdb::contracts::{
    build_tck_selector_map, load_apoc_procedure_names, load_cypher_p0_grammar_spec, load_error_code_spec,
    load_typemap_spec, resolve_tck_selector, OpenCypher9TckRequiredSpec, TckRequiredId, TckSelectorEntry, TckSource,
    CYPHER_SPEC_ID, ERROR_SPEC_ID, OPENCYPHER9_SPEC_ID, TYPEMAP_SPEC_ID,
};

fn tck() -> OpenCypher9TckRequiredSpec {
    let ids = ["TCK-MATCH-001", "TCK-EXPR-COMPARISON-001"];
    OpenCypher9TckRequiredSpec {
        version: "1.0.0".to_string(),
        spec_id: OPENCYPHER9_SPEC_ID.to_string(),
        source: TckSource { snapshot_ref: "0123456789abcdef0123456789abcdef01234567".to_string() },
        required_tck_ids: ids
            .iter()
            .map(|id| TckRequiredId {
                id: id.to_string(),
                upstream_file: "features/clauses/match/Match1.feature".to_string(),
                upstream_scenario: "scenario".to_string(),
            })
            .collect(),
        tck_selector_map: ids
            .iter()
            .map(|id| TckSelectorEntry { tck_id: id.to_string(), selector: id.to_string() })
            .collect(),
    }
}

#[test]
fn loads_typemap_contract() {
    let spec = load_typemap_spec();
    assert_eq!(spec.spec_id, TYPEMAP_SPEC_ID);
    assert!(spec.protocol_versions.iter().any(|v| v == "protocol-p0@1.0.0"));
    assert!(!spec.mappings.is_empty());
}

#[test]
fn loads_cypher_contract() {
    let spec = load_cypher_p0_grammar_spec();
    assert_eq!(spec.spec_id, CYPHER_SPEC_ID);
    assert!(spec.read_only_clauses.iter().any(|c| c == "MATCH"));
    assert!(spec.write_clauses.iter().any(|c| c == "MERGE"));
}

#[test]
fn loads_error_code_contract() {
    let spec = load_error_code_spec();
    assert_eq!(spec.spec_id, ERROR_SPEC_ID);
    assert!(spec.codes.iter().any(|entry| entry.code == "PROTOCOL_VERSION_MISMATCH"));
    assert!(spec.codes.iter().any(|entry| entry.code == "AUTH_FAILED"));
}

#[test]
fn builds_selector_map_and_validates_all_required_ids() {
    let spec = tck();
    let map = build_tck_selector_map(&spec).expect("selector map must be valid");
    assert_eq!(map.get("TCK-MATCH-001").map(String::as_str), Some("TCK-MATCH-001"));
    assert_eq!(map.len(), spec.tck_selector_map.len());
}

#[test]
fn resolves_selector_for_known_tck_id() {
    let spec = tck();
    let selector = resolve_tck_selector(&spec, "TCK-EXPR-COMPARISON-001").expect("known tck id should resolve");
    assert_eq!(selector, "TCK-EXPR-COMPARISON-001");
}

#[test]
fn fails_when_selector_is_unresolved() {
    let spec = tck();
    let err = resolve_tck_selector(&spec, "TCK-NOT-EXIST-999").expect_err("missing tck id should fail");
    assert!(err.contains("unresolved tck_id"));
}

#[test]
fn duplicate_selector_mapping_is_refused() {
    let mut spec = tck();
    spec.tck_selector_map.push(TckSelectorEntry { tck_id: "TCK-MATCH-001".to_string(), selector: "x".to_string() });
    let err = build_tck_selector_map(&spec).expect_err("duplicate");
    assert_eq!(err, "duplicate selector mapping for tck_id=TCK-MATCH-001");
}

#[test]
fn missing_selector_is_refused() {
    let mut spec = tck();
    spec.tck_selector_map.remove(0);
    let err = build_tck_selector_map(&spec).expect_err("missing");
    assert_eq!(err, "unresolved tck_id=TCK-MATCH-001");
}

#[test]
fn apoc_manifest_lists_the_callable_procedures() {
    let names = load_apoc_procedure_names();
    assert!(names.iter().any(|n| n == "apoc.meta.schema"));
    assert!(names.iter().any(|n| n == "apoc.refactor.rename.label"));
}

#[test]
fn error_code_spec_describes_each_code() {
    let spec = load_error_code_spec();
    assert_eq!(spec.codes[0].code, "PROTOCOL_VERSION_MISMATCH");
    assert_eq!(spec.codes[0].description, "protocol or canonical type system version is not supported");
    assert_eq!(spec.codes[12].description, "namespace is invalid");
}

#[test]
fn duplicate_required_id_is_refused() {
    let mut spec = tck();
    let again = TckRequiredId {
        id: "TCK-MATCH-001".to_string(),
        upstream_file: "f".to_string(),
        upstream_scenario: "s".to_string(),
    };
    spec.required_tck_ids.push(again);
    let err = build_tck_selector_map(&spec).expect_err("duplicate required id");
    assert_eq!(err, "duplicate required_tck_id=TCK-MATCH-001");
    let err = resolve_tck_selector(&spec, "TCK-MATCH-001").expect_err("invalid map");
    assert_eq!(err, "duplicate required_tck_id=TCK-MATCH-001");
}
