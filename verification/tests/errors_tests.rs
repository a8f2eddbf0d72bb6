use aira_graphdb::contracts::{ErrorCodeEntry, ErrorCodeSpec, ERROR_SPEC_ID};
use aira_graphdb::errors::{ErrorCategory, ErrorCode, ErrorRegistry, GraphDbError, RegistryError};

#[test]
fn loads_registry_from_contract() {
    let registry = ErrorRegistry::load().expect("registry should load");

    let protocol = registry
        .definition(ErrorCode::ProtocolVersionMismatch)
        .expect("protocol mismatch code exists");
    assert_eq!(protocol.category, ErrorCategory::Protocol);
    assert!(registry.is_known_code_str("AUTH_FAILED"));
}

#[test]
fn filters_definitions_by_category() {
    let registry = ErrorRegistry::load().expect("registry should load");
    let auth_definitions = registry.definitions_by_category(ErrorCategory::Auth);
    assert_eq!(auth_definitions.len(), 2);
}

#[test]
fn rejects_unknown_codes() {
    let spec = ErrorCodeSpec {
        spec_id: ERROR_SPEC_ID.to_string(),
        codes: vec![ErrorCodeEntry {
            code: "NOT_A_REAL_CODE".to_string(),
            category: "auth".to_string(),
            description: "invalid".to_string(),
        }],
    };

    let result = ErrorRegistry::from_spec(spec);
    assert!(matches!(result, Err(RegistryError::UnknownCode(_))));
}

#[test]
fn error_code_names_round_trip() {
    let all = [
        ErrorCode::ProtocolVersionMismatch,
        ErrorCode::UnsupportedFeature,
        ErrorCode::RetryableConflict,
        ErrorCode::WriteLockConflict,
        ErrorCode::IncompatibleFormat,
        ErrorCode::AuthRequired,
        ErrorCode::AuthFailed,
        ErrorCode::ReferentialIntegrityViolation,
        ErrorCode::InvalidArgument,
        ErrorCode::InvalidTopK,
        ErrorCode::InvalidThreshold,
        ErrorCode::InvalidCorpusId,
        ErrorCode::InvalidNamespace,
    ];
    for code in all {
        assert_eq!(ErrorCode::from_str(code.as_str()), Some(code));
    }
    assert_eq!(ErrorCode::AuthFailed.as_str(), "AUTH_FAILED");
    assert_eq!(ErrorCode::from_str("NOPE"), None);
}

#[test]
fn registry_rejects_wrong_spec_id() {
    let spec = ErrorCodeSpec { spec_id: "OTHER".to_string(), codes: vec![] };
    assert!(matches!(ErrorRegistry::from_spec(spec), Err(RegistryError::SpecIdMismatch { .. })));
}

#[test]
fn registry_rejects_unknown_category_and_duplicates() {
    let unknown_category = ErrorCodeSpec {
        spec_id: ERROR_SPEC_ID.to_string(),
        codes: vec![ErrorCodeEntry {
            code: "AUTH_FAILED".to_string(),
            category: "weather".to_string(),
            description: "x".to_string(),
        }],
    };
    assert!(matches!(ErrorRegistry::from_spec(unknown_category), Err(RegistryError::UnknownCategory(_))));
    let duplicate = ErrorCodeSpec {
        spec_id: ERROR_SPEC_ID.to_string(),
        codes: vec![
            ErrorCodeEntry { code: "AUTH_FAILED".to_string(), category: "auth".to_string(), description: "a".to_string() },
            ErrorCodeEntry { code: "AUTH_FAILED".to_string(), category: "auth".to_string(), description: "b".to_string() },
        ],
    };
    assert!(matches!(ErrorRegistry::from_spec(duplicate), Err(RegistryError::DuplicateCode(_))));
}

#[test]
fn error_details_hold_the_last_value() {
    let err = GraphDbError::new(ErrorCode::UnsupportedFeature, "m")
        .with_detail("unsupported_clause", "A")
        .with_detail("unsupported_clause", "B");
    assert_eq!(err.detail("unsupported_clause").map(String::as_str), Some("B"));
    assert_eq!(err.code.category(), ErrorCategory::from_str("query").expect("category"));
}

#[test]
fn write_lock_conflict_is_transaction_contention() {
    assert_eq!(ErrorCode::WriteLockConflict.category(), ErrorCategory::Transaction);
    assert_eq!(ErrorCode::RetryableConflict.category(), ErrorCategory::Transaction);
    assert_eq!(ErrorCode::IncompatibleFormat.category(), ErrorCategory::Storage);
}
