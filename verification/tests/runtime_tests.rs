use aira_graphdb::errors::ErrorCode;
use aira_graphdb::runtime::{check_server_config, validate_server_profile, DeploymentMode, RuntimeConfig};

#[test]
fn server_runtime_enforces_profile_minimum() {
    let config = RuntimeConfig {
        mode: DeploymentMode::Server,
        db_file: std::path::PathBuf::from("agdb-runtime.db"),
        port: Some(7687),
        concurrency_profile: Some("P0-SERVER-CONCURRENCY".to_string()),
    };
    let err = validate_server_profile(config.concurrency_profile.as_deref(), 16)
        .expect_err("profile min should fail");
    assert_eq!(err.code, ErrorCode::UnsupportedFeature);
}

#[test]
fn profile_is_met_at_minimum_connections() {
    assert!(validate_server_profile(Some("P0-SERVER-CONCURRENCY"), 32).is_ok());
    assert!(validate_server_profile(Some("OTHER"), 1).is_ok());
    assert!(validate_server_profile(None, 0).is_ok());
}

#[test]
fn server_config_requires_server_mode() {
    let config = RuntimeConfig {
        mode: DeploymentMode::Embedded,
        db_file: std::path::PathBuf::from("agdb-runtime.db"),
        port: None,
        concurrency_profile: None,
    };
    let err = check_server_config(&config).expect_err("embedded mode");
    assert_eq!(err.code, ErrorCode::UnsupportedFeature);
    assert_eq!(err.message, "server runtime requires SERVER mode");
}

#[test]
fn server_config_with_concurrency_profile_is_accepted() {
    let config = RuntimeConfig {
        mode: DeploymentMode::Server,
        db_file: std::path::PathBuf::from("agdb-runtime.db"),
        port: Some(7687),
        concurrency_profile: Some("P0-SERVER-CONCURRENCY".to_string()),
    };
    assert!(check_server_config(&config).is_ok());
}

fn no_header(_bytes: Vec<u8>) -> Option<aira_graphdb::auth::JwtHeader> {
    None
}

fn no_claims(_bytes: Vec<u8>) -> Option<aira_graphdb::auth::JwtClaims> {
    None
}

#[test]
fn server_runtime_requires_auth() {
    let auth = aira_graphdb::auth::AuthConfig {
        allowed_algorithms: vec!["RS256".to_string()],
        expected_issuer: "https://issuer.example".to_string(),
        expected_audience: "aira-graphdb".to_string(),
        known_kids: vec!["k1".to_string()],
    };
    let err = aira_graphdb::runtime::authorize(&auth, None, &no_header, &no_claims).expect_err("must require auth");
    assert_eq!(err.code, ErrorCode::AuthRequired);
    let err = aira_graphdb::runtime::authorize(&auth, Some("a.b"), &no_header, &no_claims).expect_err("bad token");
    assert_eq!(err.code, ErrorCode::AuthFailed);
}
