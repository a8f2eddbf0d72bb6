//! Deployment configuration and the checks made before a server runtime starts.

use vstd::prelude::*;
use crate::errors::{ErrorCode, GraphDbError};
use crate::bench::P0_SERVER_CONCURRENCY_MIN;

verus! {

/// How the database is deployed.
#[derive(Debug, Clone, Copy, PartialEq, Eq, Structural)]
pub enum DeploymentMode {
    Embedded,
    Server,
}

#[verifier::external_type_specification]
#[verifier::external_body]
pub struct ExPathBuf(std::path::PathBuf);

/// The configuration of a runtime.
#[derive(Debug)]
pub struct RuntimeConfig {
    pub mode: DeploymentMode,
    pub db_file: std::path::PathBuf,
    pub port: Option<u16>,
    pub concurrency_profile: Option<String>,
}

/// Whether a concurrency profile can be served with the given number of connections: the
/// profile `P0-SERVER-CONCURRENCY` needs at least 32.
pub open spec fn profile_supported(profile: Option<Seq<char>>, active_connections: usize) -> bool {
    !(profile == Some("P0-SERVER-CONCURRENCY"@) && active_connections < 32)
}

/// Checks that a concurrency profile can be served with the given number of connections.
pub fn validate_server_profile(profile: Option<&str>, active_connections: usize) -> (res: Result<(), GraphDbError>)
    ensures
        res is Ok <==> profile_supported(crate::graph::opt_str_view(profile), active_connections),
        res matches Err(e) ==> e.code == ErrorCode::UnsupportedFeature
            && e.message@ == "P0-SERVER-CONCURRENCY requires at least 32 concurrent connections"@,
{
    let named = match profile {
        Some(p) => crate::text::str_eq(p, "P0-SERVER-CONCURRENCY"),
        None => false,
    };
    if named && active_connections < 32 {
        return Err(GraphDbError::new(
            ErrorCode::UnsupportedFeature,
            "P0-SERVER-CONCURRENCY requires at least 32 concurrent connections",
        ));
    }
    Ok(())
}

/// The checks a server runtime makes before it takes the write lock: the configuration must be
/// in server mode, and its concurrency profile must be served by the minimum number of
/// server connections.
pub fn check_server_config(config: &RuntimeConfig) -> (res: Result<(), GraphDbError>)
    ensures
        res is Ok <==> (config.mode == DeploymentMode::Server
            && profile_supported(crate::cypher::opt_string_view(config.concurrency_profile), P0_SERVER_CONCURRENCY_MIN)),
        res matches Err(e) ==> e.code == ErrorCode::UnsupportedFeature,
        config.mode != DeploymentMode::Server ==> (res matches Err(e) && e.message@ == "server runtime requires SERVER mode"@),
{
    if config.mode != DeploymentMode::Server {
        return Err(GraphDbError::new(ErrorCode::UnsupportedFeature, "server runtime requires SERVER mode"));
    }
    let profile: Option<&str> = match &config.concurrency_profile {
        Some(p) => Some(p.as_str()),
        None => None,
    };
    validate_server_profile(profile, P0_SERVER_CONCURRENCY_MIN)
}

/// Authorizes a request: a bearer token is required, and must pass `validate_bearer_token`
/// with the given JSON readers.
pub fn authorize<H: Fn(Vec<u8>) -> Option<crate::auth::JwtHeader>, C: Fn(Vec<u8>) -> Option<crate::auth::JwtClaims>>(
    auth: &crate::auth::AuthConfig, bearer_token: Option<&str>, header_json: &H, claims_json: &C)
    -> (res: Result<(), GraphDbError>)
    requires
        forall|b: Vec<u8>| #[trigger] header_json.requires((b,)),
        forall|b: Vec<u8>| #[trigger] claims_json.requires((b,)),
    ensures
        bearer_token is None ==> (res matches Err(e) && e.code == ErrorCode::AuthRequired
            && e.message@ == "authentication required before query execution"@ && e.details is None),
        bearer_token is Some ==> exists|now: u64| #[trigger] crate::auth::bearer_token_answer(auth,
            bearer_token->0@, *header_json, *claims_json, now, res),
{
    match bearer_token {
        None => Err(GraphDbError::new(ErrorCode::AuthRequired, "authentication required before query execution")),
        Some(t) => crate::auth::validate_bearer_token(auth, t, header_json, claims_json),
    }
}

} // verus!
