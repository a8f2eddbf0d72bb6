use aira_graphdb::auth::{
    check_token_claims, decode_segment_bytes, split_token, validate_bearer_token, validate_bearer_token_at, AuthConfig, JwtClaims, JwtHeader,
};
use aira_graphdb::errors::{ErrorCode, GraphDbError};
use base64::Engine;

const NOW: u64 = 1_700_000_000;

fn config() -> AuthConfig {
    AuthConfig {
        allowed_algorithms: vec!["RS256".to_string()],
        expected_issuer: "https://issuer.example".to_string(),
        expected_audience: "aira-graphdb".to_string(),
        known_kids: vec!["k1".to_string()],
    }
}

fn header(alg: &str, kid: &str) -> JwtHeader {
    JwtHeader { alg: alg.to_string(), kid: Some(kid.to_string()) }
}

fn claims(exp_offset: u64) -> JwtClaims {
    JwtClaims {
        iss: "https://issuer.example".to_string(),
        aud: "aira-graphdb".to_string(),
        exp: NOW + exp_offset,
        nbf: Some(NOW - 1),
    }
}

fn reason(err: &GraphDbError) -> Option<String> {
    err.detail("auth_reason").cloned()
}

fn header_json(bytes: Vec<u8>) -> Option<JwtHeader> {
    let v: serde_json::Value = serde_json::from_slice(&bytes).ok()?;
    Some(JwtHeader {
        alg: v.get("alg")?.as_str()?.to_string(),
        kid: v.get("kid").and_then(|k| k.as_str()).map(|k| k.to_string()),
    })
}

fn claims_json(bytes: Vec<u8>) -> Option<JwtClaims> {
    let v: serde_json::Value = serde_json::from_slice(&bytes).ok()?;
    Some(JwtClaims {
        iss: v.get("iss")?.as_str()?.to_string(),
        aud: v.get("aud")?.as_str()?.to_string(),
        exp: v.get("exp")?.as_u64()?,
        nbf: v.get("nbf").and_then(|n| n.as_u64()),
    })
}

fn now_secs() -> u64 {
    std::time::SystemTime::now().duration_since(std::time::UNIX_EPOCH).expect("time").as_secs()
}

fn token(alg: &str, kid: &str, exp_offset: u64) -> String {
    let now = now_secs();
    let enc = |s: String| base64::engine::general_purpose::URL_SAFE_NO_PAD.encode(s.as_bytes());
    let header = enc(format!("{{\"alg\":\"{alg}\",\"kid\":\"{kid}\"}}"));
    let claims = enc(format!(
        "{{\"iss\":\"https://issuer.example\",\"aud\":\"aira-graphdb\",\"exp\":{},\"nbf\":{}}}",
        now + exp_offset,
        now.saturating_sub(1)
    ));
    format!("{header}.{claims}.signature")
}

#[test]
fn accepts_valid_token() {
    let jwt = token("RS256", "k1", 300);
    validate_bearer_token(&config(), &jwt, &header_json, &claims_json).expect("valid token");
}

#[test]
fn rejects_alg_none() {
    let jwt = token("none", "k1", 300);
    let err = validate_bearer_token(&config(), &jwt, &header_json, &claims_json).expect_err("alg none must fail");
    assert_eq!(err.code, ErrorCode::AuthFailed);
}

#[test]
fn rejects_unknown_kid() {
    let jwt = token("RS256", "k2", 300);
    let err = validate_bearer_token(&config(), &jwt, &header_json, &claims_json).expect_err("unknown kid");
    assert_eq!(err.code, ErrorCode::AuthFailed);
}

#[test]
fn claims_check_accepts_valid_claims() {
    check_token_claims(&config(), &header("RS256", "k1"), &claims(300), NOW).expect("valid token");
}

#[test]
fn claims_check_rejects_alg_none() {
    let err = check_token_claims(&config(), &header("none", "k1"), &claims(300), NOW).expect_err("alg none must fail");
    assert_eq!(err.code, ErrorCode::AuthFailed);
    assert_eq!(reason(&err).as_deref(), Some("algorithm_not_allowed"));
}

#[test]
fn claims_check_rejects_unknown_kid() {
    let err = check_token_claims(&config(), &header("RS256", "k2"), &claims(300), NOW).expect_err("unknown kid");
    assert_eq!(err.code, ErrorCode::AuthFailed);
    assert_eq!(reason(&err).as_deref(), Some("kid_unresolved"));
}

#[test]
fn malformed_segments_are_refused_in_order() {
    let err = validate_bearer_token(&config(), "bad.token", &header_json, &claims_json).expect_err("two segments");
    assert_eq!(reason(&err).as_deref(), Some("token_segments"));
    let err = validate_bearer_token(&config(), "a*b.c.sig", &header_json, &claims_json).expect_err("bad base64");
    assert_eq!(reason(&err).as_deref(), Some("base64_decode_failed"));
    let not_json = base64::engine::general_purpose::URL_SAFE_NO_PAD.encode(b"not json");
    let err = validate_bearer_token(&config(), &format!("{not_json}.{not_json}.sig"), &header_json, &claims_json).expect_err("bad json");
    assert_eq!(reason(&err).as_deref(), Some("json_decode_failed"));
}

#[test]
fn rejects_duplicate_kid() {
    let mut cfg = config();
    cfg.known_kids.push("k1".to_string());
    let err = check_token_claims(&cfg, &header("RS256", "k1"), &claims(300), NOW).expect_err("duplicate kid");
    assert_eq!(err.message, "kid unresolved or non-unique");
}

#[test]
fn rejects_missing_kid_without_reason() {
    let h = JwtHeader { alg: "RS256".to_string(), kid: None };
    let err = check_token_claims(&config(), &h, &claims(300), NOW).expect_err("missing kid");
    assert_eq!(err.message, "missing kid");
    assert!(err.details.is_none());
}

#[test]
fn rejects_expired_and_premature_tokens() {
    let mut c = claims(0);
    let err = check_token_claims(&config(), &header("RS256", "k1"), &c, NOW).expect_err("expired");
    assert_eq!(reason(&err).as_deref(), Some("token_expired"));
    c.exp = NOW + 10;
    c.nbf = Some(NOW + 5);
    let err = check_token_claims(&config(), &header("RS256", "k1"), &c, NOW).expect_err("not yet valid");
    assert_eq!(reason(&err).as_deref(), Some("token_not_yet_valid"));
}

#[test]
fn rejects_issuer_and_audience_mismatch() {
    let mut c = claims(300);
    c.iss = "https://other.example".to_string();
    let err = check_token_claims(&config(), &header("RS256", "k1"), &c, NOW).expect_err("issuer");
    assert_eq!(reason(&err).as_deref(), Some("issuer_mismatch"));
    let mut c = claims(300);
    c.aud = "other".to_string();
    let err = check_token_claims(&config(), &header("RS256", "k1"), &c, NOW).expect_err("audience");
    assert_eq!(reason(&err).as_deref(), Some("audience_mismatch"));
}

#[test]
fn splits_token_into_header_and_claims() {
    let (h, c) = split_token("aaa.bbb.sig").expect("three segments");
    assert_eq!(h, "aaa");
    assert_eq!(c, "bbb");
    let err = split_token("aaa.bbb").expect_err("two segments");
    assert_eq!(reason(&err).as_deref(), Some("token_segments"));
    let err = split_token("aaa.bbb.").expect_err("empty signature");
    assert_eq!(reason(&err).as_deref(), Some("empty_signature"));
    let err = split_token("bad.token").expect_err("bad token");
    assert_eq!(err.code, ErrorCode::AuthFailed);
}

#[test]
fn decodes_url_safe_segments() {
    let encoded = base64::engine::general_purpose::URL_SAFE_NO_PAD.encode(b"{\"alg\":\"RS256\"}");
    let bytes = decode_segment_bytes(&encoded).expect("decodes");
    assert_eq!(bytes, b"{\"alg\":\"RS256\"}".to_vec());
    let err = decode_segment_bytes("not*base64").expect_err("invalid");
    assert_eq!(reason(&err).as_deref(), Some("base64_decode_failed"));
}

fn fixed_token(header_json: &str, claims_json: &str) -> String {
    let enc = |s: &str| base64::engine::general_purpose::URL_SAFE_NO_PAD.encode(s.as_bytes());
    format!("{}.{}.sig", enc(header_json), enc(claims_json))
}

#[test]
fn validates_at_a_given_time() {
    let jwt = fixed_token(
        "{\"alg\":\"RS256\",\"kid\":\"k1\"}",
        &format!("{{\"iss\":\"https://issuer.example\",\"aud\":\"aira-graphdb\",\"exp\":{}}}", NOW + 10),
    );
    validate_bearer_token_at(&config(), &jwt, &header_json, &claims_json, NOW).expect("valid at NOW");
    let err = validate_bearer_token_at(&config(), &jwt, &header_json, &claims_json, NOW + 10).unwrap_err();
    assert_eq!(err.message, "token expired");
}

#[test]
fn header_json_is_read_before_the_claims_segment() {
    // The header is not JSON and the claims segment is not base64: the header error comes first.
    let enc = base64::engine::general_purpose::URL_SAFE_NO_PAD.encode(b"not json");
    let jwt = format!("{enc}.***.sig");
    let err = validate_bearer_token_at(&config(), &jwt, &header_json, &claims_json, NOW).unwrap_err();
    assert_eq!(err.message, "json decode failed");
    assert_eq!(reason(&err).as_deref(), Some("json_decode_failed"));
    let jwt = fixed_token("{\"alg\":\"RS256\",\"kid\":\"k1\"}", "x");
    let bad_claims = jwt.replace(".eA.", ".***.");
    let err = validate_bearer_token_at(&config(), &bad_claims, &header_json, &claims_json, NOW).unwrap_err();
    assert_eq!(err.message, "base64 decode failed");
}
