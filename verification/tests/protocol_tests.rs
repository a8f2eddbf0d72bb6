use aira_graphdb::errors::ErrorCode;
use aira_graphdb::protocol::{negotiate, HandshakeRequest};

#[test]
fn accepts_supported_versions() {
    let request = HandshakeRequest {
        protocol_version: "protocol-p0@1.0.0".to_string(),
        canonical_type_system_version: "canonical-types@1.0.0".to_string(),
    };
    let response = negotiate(&request).expect("supported versions");
    assert!(response.accepted);
    assert_eq!(response.protocol_version.as_deref(), Some("protocol-p0@1.0.0"));
}

#[test]
fn rejects_unknown_versions() {
    let request = HandshakeRequest {
        protocol_version: "protocol-p0@2.0.0".to_string(),
        canonical_type_system_version: "canonical-types@1.0.0".to_string(),
    };
    let err = negotiate(&request).expect_err("must fail");
    assert_eq!(err.code, ErrorCode::ProtocolVersionMismatch);
}

#[test]
fn rejects_unknown_canonical_version() {
    let request = HandshakeRequest {
        protocol_version: "protocol-p0@1.0.0".to_string(),
        canonical_type_system_version: "canonical-types@9.9.9".to_string(),
    };
    assert!(negotiate(&request).is_err());
}
