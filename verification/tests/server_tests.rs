use aira_graphdb::errors::{ErrorCode, GraphDbError};
use aira_graphdb::server::{after_auth, audit_for_error, session_step, ServerRequest, SessionState, SessionStep};

#[test]
fn rejects_tx_commands_without_auth() {
    let (state, step) = session_step(SessionState::Connected, ServerRequest::BeginTx);
    assert_eq!(state, SessionState::Connected);
    match step {
        SessionStep::Refused { audit, error } => {
            assert_eq!(error.code, ErrorCode::AuthRequired);
            let note = audit.expect("audit");
            assert_eq!(note.event_type, "AUTH_REQUIRED_REJECTED");
            assert_eq!(note.code.as_deref(), Some("AUTH_REQUIRED"));
            assert_eq!(note.request.as_deref(), Some("begin_tx"));
            assert_eq!(note.message, "APP_READY required before begin_tx");
        }
        _ => panic!("expected auth error"),
    }
}

#[test]
fn rejects_auth_before_handshake() {
    let (state, step) = session_step(SessionState::Connected, ServerRequest::Auth { bearer_token: "x.y.z".to_string() });
    assert_eq!(state, SessionState::Connected);
    match step {
        SessionStep::Refused { error, .. } => {
            assert_eq!(error.code, ErrorCode::AuthRequired);
            assert!(error.message.contains("handshake required"));
        }
        _ => panic!("expected auth-required before handshake"),
    }
}

#[test]
fn handshake_then_auth_then_query() {
    let (state, step) = session_step(
        SessionState::Connected,
        ServerRequest::Handshake {
            protocol_version: "protocol-p0@1.0.0".to_string(),
            canonical_type_system_version: "canonical-types@1.0.0".to_string(),
        },
    );
    assert_eq!(state, SessionState::TlsOk);
    assert!(matches!(step, SessionStep::HandshakeOk { .. }));
    let (state, step) = session_step(state, ServerRequest::Auth { bearer_token: "a.b.c".to_string() });
    assert_eq!(state, SessionState::TlsOk);
    assert!(matches!(step, SessionStep::Authorize { ref bearer_token } if bearer_token == "a.b.c"));
    let (state, note) = after_auth(state, &Ok(()));
    assert_eq!(state, SessionState::AppReady);
    assert!(note.is_none());
    let (state, step) = session_step(
        state,
        ServerRequest::Query { tx_id: "tx-1".to_string(), query: "CREATE (n:Paper)".to_string() },
    );
    assert_eq!(state, SessionState::AppReady);
    assert!(matches!(step, SessionStep::Query { ref tx_id, .. } if tx_id == "tx-1"));
}

#[test]
fn unsupported_handshake_keeps_state() {
    let (state, step) = session_step(
        SessionState::Connected,
        ServerRequest::Handshake {
            protocol_version: "protocol-p0@2.0.0".to_string(),
            canonical_type_system_version: "canonical-types@1.0.0".to_string(),
        },
    );
    assert_eq!(state, SessionState::Connected);
    match step {
        SessionStep::Refused { audit, error } => {
            assert!(audit.is_none());
            assert_eq!(error.code, ErrorCode::ProtocolVersionMismatch);
        }
        _ => panic!("expected refusal"),
    }
}

#[test]
fn records_auth_failed_event() {
    let err = GraphDbError::new(ErrorCode::AuthFailed, "token must have 3 segments");
    let (state, note) = after_auth(SessionState::TlsOk, &Err(err));
    assert_eq!(state, SessionState::TlsOk);
    let note = note.expect("audit");
    assert_eq!(note.event_type, "AUTH_FAILED");
    assert_eq!(note.code.as_deref(), Some("AUTH_FAILED"));
}

#[test]
fn records_referential_integrity_violation_event() {
    let err = GraphDbError::new(ErrorCode::ReferentialIntegrityViolation, "node not found");
    let note = audit_for_error(&err, Some("tx-1")).expect("audit");
    assert_eq!(note.event_type, "REFERENTIAL_INTEGRITY_VIOLATION");
    assert_eq!(note.code.as_deref(), Some("REFERENTIAL_INTEGRITY_VIOLATION"));
    assert_eq!(note.tx_id.as_deref(), Some("tx-1"));
    let other = GraphDbError::new(ErrorCode::UnsupportedFeature, "x");
    assert!(audit_for_error(&other, None).is_none());
}

#[test]
fn ping_answers_in_any_state() {
    let (state, step) = session_step(SessionState::Connected, ServerRequest::Ping);
    assert_eq!(state, SessionState::Connected);
    assert!(matches!(step, SessionStep::Pong));
}
