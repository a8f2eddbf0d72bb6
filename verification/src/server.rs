//! The session protocol of a server connection: which request is served in which state, and
//! the audit events that refusals and failures leave.

use vstd::prelude::*;
use crate::errors::{ErrorCode, GraphDbError, code_text};
use crate::protocol::{HandshakeRequest, negotiate, versions_supported};
use crate::text::owned;

verus! {

/// Where a connection stands: connected, past the handshake, authenticated, ready for work.
#[derive(Debug, Clone, Copy, PartialEq, Eq, Structural)]
pub enum SessionState {
    Connected,
    TlsOk,
    AuthOk,
    AppReady,
}

/// A request on a server connection.
#[derive(Debug)]
pub enum ServerRequest {
    Ping,
    Handshake { protocol_version: String, canonical_type_system_version: String },
    Auth { bearer_token: String },
    BeginTx,
    Query { tx_id: String, query: String },
    CommitTx { tx_id: String },
    RollbackTx { tx_id: String },
}

/// An audit event to record: its type, code, message, transaction and the request it refused.
#[derive(Debug)]
pub struct AuditNote {
    pub event_type: String,
    pub code: Option<String>,
    pub message: String,
    pub tx_id: Option<String>,
    pub request: Option<String>,
}

/// What the connection does next with a request.
#[derive(Debug)]
pub enum SessionStep {
    /// Answer `Pong`.
    Pong,
    /// Answer that the handshake succeeded with these versions.
    HandshakeOk { protocol_version: String, canonical_type_system_version: String },
    /// Record the audit event, if any, and answer the error.
    Refused { audit: Option<AuditNote>, error: GraphDbError },
    /// Check the bearer token, then report the outcome with `after_auth`.
    Authorize { bearer_token: String },
    /// Begin a transaction.
    BeginTx,
    /// Run a query in a transaction.
    Query { tx_id: String, query: String },
    /// Commit a transaction.
    CommitTx { tx_id: String },
    /// Roll a transaction back.
    RollbackTx { tx_id: String },
}

/// Whether `n` is the audit event with these fields.
pub open spec fn note_is(n: AuditNote, event_type: Seq<char>, code: Option<Seq<char>>, message: Seq<char>,
    tx_id: Option<Seq<char>>, request: Option<Seq<char>>) -> bool
{
    &&& n.event_type@ == event_type
    &&& crate::cypher::opt_string_view(n.code) == code
    &&& n.message@ == message
    &&& crate::cypher::opt_string_view(n.tx_id) == tx_id
    &&& crate::cypher::opt_string_view(n.request) == request
}

/// Whether a step refuses a request that needs `needed` with `AUTH_REQUIRED` and `message`,
/// recording the refusal for `request`.
pub open spec fn is_auth_refusal(step: SessionStep, message: Seq<char>, request: Seq<char>) -> bool {
    step matches SessionStep::Refused { audit: Some(n), error: e }
        && note_is(n, "AUTH_REQUIRED_REJECTED"@, Some("AUTH_REQUIRED"@), message, None, Some(request))
        && e.code == ErrorCode::AuthRequired && e.message@ == message && e.details is None
}

fn auth_refusal(message: &str, request: &str) -> (res: SessionStep)
    ensures
        is_auth_refusal(res, message@, request@),
{
    SessionStep::Refused {
        audit: Some(AuditNote {
            event_type: owned("AUTH_REQUIRED_REJECTED"),
            code: Some(owned("AUTH_REQUIRED")),
            message: owned(message),
            tx_id: None,
            request: Some(owned(request)),
        }),
        error: GraphDbError::new(ErrorCode::AuthRequired, message),
    }
}

/// Takes one request in a state: the handshake is negotiated at once; authentication needs a
/// finished handshake; transaction work needs an authenticated session. A refused request
/// leaves the state as it was.
pub fn session_step(state: SessionState, request: ServerRequest) -> (res: (SessionState, SessionStep))
    ensures
        match request {
            ServerRequest::Ping => res.0 == state && res.1 is Pong,
            ServerRequest::Handshake { protocol_version: p, canonical_type_system_version: c } =>
                if versions_supported(&HandshakeRequest { protocol_version: p, canonical_type_system_version: c }) {
                    res.0 == SessionState::TlsOk
                        && (res.1 matches SessionStep::HandshakeOk { protocol_version: p2, canonical_type_system_version: c2 }
                            && p2@ == p@ && c2@ == c@)
                } else {
                    res.0 == state && (res.1 matches SessionStep::Refused { audit: None, error: e }
                        && e.code == ErrorCode::ProtocolVersionMismatch)
                },
            ServerRequest::Auth { bearer_token: t } => res.0 == state && if state != SessionState::TlsOk {
                is_auth_refusal(res.1, "handshake required before auth"@, "auth"@)
            } else {
                res.1 matches SessionStep::Authorize { bearer_token: t2 } && t2@ == t@
            },
            ServerRequest::BeginTx => res.0 == state && if state != SessionState::AppReady {
                is_auth_refusal(res.1, "APP_READY required before begin_tx"@, "begin_tx"@)
            } else {
                res.1 is BeginTx
            },
            ServerRequest::Query { tx_id: i, query: q } => res.0 == state && if state != SessionState::AppReady {
                is_auth_refusal(res.1, "APP_READY required before query"@, "query"@)
            } else {
                res.1 matches SessionStep::Query { tx_id: i2, query: q2 } && i2@ == i@ && q2@ == q@
            },
            ServerRequest::CommitTx { tx_id: i } => res.0 == state && if state != SessionState::AppReady {
                is_auth_refusal(res.1, "APP_READY required before commit"@, "commit_tx"@)
            } else {
                res.1 matches SessionStep::CommitTx { tx_id: i2 } && i2@ == i@
            },
            ServerRequest::RollbackTx { tx_id: i } => res.0 == state && if state != SessionState::AppReady {
                is_auth_refusal(res.1, "APP_READY required before rollback"@, "rollback_tx"@)
            } else {
                res.1 matches SessionStep::RollbackTx { tx_id: i2 } && i2@ == i@
            },
        },
{
    match request {
        ServerRequest::Ping => (state, SessionStep::Pong),
        ServerRequest::Handshake { protocol_version, canonical_type_system_version } => {
            let req = HandshakeRequest { protocol_version, canonical_type_system_version };
            match negotiate(&req) {
                Ok(_) => (SessionState::TlsOk, SessionStep::HandshakeOk {
                    protocol_version: req.protocol_version,
                    canonical_type_system_version: req.canonical_type_system_version,
                }),
                Err(e) => (state, SessionStep::Refused { audit: None, error: e }),
            }
        },
        ServerRequest::Auth { bearer_token } => {
            if state != SessionState::TlsOk {
                return (state, auth_refusal("handshake required before auth", "auth"));
            }
            (state, SessionStep::Authorize { bearer_token })
        },
        ServerRequest::BeginTx => {
            if state != SessionState::AppReady {
                return (state, auth_refusal("APP_READY required before begin_tx", "begin_tx"));
            }
            (state, SessionStep::BeginTx)
        },
        ServerRequest::Query { tx_id, query } => {
            if state != SessionState::AppReady {
                return (state, auth_refusal("APP_READY required before query", "query"));
            }
            (state, SessionStep::Query { tx_id, query })
        },
        ServerRequest::CommitTx { tx_id } => {
            if state != SessionState::AppReady {
                return (state, auth_refusal("APP_READY required before commit", "commit_tx"));
            }
            (state, SessionStep::CommitTx { tx_id })
        },
        ServerRequest::RollbackTx { tx_id } => {
            if state != SessionState::AppReady {
                return (state, auth_refusal("APP_READY required before rollback", "rollback_tx"));
            }
            (state, SessionStep::RollbackTx { tx_id })
        },
    }
}

/// The audit event a failed transaction request leaves, by error code, if any.
pub open spec fn error_event_type(code: ErrorCode) -> Option<Seq<char>> {
    match code {
        ErrorCode::AuthFailed => Some("AUTH_FAILED"@),
        ErrorCode::AuthRequired => Some("AUTH_REQUIRED_REJECTED"@),
        ErrorCode::ReferentialIntegrityViolation => Some("REFERENTIAL_INTEGRITY_VIOLATION"@),
        ErrorCode::RetryableConflict => Some("DETERMINISTIC_CONFLICT"@),
        _ => None,
    }
}

/// The audit event for a failed transaction request: authentication failures and refusals,
/// referential-integrity violations and conflicts are recorded, other errors are not.
pub fn audit_for_error(err: &GraphDbError, tx_id: Option<&str>) -> (res: Option<AuditNote>)
    ensures
        match error_event_type(err.code) {
            None => res is None,
            Some(t) => res matches Some(n)
                && note_is(n, t, Some(code_text(err.code)), err.message@, crate::graph::opt_str_view(tx_id), None),
        },
{
    let event_type = match err.code {
        ErrorCode::AuthFailed => "AUTH_FAILED",
        ErrorCode::AuthRequired => "AUTH_REQUIRED_REJECTED",
        ErrorCode::ReferentialIntegrityViolation => "REFERENTIAL_INTEGRITY_VIOLATION",
        ErrorCode::RetryableConflict => "DETERMINISTIC_CONFLICT",
        _ => return None,
    };
    let tx: Option<String> = match tx_id {
        Some(t) => Some(owned(t)),
        None => None,
    };
    Some(AuditNote {
        event_type: owned(event_type),
        code: Some(owned(err.code.as_str())),
        message: err.message.clone(),
        tx_id: tx,
        request: None,
    })
}

/// The state after an authentication attempt made in state `TlsOk`, and the audit event a
/// failure leaves: success makes the session ready for work; a failure keeps the state.
pub fn after_auth(state: SessionState, outcome: &Result<(), GraphDbError>) -> (res: (SessionState, Option<AuditNote>))
    ensures
        match outcome {
            Ok(()) => res.0 == SessionState::AppReady && res.1 is None,
            Err(e) => res.0 == state && (res.1 matches Some(n)
                && note_is(n, "AUTH_FAILED"@, Some(code_text(e.code)), e.message@, None, None)),
        },
{
    match outcome {
        Ok(()) => (SessionState::AppReady, None),
        Err(e) => (state, Some(AuditNote {
            event_type: owned("AUTH_FAILED"),
            code: Some(owned(e.code.as_str())),
            message: e.message.clone(),
            tx_id: None,
            request: None,
        })),
    }
}

} // verus!
