//! Version negotiation at the start of a session.

use vstd::prelude::*;
use crate::contracts::{load_typemap_spec, PROTOCOL_VERSION_P0, CANONICAL_TYPES_V1};
use crate::errors::{ErrorCode, GraphDbError};
use crate::graph::{labels_contain, strings_view};

verus! {

/// The versions a client asks for.
#[derive(Debug)]
pub struct HandshakeRequest {
    pub protocol_version: String,
    pub canonical_type_system_version: String,
}

/// The versions agreed on.
#[derive(Debug)]
pub struct HandshakeResponse {
    pub accepted: bool,
    pub protocol_version: Option<String>,
    pub canonical_type_system_version: Option<String>,
}

/// Whether the type-mapping contract lists both versions of a request.
pub open spec fn versions_supported(request: &HandshakeRequest) -> bool {
    request.protocol_version@ == PROTOCOL_VERSION_P0@
        && request.canonical_type_system_version@ == CANONICAL_TYPES_V1@
}

/// Accepts a handshake whose protocol and canonical type system versions are both listed in
/// the type-mapping contract; otherwise `PROTOCOL_VERSION_MISMATCH`.
pub fn negotiate(request: &HandshakeRequest) -> (res: Result<HandshakeResponse, GraphDbError>)
    ensures
        res is Ok <==> versions_supported(request),
        res matches Ok(r) ==> r.accepted
            && (r.protocol_version matches Some(p) && p@ == request.protocol_version@)
            && (r.canonical_type_system_version matches Some(c) && c@ == request.canonical_type_system_version@),
        res matches Err(e) ==> e.code == ErrorCode::ProtocolVersionMismatch
            && e.message@ == "protocol or canonical type system version mismatch"@ && e.details is None,
{
    let spec = load_typemap_spec();
    assert(strings_view(spec.protocol_versions@) =~= seq![PROTOCOL_VERSION_P0@]);
    assert(strings_view(spec.canonical_type_system_versions@) =~= seq![CANONICAL_TYPES_V1@]);
    let protocol_ok = labels_contain(&spec.protocol_versions, request.protocol_version.as_str());
    let canonical_ok = labels_contain(&spec.canonical_type_system_versions, request.canonical_type_system_version.as_str());
    proof {
        if !protocol_ok {
            assert(request.protocol_version@ != PROTOCOL_VERSION_P0@) by {
                if request.protocol_version@ == PROTOCOL_VERSION_P0@ {
                    assert(strings_view(spec.protocol_versions@)[0] == request.protocol_version@);
                }
            }
        }
        if !canonical_ok {
            assert(request.canonical_type_system_version@ != CANONICAL_TYPES_V1@) by {
                if request.canonical_type_system_version@ == CANONICAL_TYPES_V1@ {
                    assert(strings_view(spec.canonical_type_system_versions@)[0] == request.canonical_type_system_version@);
                }
            }
        }
    }
    if !protocol_ok || !canonical_ok {
        return Err(GraphDbError::new(
            ErrorCode::ProtocolVersionMismatch,
            "protocol or canonical type system version mismatch",
        ));
    }
    Ok(HandshakeResponse {
        accepted: true,
        protocol_version: Some(request.protocol_version.clone()),
        canonical_type_system_version: Some(request.canonical_type_system_version.clone()),
    })
}

} // verus!
