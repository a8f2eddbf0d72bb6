//! Bearer-token checks: the token's shape, the decoding of its segments, and the header and
//! claims against the configuration.

use vstd::prelude::*;
use crate::errors::{ErrorCode, GraphDbError};
use crate::graph::{labels_contain, strings_view};
use crate::text::{chars_of, split_char, split_char_exec, string_from_chars, str_eq};

verus! {

/// What the server accepts in a bearer token.
#[derive(Debug)]
pub struct AuthConfig {
    pub allowed_algorithms: Vec<String>,
    pub expected_issuer: String,
    pub expected_audience: String,
    pub known_kids: Vec<String>,
}

/// The header of a token.
#[derive(Debug)]
pub struct JwtHeader {
    pub alg: String,
    pub kid: Option<String>,
}

/// The claims of a token.
#[derive(Debug)]
pub struct JwtClaims {
    pub iss: String,
    pub aud: String,
    pub exp: u64,
    pub nbf: Option<u64>,
}

/// The bytes that URL-safe base64 without padding decodes `s` to, if it is valid.
pub uninterp spec fn base64_url_no_pad_decode(s: Seq<char>) -> Option<Seq<u8>>;

/// Decodes URL-safe base64 without padding (`base64::engine::general_purpose::URL_SAFE_NO_PAD`
/// with `Engine::decode`). The contract claims only that the result is the named decoding of
/// the text, `None` where the crate reports an error.
#[verifier::external_body]
fn decode_url_safe_no_pad(segment: &str) -> (res: Option<Vec<u8>>)
    ensures
        match res {
            Some(b) => base64_url_no_pad_decode(segment@) == Some(b@),
            None => base64_url_no_pad_decode(segment@) is None,
        },
{
    base64::Engine::decode(&base64::engine::general_purpose::URL_SAFE_NO_PAD, segment).ok()
}

/// Whether `e` is an `AUTH_FAILED` error with the message and, when given, the reason detail.
pub open spec fn auth_error_is(e: GraphDbError, message: Seq<char>, reason: Option<Seq<char>>) -> bool {
    &&& e.code == ErrorCode::AuthFailed
    &&& e.message@ == message
    &&& match reason {
        None => e.details is None,
        Some(r) => e.details is Some && e.details->0@.dom() == set!["auth_reason"@]
            && e.details->0@["auth_reason"@]@ == r,
    }
}

/// An `AUTH_FAILED` error with a reason detail.
fn auth_error(message: &str, reason: &str) -> (res: GraphDbError)
    ensures
        auth_error_is(res, message@, Some(reason@)),
{
    let e = GraphDbError::new(ErrorCode::AuthFailed, message).with_detail("auth_reason", reason);
    assert(e.details->0@.dom() =~= set!["auth_reason"@]);
    e
}

/// The problem with the shape of a token, if any: it needs three dot-separated segments and a
/// signature.
pub open spec fn token_shape_problem(token: Seq<char>) -> Option<(Seq<char>, Seq<char>)> {
    let parts = split_char(token, '.');
    if parts.len() != 3 {
        Some(("token must have 3 segments"@, "token_segments"@))
    } else if parts[2].len() == 0 {
        Some(("empty signature"@, "empty_signature"@))
    } else {
        None
    }
}

/// The header and claims segments of a token with three segments and a signature.
pub fn split_token(token: &str) -> (res: Result<(String, String), GraphDbError>)
    ensures
        match token_shape_problem(token@) {
            Some((m, r)) => res matches Err(e) && auth_error_is(e, m, Some(r)),
            None => res matches Ok((h, c)) && h@ == split_char(token@, '.')[0] && c@ == split_char(token@, '.')[1],
        },
{
    let parts = split_char_exec(&chars_of(token), '.');
    let ghost pv = parts@.map_values(|p: Vec<char>| p@);
    if parts.len() != 3 {
        return Err(auth_error("token must have 3 segments", "token_segments"));
    }
    assert(pv[0] == parts@[0]@);
    assert(pv[1] == parts@[1]@);
    assert(pv[2] == parts@[2]@);
    if parts[2].len() == 0 {
        return Err(auth_error("empty signature", "empty_signature"));
    }
    Ok((string_from_chars(parts[0].as_slice()), string_from_chars(parts[1].as_slice())))
}

/// The bytes a token segment encodes in URL-safe base64 without padding.
pub fn decode_segment_bytes(segment: &str) -> (res: Result<Vec<u8>, GraphDbError>)
    ensures
        match base64_url_no_pad_decode(segment@) {
            Some(b) => res matches Ok(v) && v@ == b,
            None => res matches Err(e) && auth_error_is(e, "base64 decode failed"@, Some("base64_decode_failed"@)),
        },
{
    match decode_url_safe_no_pad(segment) {
        Some(b) => Ok(b),
        None => Err(auth_error("base64 decode failed", "base64_decode_failed")),
    }
}

/// The error for a segment whose bytes are not the expected JSON object.
pub fn json_decode_error() -> (res: GraphDbError)
    ensures
        auth_error_is(res, "json decode failed"@, Some("json_decode_failed"@)),
{
    auth_error("json decode failed", "json_decode_failed")
}

/// How many times `x` occurs in `s`.
pub open spec fn count_of(s: Seq<Seq<char>>, x: Seq<char>) -> nat
    decreases s.len(),
{
    if s.len() == 0 {
        0
    } else {
        count_of(s.drop_last(), x) + if s.last() == x { 1nat } else { 0nat }
    }
}

/// The first problem with a decoded token at time `now` (seconds since the Unix epoch), as a
/// message and an optional reason: its algorithm must be allowed and not `none`, its key id
/// known exactly once, issuer and audience as configured, `now` before the expiry and not
/// before `nbf`.
pub open spec fn token_claims_problem(config: &AuthConfig, header: &JwtHeader, claims: &JwtClaims, now: u64)
    -> Option<(Seq<char>, Option<Seq<char>>)>
{
    if header.alg@ == "none"@ || !strings_view(config.allowed_algorithms@).contains(header.alg@) {
        Some(("token algorithm not allowed"@, Some("algorithm_not_allowed"@)))
    } else if header.kid is None {
        Some(("missing kid"@, None))
    } else if count_of(strings_view(config.known_kids@), header.kid->0@) != 1 {
        Some(("kid unresolved or non-unique"@, Some("kid_unresolved"@)))
    } else if claims.iss@ != config.expected_issuer@ {
        Some(("issuer mismatch"@, Some("issuer_mismatch"@)))
    } else if claims.aud@ != config.expected_audience@ {
        Some(("audience mismatch"@, Some("audience_mismatch"@)))
    } else if now >= claims.exp {
        Some(("token expired"@, Some("token_expired"@)))
    } else if claims.nbf matches Some(nbf) && now < nbf {
        Some(("token not yet valid"@, Some("token_not_yet_valid"@)))
    } else {
        None
    }
}

fn count_exec(v: &Vec<String>, x: &str) -> (res: usize)
    ensures
        res == count_of(strings_view(v@), x@),
{
    let ghost s = strings_view(v@);
    let mut n: usize = 0;
    let mut i: usize = 0;
    assert(s.take(0) =~= Seq::<Seq<char>>::empty());
    while i < v.len()
        invariant
            s == strings_view(v@),
            i <= v@.len(),
            n == count_of(s.take(i as int), x@),
            n <= i,
        decreases v@.len() - i,
    {
        assert(s.take(i as int + 1).drop_last() =~= s.take(i as int));
        assert(s.take(i as int + 1).last() == v@[i as int]@);
        if str_eq(v[i].as_str(), x) {
            n = n + 1;
        }
        i += 1;
    }
    assert(s.take(v@.len() as int) =~= s);
    n
}

/// Checks a decoded token's header and claims against the configuration at time `now`.
pub fn check_token_claims(config: &AuthConfig, header: &JwtHeader, claims: &JwtClaims, now: u64) -> (res: Result<(), GraphDbError>)
    ensures
        match token_claims_problem(config, header, claims, now) {
            None => res is Ok,
            Some((m, r)) => res matches Err(e) && auth_error_is(e, m, r),
        },
{
    if str_eq(header.alg.as_str(), "none") || !labels_contain(&config.allowed_algorithms, header.alg.as_str()) {
        return Err(auth_error("token algorithm not allowed", "algorithm_not_allowed"));
    }
    let kid = match &header.kid {
        None => return Err(GraphDbError::new(ErrorCode::AuthFailed, "missing kid")),
        Some(k) => k,
    };
    if count_exec(&config.known_kids, kid.as_str()) != 1 {
        return Err(auth_error("kid unresolved or non-unique", "kid_unresolved"));
    }
    if !str_eq(claims.iss.as_str(), config.expected_issuer.as_str()) {
        return Err(auth_error("issuer mismatch", "issuer_mismatch"));
    }
    if !str_eq(claims.aud.as_str(), config.expected_audience.as_str()) {
        return Err(auth_error("audience mismatch", "audience_mismatch"));
    }
    if now >= claims.exp {
        return Err(auth_error("token expired", "token_expired"));
    }
    if let Some(nbf) = claims.nbf {
        if now < nbf {
            return Err(auth_error("token not yet valid", "token_not_yet_valid"));
        }
    }
    Ok(())
}

/// The seconds since the Unix epoch (`SystemTime::now` and `duration_since(UNIX_EPOCH)`),
/// `None` when the clock is set before the epoch. Nothing is claimed of the value: it is the
/// time.
#[verifier::external_body]
fn epoch_secs() -> (res: Option<u64>) {
    std::time::SystemTime::now().duration_since(std::time::UNIX_EPOCH).ok().map(|d| d.as_secs())
}

/// `h` is a header that `header_json` may return for the bytes.
pub open spec fn header_read<H: Fn(Vec<u8>) -> Option<JwtHeader>>(header_json: H, bytes: Seq<u8>, h: Option<JwtHeader>) -> bool {
    exists|b: Vec<u8>| b@ == bytes && #[trigger] header_json.ensures((b,), h)
}

/// `c` is claims that `claims_json` may return for the bytes.
pub open spec fn claims_read<C: Fn(Vec<u8>) -> Option<JwtClaims>>(claims_json: C, bytes: Seq<u8>, c: Option<JwtClaims>) -> bool {
    exists|b: Vec<u8>| b@ == bytes && #[trigger] claims_json.ensures((b,), c)
}

/// `res` answers a token with that problem: `Ok` without one, else the `AUTH_FAILED` error
/// with its message and reason.
pub open spec fn token_answer(res: Result<(), GraphDbError>, problem: Option<(Seq<char>, Option<Seq<char>>)>) -> bool {
    match problem {
        None => res is Ok,
        Some((m, r)) => res matches Err(e) && auth_error_is(e, m, r),
    }
}

/// `res` is what checking a bearer token at time `now` gives, checking in order: its shape;
/// the header segment's base64, then its JSON read by `header_json`; the claims segment's
/// base64, then its JSON read by `claims_json`; then the header and claims against the
/// configuration. The decoders are handed the bytes of their own segment.
pub open spec fn bearer_token_answer<H: Fn(Vec<u8>) -> Option<JwtHeader>, C: Fn(Vec<u8>) -> Option<JwtClaims>>(
    config: &AuthConfig, token: Seq<char>, header_json: H, claims_json: C, now: u64, res: Result<(), GraphDbError>) -> bool
{
    match token_shape_problem(token) {
        Some((m, r)) => token_answer(res, Some((m, Some(r)))),
        None => {
            let parts = split_char(token, '.');
            match base64_url_no_pad_decode(parts[0]) {
                None => token_answer(res, Some(("base64 decode failed"@, Some("base64_decode_failed"@)))),
                Some(hb) => exists|ho: Option<JwtHeader>| #[trigger] header_read(header_json, hb, ho) && match ho {
                    None => token_answer(res, Some(("json decode failed"@, Some("json_decode_failed"@)))),
                    Some(h) => match base64_url_no_pad_decode(parts[1]) {
                        None => token_answer(res, Some(("base64 decode failed"@, Some("base64_decode_failed"@)))),
                        Some(cb) => exists|co: Option<JwtClaims>| #[trigger] claims_read(claims_json, cb, co) && match co {
                            None => token_answer(res, Some(("json decode failed"@, Some("json_decode_failed"@)))),
                            Some(c) => token_answer(res, token_claims_problem(config, &h, &c, now)),
                        },
                    },
                },
            }
        },
    }
}

/// Validates a bearer token at time `now` (seconds since the Unix epoch): three segments with a
/// signature; the header and claims segments decode from URL-safe base64 and then from JSON,
/// by `header_json` and `claims_json`, header first; the header and claims pass
/// `check_token_claims`. The first failure is returned.
pub fn validate_bearer_token_at<H: Fn(Vec<u8>) -> Option<JwtHeader>, C: Fn(Vec<u8>) -> Option<JwtClaims>>(
    config: &AuthConfig, token: &str, header_json: &H, claims_json: &C, now: u64) -> (res: Result<(), GraphDbError>)
    requires
        forall|b: Vec<u8>| #[trigger] header_json.requires((b,)),
        forall|b: Vec<u8>| #[trigger] claims_json.requires((b,)),
    ensures
        bearer_token_answer(config, token@, *header_json, *claims_json, now, res),
{
    let (header_seg, claims_seg) = match split_token(token) {
        Ok(p) => p,
        Err(e) => return Err(e),
    };
    let header_bytes = match decode_segment_bytes(header_seg.as_str()) {
        Ok(b) => b,
        Err(e) => return Err(e),
    };
    let ghost hb = header_bytes;
    let header_opt = header_json(header_bytes);
    proof {
        assert(header_read(*header_json, hb@, header_opt));
    }
    let header = match header_opt {
        Some(h) => h,
        None => return Err(json_decode_error()),
    };
    let claims_bytes = match decode_segment_bytes(claims_seg.as_str()) {
        Ok(b) => b,
        Err(e) => return Err(e),
    };
    let ghost cb = claims_bytes;
    let claims_opt = claims_json(claims_bytes);
    proof {
        assert(claims_read(*claims_json, cb@, claims_opt));
    }
    let claims = match claims_opt {
        Some(c) => c,
        None => return Err(json_decode_error()),
    };
    check_token_claims(config, &header, &claims, now)
}

/// Validates a bearer token at the current time (taken as `0` for a clock set before the
/// epoch), as `validate_bearer_token_at` does. Every check but the expiry and `nbf` ones is
/// independent of the time.
pub fn validate_bearer_token<H: Fn(Vec<u8>) -> Option<JwtHeader>, C: Fn(Vec<u8>) -> Option<JwtClaims>>(
    config: &AuthConfig, token: &str, header_json: &H, claims_json: &C) -> (res: Result<(), GraphDbError>)
    requires
        forall|b: Vec<u8>| #[trigger] header_json.requires((b,)),
        forall|b: Vec<u8>| #[trigger] claims_json.requires((b,)),
    ensures
        exists|now: u64| #[trigger] bearer_token_answer(config, token@, *header_json, *claims_json, now, res),
{
    let now: u64 = match epoch_secs() {
        Some(t) => t,
        None => 0,
    };
    validate_bearer_token_at(config, token, header_json, claims_json, now)
}

} // verus!
