//! Audit events of the native sidecar and the checks on their required fields.

use vstd::prelude::*;
use crate::graph::{labels_contain, strings_view};
use crate::text::{chars_of, trim, trim_chars, owned, str_eq};

verus! {

/// A request that failed, as the sidecar records it.
#[derive(Debug, PartialEq, Eq)]
pub struct NativeRequestAuditEvent {
    pub error_code: String,
    pub failure_class: String,
    pub request_id: String,
    pub timestamp: String,
}

/// A crash of the sidecar process, as the watchdog records it.
#[derive(Debug, PartialEq, Eq)]
pub struct NativeCrashAuditEvent {
    pub error_code: String,
    pub timestamp: String,
    pub process_exit_code: Option<i32>,
    pub signal: Option<String>,
    pub last_request_id: Option<String>,
    pub uptime_sec: u64,
    pub cause: Option<String>,
}

/// The failure classes a request event may carry.
pub open spec fn allowed_failure_classes() -> Seq<Seq<char>> {
    seq!["INTERNAL_BUG"@, "IO_FAILURE"@, "OOM"@, "TIMEOUT"@, "CLIENT_INPUT"@]
}

/// The failure classes that count as internal failures.
pub open spec fn internal_failure_classes() -> Seq<Seq<char>> {
    seq!["INTERNAL_BUG"@, "IO_FAILURE"@, "OOM"@, "TIMEOUT"@]
}

/// Milliseconds since the Unix epoch by the system clock (`SystemTime::now` and
/// `duration_since(UNIX_EPOCH)`); `None` when the clock is set before the epoch.
/// Nothing is claimed of the value: it is the time.
#[verifier::external_body]
fn epoch_millis() -> (res: Option<u64>) {
    std::time::SystemTime::now().duration_since(std::time::UNIX_EPOCH).ok().map(|d| d.as_millis() as u64)
}

/// The current time as decimal milliseconds since the Unix epoch (`0` for a clock set
/// before the epoch).
pub fn now_epoch_ms_string() -> (res: String)
    ensures
        exists|m: nat| #[trigger] crate::text::decimal(m) == res@,
{
    let ms: u64 = match epoch_millis() {
        Some(m) => m,
        None => 0,
    };
    let digits = crate::text::decimal_chars(ms);
    let s = crate::text::string_from_chars(digits.as_slice());
    assert(crate::text::decimal(ms as nat) == s@);
    s
}

/// Whether `failure_class` is one of the allowed failure classes.
pub fn is_allowed_failure_class(failure_class: &str) -> (res: bool)
    ensures
        res == allowed_failure_classes().contains(failure_class@),
{
    let mut v: Vec<String> = Vec::new();
    v.push(owned("INTERNAL_BUG"));
    v.push(owned("IO_FAILURE"));
    v.push(owned("OOM"));
    v.push(owned("TIMEOUT"));
    v.push(owned("CLIENT_INPUT"));
    assert(strings_view(v@) =~= allowed_failure_classes());
    labels_contain(&v, failure_class)
}

/// Whether `failure_class` is one of the internal failure classes.
pub fn is_internal_failure_class(failure_class: &str) -> (res: bool)
    ensures
        res == internal_failure_classes().contains(failure_class@),
{
    let mut v: Vec<String> = Vec::new();
    v.push(owned("INTERNAL_BUG"));
    v.push(owned("IO_FAILURE"));
    v.push(owned("OOM"));
    v.push(owned("TIMEOUT"));
    assert(strings_view(v@) =~= internal_failure_classes());
    labels_contain(&v, failure_class)
}

/// The first missing or invalid field of a request event, if any.
pub open spec fn request_event_problem(e: &NativeRequestAuditEvent) -> Option<Seq<char>> {
    if trim(e.error_code@).len() == 0 {
        Some("errorCode is required"@)
    } else if !allowed_failure_classes().contains(e.failure_class@) {
        Some("failureClass must be one of [\"INTERNAL_BUG\", \"IO_FAILURE\", \"OOM\", \"TIMEOUT\", \"CLIENT_INPUT\"]"@)
    } else if trim(e.request_id@).len() == 0 {
        Some("requestId is required"@)
    } else if trim(e.timestamp@).len() == 0 {
        Some("timestamp is required"@)
    } else {
        None
    }
}

/// Checks that a request event names an error code, an allowed failure class, a request id
/// and a timestamp.
pub fn validate_request_event_required_fields(event: &NativeRequestAuditEvent) -> (res: Result<(), String>)
    ensures
        match request_event_problem(event) {
            None => res is Ok,
            Some(m) => res matches Err(s) && s@ == m,
        },
{
    if trim_chars(&chars_of(event.error_code.as_str())).len() == 0 {
        return Err(owned("errorCode is required"));
    }
    if !is_allowed_failure_class(event.failure_class.as_str()) {
        return Err(owned("failureClass must be one of [\"INTERNAL_BUG\", \"IO_FAILURE\", \"OOM\", \"TIMEOUT\", \"CLIENT_INPUT\"]"));
    }
    if trim_chars(&chars_of(event.request_id.as_str())).len() == 0 {
        return Err(owned("requestId is required"));
    }
    if trim_chars(&chars_of(event.timestamp.as_str())).len() == 0 {
        return Err(owned("timestamp is required"));
    }
    Ok(())
}

/// The first missing or invalid field of a crash event, if any.
pub open spec fn crash_event_problem(e: &NativeCrashAuditEvent) -> Option<Seq<char>> {
    if e.error_code@ != "PROCESS_CRASH"@ {
        Some("errorCode must be PROCESS_CRASH"@)
    } else if trim(e.timestamp@).len() == 0 {
        Some("timestamp is required"@)
    } else if (match e.last_request_id { Some(r) => trim(r@).len() == 0, None => true }) {
        Some("lastRequestId is required"@)
    } else {
        None
    }
}

/// Checks that a crash event has the code `PROCESS_CRASH`, a timestamp and the id of the
/// last request.
pub fn validate_crash_event_required_fields(event: &NativeCrashAuditEvent) -> (res: Result<(), String>)
    ensures
        match crash_event_problem(event) {
            None => res is Ok,
            Some(m) => res matches Err(s) && s@ == m,
        },
{
    if !str_eq(event.error_code.as_str(), "PROCESS_CRASH") {
        return Err(owned("errorCode must be PROCESS_CRASH"));
    }
    if trim_chars(&chars_of(event.timestamp.as_str())).len() == 0 {
        return Err(owned("timestamp is required"));
    }
    let missing = match &event.last_request_id {
        Some(r) => trim_chars(&chars_of(r.as_str())).len() == 0,
        None => true,
    };
    if missing {
        return Err(owned("lastRequestId is required"));
    }
    Ok(())
}


/// The crash events a watchdog observed.
#[derive(Debug)]
pub struct WatchdogCrashReport {
    pub events: Vec<NativeCrashAuditEvent>,
}

/// The `PROCESS_CRASH` event for a process that ended with an exit code or a signal number
/// (named `SIG` and the number), stamped with the current time.
pub fn crash_event(process_exit_code: Option<i32>, signal_number: Option<i32>, last_request_id: Option<String>,
    uptime_sec: u64, cause: Option<String>) -> (res: NativeCrashAuditEvent)
    ensures
        res.error_code@ == "PROCESS_CRASH"@,
        res.process_exit_code == process_exit_code,
        res.signal matches Some(sig) ==> (signal_number matches Some(n) && sig@ == "SIG"@ + crate::query::int_text(n as i64)),
        res.signal is None <==> signal_number is None,
        res.last_request_id == last_request_id,
        res.uptime_sec == uptime_sec,
        res.cause == cause,
        exists|m: nat| #[trigger] crate::text::decimal(m) == res.timestamp@,
{
    let signal = match signal_number {
        Some(n) => {
            let t = crate::text::concat(&crate::text::chars_of("SIG"), &crate::query::int_text_exec(n as i64));
            Some(crate::text::string_from_chars(t.as_slice()))
        },
        None => None,
    };
    NativeCrashAuditEvent {
        error_code: crate::text::owned("PROCESS_CRASH"),
        timestamp: now_epoch_ms_string(),
        process_exit_code,
        signal,
        last_request_id,
        uptime_sec,
        cause,
    }
}

} // verus!
