//! Profiles of the native sidecar's soak run.

use vstd::prelude::*;
use crate::text::{chars_of, trim, trim_chars, eq_ignore_ascii_case, eq_ignore_ascii_case_str};

verus! {

/// The soak profile: a half-hour smoke run or the full day.
#[derive(Debug, Clone, Copy, PartialEq, Eq, Structural)]
pub enum NativeSoakProfile {
    Smoke,
    Full,
}

impl NativeSoakProfile {
    /// The profile's name.
    pub fn as_str(self) -> (res: &'static str)
        ensures
            res@ == (match self {
                NativeSoakProfile::Smoke => "P0-NATIVE-SOAK-SMOKE"@,
                NativeSoakProfile::Full => "P0-NATIVE-SOAK"@,
            }),
    {
        match self {
            NativeSoakProfile::Smoke => "P0-NATIVE-SOAK-SMOKE",
            NativeSoakProfile::Full => "P0-NATIVE-SOAK",
        }
    }

    /// How long the profile runs, in minutes.
    pub fn duration_minutes(self) -> (res: u64)
        ensures
            res == (match self {
                NativeSoakProfile::Smoke => 30u64,
                NativeSoakProfile::Full => 1440u64,
            }),
    {
        match self {
            NativeSoakProfile::Smoke => 30,
            NativeSoakProfile::Full => 24 * 60,
        }
    }
}

/// `P0-NATIVE-SOAK` (trimmed, in any case) is the full profile; anything else the smoke run.
pub fn parse_native_soak_profile(value: &str) -> (res: NativeSoakProfile)
    ensures
        res == (if eq_ignore_ascii_case(trim(value@), "P0-NATIVE-SOAK"@) { NativeSoakProfile::Full } else { NativeSoakProfile::Smoke }),
{
    if eq_ignore_ascii_case_str(&trim_chars(&chars_of(value)), "P0-NATIVE-SOAK") {
        NativeSoakProfile::Full
    } else {
        NativeSoakProfile::Smoke
    }
}

} // verus!

verus! {

/// How many internal failures the synthetic soak run records.
pub open spec fn synthetic_failure_count(profile: NativeSoakProfile) -> nat {
    match profile {
        NativeSoakProfile::Smoke => 6,
        NativeSoakProfile::Full => 72,
    }
}

/// The error code, failure class and request id of the `k`-th event of the synthetic soak
/// run: twelve pairs of refused requests (invalid JSON, unknown method), then the internal
/// I/O failures.
pub open spec fn synthetic_event(k: int) -> (Seq<char>, Seq<char>, Seq<char>) {
    if k < 24 {
        if k % 2 == 0 {
            ("INVALID_REQUEST_JSON"@, "CLIENT_INPUT"@, "req-invalid-json-"@ + crate::text::decimal((k / 2 + 1) as nat))
        } else {
            ("UNSUPPORTED_FEATURE"@, "CLIENT_INPUT"@, "req-unknown-method-"@ + crate::text::decimal((k / 2 + 1) as nat))
        }
    } else {
        ("REQUEST_EXECUTION_FAILED"@, "IO_FAILURE"@, "req-io-failure-"@ + crate::text::decimal((k - 23) as nat))
    }
}

/// The code, class and id of a request event.
pub open spec fn event_fields(e: crate::audit::NativeRequestAuditEvent) -> (Seq<char>, Seq<char>, Seq<char>) {
    (e.error_code@, e.failure_class@, e.request_id@)
}

fn make_event(code: &str, class: &str, prefix: &str, n: u64) -> (res: crate::audit::NativeRequestAuditEvent)
    ensures
        event_fields(res) == (code@, class@, prefix@ + crate::text::decimal(n as nat)),
{
    let id = crate::text::concat(&chars_of(prefix), &crate::text::decimal_chars(n));
    crate::audit::NativeRequestAuditEvent {
        error_code: crate::text::owned(code),
        failure_class: crate::text::owned(class),
        request_id: crate::text::string_from_chars(id.as_slice()),
        timestamp: crate::audit::now_epoch_ms_string(),
    }
}

/// The request audit events of the synthetic soak run, each stamped with the current time.
pub fn synthetic_soak_events(profile: NativeSoakProfile) -> (res: Vec<crate::audit::NativeRequestAuditEvent>)
    ensures
        res@.len() == 24 + synthetic_failure_count(profile),
        forall|k: int| 0 <= k < res@.len() ==> event_fields(#[trigger] res@[k]) == synthetic_event(k),
{
    let mut out: Vec<crate::audit::NativeRequestAuditEvent> = Vec::new();
    let mut i: u64 = 1;
    while i <= 12
        invariant
            1 <= i <= 13,
            out@.len() == 2 * (i - 1),
            forall|k: int| 0 <= k < out@.len() ==> event_fields(#[trigger] out@[k]) == synthetic_event(k),
        decreases 13 - i,
    {
        out.push(make_event("INVALID_REQUEST_JSON", "CLIENT_INPUT", "req-invalid-json-", i));
        out.push(make_event("UNSUPPORTED_FEATURE", "CLIENT_INPUT", "req-unknown-method-", i));
        proof {
            let a = 2 * (i - 1);
            assert(a % 2 == 0 && a / 2 + 1 == i) by (nonlinear_arith) requires a == 2 * (i - 1), i >= 1;
            assert((a + 1) % 2 == 1 && (a + 1) / 2 + 1 == i) by (nonlinear_arith) requires a == 2 * (i - 1), i >= 1;
        }
        i += 1;
    }
    let n: u64 = match profile {
        NativeSoakProfile::Smoke => 6,
        NativeSoakProfile::Full => 72,
    };
    let mut j: u64 = 1;
    while j <= n
        invariant
            n == synthetic_failure_count(profile),
            1 <= j <= n + 1,
            out@.len() == 24 + (j - 1),
            forall|k: int| 0 <= k < out@.len() ==> event_fields(#[trigger] out@[k]) == synthetic_event(k),
        decreases n + 1 - j,
    {
        out.push(make_event("REQUEST_EXECUTION_FAILED", "IO_FAILURE", "req-io-failure-", j));
        j += 1;
    }
    out
}

/// How many events of `es` are request-execution failures of an internal class.
pub open spec fn internal_failures(es: Seq<crate::audit::NativeRequestAuditEvent>) -> nat
    decreases es.len(),
{
    if es.len() == 0 {
        0
    } else {
        internal_failures(es.drop_last()) + if es.last().error_code@ == "REQUEST_EXECUTION_FAILED"@
            && crate::audit::internal_failure_classes().contains(es.last().failure_class@) { 1nat } else { 0nat }
    }
}

/// How many events are request-execution failures of an internal class.
pub fn count_internal_failures(events: &Vec<crate::audit::NativeRequestAuditEvent>) -> (res: u64)
    ensures
        res == internal_failures(events@),
{
    let mut n: u64 = 0;
    let mut i: usize = 0;
    assert(events@.take(0) =~= Seq::<crate::audit::NativeRequestAuditEvent>::empty());
    while i < events.len()
        invariant
            i <= events@.len(),
            n == internal_failures(events@.take(i as int)),
            n <= i,
        decreases events@.len() - i,
    {
        assert(events@.take(i as int + 1).drop_last() =~= events@.take(i as int));
        assert(events@.take(i as int + 1).last() == events@[i as int]);
        let e = &events[i];
        if crate::text::str_eq(e.error_code.as_str(), "REQUEST_EXECUTION_FAILED")
            && crate::audit::is_internal_failure_class(e.failure_class.as_str()) {
            assert(n < 0xffff_ffff_ffff_ffffu64) by {
                assert(n <= i);
                assert(i < events@.len());
            }
            n = n + 1;
        }
        i += 1;
    }
    assert(events@.take(events@.len() as int) =~= events@);
    n
}

/// Whether every request event has its required fields.
pub fn all_request_events_valid(events: &Vec<crate::audit::NativeRequestAuditEvent>) -> (res: bool)
    ensures
        res == forall|i: int| 0 <= i < events@.len() ==> crate::audit::request_event_problem(&#[trigger] events@[i]) is None,
{
    let mut i: usize = 0;
    while i < events.len()
        invariant
            i <= events@.len(),
            forall|k: int| 0 <= k < i ==> crate::audit::request_event_problem(&#[trigger] events@[k]) is None,
        decreases events@.len() - i,
    {
        if crate::audit::validate_request_event_required_fields(&events[i]).is_err() {
            return false;
        }
        i += 1;
    }
    true
}

/// Whether every crash event has its required fields.
pub fn all_crash_events_valid(events: &Vec<crate::audit::NativeCrashAuditEvent>) -> (res: bool)
    ensures
        res == forall|i: int| 0 <= i < events@.len() ==> crate::audit::crash_event_problem(&#[trigger] events@[i]) is None,
{
    let mut i: usize = 0;
    while i < events.len()
        invariant
            i <= events@.len(),
            forall|k: int| 0 <= k < i ==> crate::audit::crash_event_problem(&#[trigger] events@[k]) is None,
        decreases events@.len() - i,
    {
        if crate::audit::validate_crash_event_required_fields(&events[i]).is_err() {
            return false;
        }
        i += 1;
    }
    true
}

} // verus!
