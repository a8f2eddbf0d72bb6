use aira_graphdb::audit::{now_epoch_ms_string, NativeCrashAuditEvent};
use aira_graphdb::native_bench::{
    all_crash_events_valid, all_request_events_valid, count_internal_failures, parse_native_soak_profile,
    synthetic_soak_events, NativeSoakProfile,
};

#[test]
fn parses_soak_profiles() {
    assert_eq!(parse_native_soak_profile(" p0-native-soak "), NativeSoakProfile::Full);
    assert_eq!(parse_native_soak_profile("P0-NATIVE-SOAK-SMOKE"), NativeSoakProfile::Smoke);
    assert_eq!(parse_native_soak_profile("anything"), NativeSoakProfile::Smoke);
    assert_eq!(NativeSoakProfile::Full.as_str(), "P0-NATIVE-SOAK");
    assert_eq!(NativeSoakProfile::Smoke.duration_minutes(), 30);
    assert_eq!(NativeSoakProfile::Full.duration_minutes(), 1440);
}

#[test]
fn synthetic_smoke_run_has_expected_events() {
    let events = synthetic_soak_events(NativeSoakProfile::Smoke);
    assert_eq!(events.len(), 30);
    assert_eq!(events[0].error_code, "INVALID_REQUEST_JSON");
    assert_eq!(events[0].request_id, "req-invalid-json-1");
    assert_eq!(events[1].error_code, "UNSUPPORTED_FEATURE");
    assert_eq!(events[24].failure_class, "IO_FAILURE");
    assert_eq!(events[24].request_id, "req-io-failure-1");
    assert_eq!(count_internal_failures(&events), 6);
    assert!(all_request_events_valid(&events));
}

#[test]
fn synthetic_full_run_counts_failures() {
    let events = synthetic_soak_events(NativeSoakProfile::Full);
    assert_eq!(events.len(), 96);
    assert_eq!(count_internal_failures(&events), 72);
}

#[test]
fn validates_crash_audit_schema_fields() {
    let crash = NativeCrashAuditEvent {
        error_code: "PROCESS_CRASH".to_string(),
        timestamp: now_epoch_ms_string(),
        process_exit_code: Some(101),
        signal: Some("SIGABRT".to_string()),
        last_request_id: Some("req-42".to_string()),
        uptime_sec: 123,
        cause: Some("panic".to_string()),
    };
    assert!(all_crash_events_valid(&vec![crash]));
}
