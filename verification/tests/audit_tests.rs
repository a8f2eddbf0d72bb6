use aira_graphdb::audit::{
    is_allowed_failure_class, is_internal_failure_class, now_epoch_ms_string, validate_crash_event_required_fields,
    validate_request_event_required_fields, NativeCrashAuditEvent, NativeRequestAuditEvent,
};

#[test]
fn validates_request_event_required_fields() {
    let event = NativeRequestAuditEvent {
        error_code: "REQUEST_EXECUTION_FAILED".to_string(),
        failure_class: "CLIENT_INPUT".to_string(),
        request_id: "r-1".to_string(),
        timestamp: now_epoch_ms_string(),
    };
    assert!(validate_request_event_required_fields(&event).is_ok());
}

#[test]
fn validates_crash_event_required_fields() {
    let event = NativeCrashAuditEvent {
        error_code: "PROCESS_CRASH".to_string(),
        timestamp: now_epoch_ms_string(),
        process_exit_code: Some(101),
        signal: Some("SIGABRT".to_string()),
        last_request_id: Some("r-10".to_string()),
        uptime_sec: 120,
        cause: Some("panic message".to_string()),
    };
    assert!(validate_crash_event_required_fields(&event).is_ok());
}

#[test]
fn request_event_errors_name_the_missing_field() {
    let mut event = NativeRequestAuditEvent {
        error_code: " ".to_string(),
        failure_class: "CLIENT_INPUT".to_string(),
        request_id: "r-1".to_string(),
        timestamp: "1".to_string(),
    };
    assert_eq!(validate_request_event_required_fields(&event), Err("errorCode is required".to_string()));
    event.error_code = "E".to_string();
    event.failure_class = "WEATHER".to_string();
    assert_eq!(
        validate_request_event_required_fields(&event),
        Err("failureClass must be one of [\"INTERNAL_BUG\", \"IO_FAILURE\", \"OOM\", \"TIMEOUT\", \"CLIENT_INPUT\"]".to_string())
    );
    event.failure_class = "OOM".to_string();
    event.request_id = "".to_string();
    assert_eq!(validate_request_event_required_fields(&event), Err("requestId is required".to_string()));
    event.request_id = "r".to_string();
    event.timestamp = "\t".to_string();
    assert_eq!(validate_request_event_required_fields(&event), Err("timestamp is required".to_string()));
}

#[test]
fn crash_event_needs_crash_code_and_last_request() {
    let mut event = NativeCrashAuditEvent {
        error_code: "OTHER".to_string(),
        timestamp: "5".to_string(),
        process_exit_code: None,
        signal: None,
        last_request_id: None,
        uptime_sec: 0,
        cause: None,
    };
    assert_eq!(validate_crash_event_required_fields(&event), Err("errorCode must be PROCESS_CRASH".to_string()));
    event.error_code = "PROCESS_CRASH".to_string();
    assert_eq!(validate_crash_event_required_fields(&event), Err("lastRequestId is required".to_string()));
    event.last_request_id = Some("  ".to_string());
    assert_eq!(validate_crash_event_required_fields(&event), Err("lastRequestId is required".to_string()));
}

#[test]
fn failure_classes() {
    assert!(is_allowed_failure_class("CLIENT_INPUT"));
    assert!(!is_internal_failure_class("CLIENT_INPUT"));
    assert!(is_internal_failure_class("TIMEOUT"));
    assert!(!is_allowed_failure_class("timeout"));
}

#[test]
fn timestamp_is_decimal_millis() {
    let ts = now_epoch_ms_string();
    assert!(!ts.is_empty());
    assert!(ts.chars().all(|c| c.is_ascii_digit()));
    assert!(ts.len() >= 13);
}
