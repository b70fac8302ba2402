use logforge::event_meta::TraceLevel;
use logforge::schema::{mark_slow, LogEvent, LogLevel, Timestamp};

fn event_with_latency(latency_ms: Option<u64>) -> LogEvent {
    LogEvent {
        ts: Timestamp { secs: 0, nanos: 0 },
        level: LogLevel::Info,
        service: "svc".to_string(),
        host: None,
        env: None,
        trace_id: None,
        span_id: None,
        msg: "m".to_string(),
        path: None,
        method: None,
        status: None,
        latency_ms,
        user_id: None,
        slow: false,
        sampled: false,
        extra: Vec::new(),
    }
}

#[test]
fn level_labels_are_upper_case() {
    assert_eq!(LogLevel::Error.to_string(), "ERROR");
    assert_eq!(LogLevel::Warn.to_string(), "WARN");
    assert_eq!(LogLevel::Info.to_string(), "INFO");
    assert_eq!(LogLevel::Debug.to_string(), "DEBUG");
    assert_eq!(LogLevel::Debug.label(), "DEBUG");
}

#[test]
fn emitted_levels() {
    assert_eq!(LogLevel::Error.emitted_level(), TraceLevel::Error);
    assert_eq!(LogLevel::Warn.emitted_level(), TraceLevel::Warn);
    assert_eq!(LogLevel::Info.emitted_level(), TraceLevel::Info);
    assert_eq!(LogLevel::Debug.emitted_level(), TraceLevel::Info);
}

#[test]
fn slow_only_above_threshold() {
    let mut e = event_with_latency(Some(5003));
    mark_slow(&mut e);
    assert!(e.slow);
    let mut e = event_with_latency(Some(1000));
    mark_slow(&mut e);
    assert!(!e.slow);
    let mut e = event_with_latency(Some(1001));
    mark_slow(&mut e);
    assert!(e.slow);
    let mut e = event_with_latency(None);
    mark_slow(&mut e);
    assert!(!e.slow);
}

#[test]
fn slow_flag_already_set_stays() {
    let mut e = event_with_latency(Some(3));
    e.slow = true;
    mark_slow(&mut e);
    assert!(e.slow);
    assert_eq!(e.latency_ms, Some(3));
}
