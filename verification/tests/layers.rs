use logforge::burst::{fingerprint, BurstSuppressionLayer, BurstVerdict};
use logforge::event_meta::{field_role, FieldRole, TraceLevel};
use logforge::sampling::{sample_bucket, SampleBucket};
use logforge::trace_aware::{TraceDecisions, CLEANUP_THRESHOLD, DECISION_TTL_SECS};

const SEC: u128 = 1_000_000_000;

#[test]
fn five_per_window_then_one_warning() {
    let mut l = BurstSuppressionLayer::new(60, 5);
    let fp = fingerprint("app", TraceLevel::Error, "db down");
    let mut verdicts = Vec::new();
    for i in 0..8u128 {
        verdicts.push(l.observe(fp, i * SEC));
    }
    assert_eq!(
        verdicts,
        vec![
            BurstVerdict::Forward,
            BurstVerdict::Forward,
            BurstVerdict::Forward,
            BurstVerdict::Forward,
            BurstVerdict::Forward,
            BurstVerdict::SuppressAndWarn,
            BurstVerdict::Suppress,
            BurstVerdict::Suppress,
        ]
    );
}

#[test]
fn window_slides_past_old_forwards() {
    let mut l = BurstSuppressionLayer::new(60, 1);
    assert_eq!(l.observe(7, 0), BurstVerdict::Forward);
    assert_eq!(l.observe(7, 60 * SEC), BurstVerdict::SuppressAndWarn);
    assert_eq!(l.observe(7, 60 * SEC + 1), BurstVerdict::Forward);
    assert_eq!(l.observe(7, 60 * SEC + 2), BurstVerdict::SuppressAndWarn);
}

#[test]
fn sliding_window_counts_forwards_in_the_last_window() {
    let mut l = BurstSuppressionLayer::new(60, 2);
    assert_eq!(l.observe(9, 0), BurstVerdict::Forward);
    assert_eq!(l.observe(9, 59 * SEC), BurstVerdict::Forward);
    assert_eq!(l.observe(9, 61 * SEC), BurstVerdict::Forward);
    assert_eq!(l.observe(9, 62 * SEC), BurstVerdict::SuppressAndWarn);
    assert_eq!(l.observe(9, 100 * SEC), BurstVerdict::Suppress);
    assert_eq!(l.observe(9, 119 * SEC), BurstVerdict::Suppress);
    assert_eq!(l.observe(9, 119 * SEC + 1), BurstVerdict::Forward);
    assert_eq!(l.observe(9, 121 * SEC + 1), BurstVerdict::Forward);
    assert_eq!(l.observe(9, 122 * SEC), BurstVerdict::SuppressAndWarn);
}

#[test]
fn clock_going_backwards_counts_as_no_time() {
    let mut l = BurstSuppressionLayer::new(0, 1);
    assert_eq!(l.observe(1, 100), BurstVerdict::Forward);
    assert_eq!(l.observe(1, 50), BurstVerdict::SuppressAndWarn);
    assert_eq!(l.observe(1, 101), BurstVerdict::Forward);
}

#[test]
fn fingerprints_are_counted_apart() {
    let mut l = BurstSuppressionLayer::new(60, 1);
    assert_eq!(l.observe(1, 0), BurstVerdict::Forward);
    assert_eq!(l.observe(2, 0), BurstVerdict::Forward);
    assert_eq!(l.observe(1, 0), BurstVerdict::SuppressAndWarn);
    assert_eq!(l.observe(2, 0), BurstVerdict::SuppressAndWarn);
}

#[test]
fn zero_cap_suppresses_everything() {
    let mut l = BurstSuppressionLayer::new(60, 0);
    assert_eq!(l.observe(3, 0), BurstVerdict::SuppressAndWarn);
    assert_eq!(l.observe(3, 1), BurstVerdict::Suppress);
    assert_eq!(l.window_secs(), 60);
    assert_eq!(l.max_per_window(), 0);
}

#[test]
fn fingerprint_reads_only_the_first_80_characters() {
    let base: String = "x".repeat(80);
    let a = fingerprint("t", TraceLevel::Warn, &format!("{}tail-one", base));
    let b = fingerprint("t", TraceLevel::Warn, &format!("{}tail-two", base));
    assert_eq!(a, b);
    assert_eq!(a, fingerprint("t", TraceLevel::Warn, &base));
    let c = fingerprint("t", TraceLevel::Warn, &format!("{}y", "x".repeat(79)));
    assert_ne!(a, c);
}

#[test]
fn fingerprint_depends_on_target_level_and_message() {
    let a = fingerprint("api", TraceLevel::Error, "boom");
    assert_eq!(a, fingerprint("api", TraceLevel::Error, "boom"));
    assert_ne!(a, fingerprint("api", TraceLevel::Warn, "boom"));
    assert_ne!(a, fingerprint("db", TraceLevel::Error, "boom"));
    assert_ne!(a, fingerprint("api", TraceLevel::Error, "bang"));
    assert_ne!(fingerprint("ab", TraceLevel::Info, "c"), fingerprint("a", TraceLevel::Info, "bc"));
}

#[test]
fn field_roles() {
    assert_eq!(field_role("message"), FieldRole::Message);
    assert_eq!(field_role("msg"), FieldRole::Message);
    assert_eq!(field_role("status"), FieldRole::Status);
    assert_eq!(field_role("trace_id"), FieldRole::TraceId);
    assert_eq!(field_role("Message"), FieldRole::Other);
    assert_eq!(field_role("service"), FieldRole::Other);
    assert_eq!(field_role(""), FieldRole::Other);
}

#[test]
fn status_classes() {
    assert_eq!(sample_bucket(Some(200), TraceLevel::Info), SampleBucket::Success);
    assert_eq!(sample_bucket(Some(299), TraceLevel::Error), SampleBucket::Success);
    assert_eq!(sample_bucket(Some(300), TraceLevel::Info), SampleBucket::ClientError);
    assert_eq!(sample_bucket(Some(404), TraceLevel::Info), SampleBucket::ClientError);
    assert_eq!(sample_bucket(Some(499), TraceLevel::Info), SampleBucket::ClientError);
    assert_eq!(sample_bucket(Some(500), TraceLevel::Debug), SampleBucket::ServerError);
    assert_eq!(sample_bucket(Some(504), TraceLevel::Info), SampleBucket::ServerError);
}

#[test]
fn level_fallback_without_status() {
    assert_eq!(sample_bucket(None, TraceLevel::Error), SampleBucket::LevelAlways);
    assert_eq!(sample_bucket(None, TraceLevel::Warn), SampleBucket::LevelAlways);
    assert_eq!(sample_bucket(None, TraceLevel::Info), SampleBucket::LevelInfo);
    assert_eq!(sample_bucket(None, TraceLevel::Debug), SampleBucket::LevelLow);
    assert_eq!(sample_bucket(None, TraceLevel::Trace), SampleBucket::LevelLow);
}

#[test]
fn trace_decision_applies_to_all_events_of_the_trace() {
    let mut d = TraceDecisions::new();
    d.record_span(Some("t1".to_string()), false, 0);
    d.record_span(Some("t2".to_string()), true, 0);
    assert!(!d.forward_event(TraceLevel::Info, Some("t1"), 1));
    assert!(!d.forward_event(TraceLevel::Warn, Some("t1"), 2));
    assert!(d.forward_event(TraceLevel::Info, Some("t2"), 3));
    assert_eq!(d.len(), 2);
}

#[test]
fn first_decision_sticks() {
    let mut d = TraceDecisions::new();
    d.record_span(Some("t".to_string()), false, 0);
    d.record_span(Some("t".to_string()), true, 5);
    assert!(!d.forward_event(TraceLevel::Debug, Some("t"), 6));
    assert_eq!(d.len(), 1);
    d.record_span(None, true, 7);
    assert_eq!(d.len(), 1);
}

#[test]
fn errors_and_unknown_traces_pass() {
    let mut d = TraceDecisions::new();
    d.record_span(Some("t".to_string()), false, 0);
    assert!(d.forward_event(TraceLevel::Error, Some("t"), 1));
    assert!(d.forward_event(TraceLevel::Info, Some("other"), 1));
    assert!(d.forward_event(TraceLevel::Info, None, 1));
    assert_eq!(d.len(), 1);
}

#[test]
fn sweep_clears_whole_table_above_threshold() {
    let mut d = TraceDecisions::new();
    for i in 0..CLEANUP_THRESHOLD {
        d.record_span(Some(format!("t{}", i)), i % 2 == 0, 0);
    }
    assert!(!d.sweep(0, DECISION_TTL_SECS));
    assert_eq!(d.len(), CLEANUP_THRESHOLD);
    assert!(d.forward_event(TraceLevel::Info, Some("t0"), 0));
    assert!(!d.forward_event(TraceLevel::Info, Some("t1"), 0));
    d.record_span(Some("extra".to_string()), false, 0);
    assert!(d.sweep(0, DECISION_TTL_SECS));
    assert_eq!(d.len(), 0);
    assert!(d.forward_event(TraceLevel::Info, Some("t1"), 0));
}

#[test]
fn sweep_drains_only_stale_decisions() {
    let mut d = TraceDecisions::new();
    d.record_span(Some("old".to_string()), false, 0);
    d.record_span(Some("busy".to_string()), false, 0);
    d.record_span(Some("new".to_string()), false, 250 * SEC);
    // An event of a known trace marks it seen again.
    assert!(!d.forward_event(TraceLevel::Info, Some("busy"), 200 * SEC));
    assert!(!d.sweep(300 * SEC, 300));
    assert_eq!(d.len(), 3);
    assert!(!d.sweep(300 * SEC + 1, 300));
    assert_eq!(d.len(), 2);
    assert!(d.forward_event(TraceLevel::Info, Some("old"), 300 * SEC + 1));
    assert!(!d.forward_event(TraceLevel::Info, Some("busy"), 300 * SEC + 1));
    assert!(!d.forward_event(TraceLevel::Info, Some("new"), 300 * SEC + 1));
    assert!(!d.sweep(900 * SEC, 300));
    assert_eq!(d.len(), 0);
}

#[test]
fn error_events_do_not_refresh_a_trace() {
    let mut d = TraceDecisions::new();
    d.record_span(Some("t".to_string()), false, 0);
    assert!(d.forward_event(TraceLevel::Error, Some("t"), 299 * SEC));
    assert!(!d.sweep(301 * SEC, 300));
    assert_eq!(d.len(), 0);
}
