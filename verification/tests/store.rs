use logforge::schema::{ExtraField, LogEvent, LogLevel, LogQuery, Timestamp};
use logforge::state::{event_matches, AppState, MAX_EVENTS};

fn event(level: LogLevel, service: &str, msg: &str) -> LogEvent {
    LogEvent {
        ts: Timestamp { secs: 1775469600, nanos: 0 },
        level,
        service: service.to_string(),
        host: None,
        env: None,
        trace_id: None,
        span_id: None,
        msg: msg.to_string(),
        path: None,
        method: None,
        status: None,
        latency_ms: None,
        user_id: None,
        slow: false,
        sampled: false,
        extra: Vec::new(),
    }
}

#[test]
fn new_store_is_empty() {
    let s = AppState::new();
    assert_eq!(s.len(), 0);
    assert!(s.query(None, None, None, 10).is_empty());
}

#[test]
fn query_returns_newest_first() {
    let mut s = AppState::new();
    s.push(event(LogLevel::Info, "api", "first"));
    s.push(event(LogLevel::Info, "api", "second"));
    s.push(event(LogLevel::Info, "api", "third"));
    let got = s.query(None, None, None, 10);
    let msgs: Vec<&str> = got.iter().map(|e| e.msg.as_str()).collect();
    assert_eq!(msgs, vec!["third", "second", "first"]);
}

#[test]
fn query_honours_limit() {
    let mut s = AppState::new();
    for i in 0..5 {
        s.push(event(LogLevel::Info, "api", &format!("m{}", i)));
    }
    let got = s.query(None, None, None, 2);
    let msgs: Vec<&str> = got.iter().map(|e| e.msg.as_str()).collect();
    assert_eq!(msgs, vec!["m4", "m3"]);
    assert!(s.query(None, None, None, 0).is_empty());
}

#[test]
fn level_filter_ignores_case() {
    let mut s = AppState::new();
    s.push(event(LogLevel::Error, "api-gateway", "upstream timeout"));
    s.push(event(LogLevel::Warn, "api-gateway", "slow"));
    s.push(event(LogLevel::Info, "payment", "ok"));
    let got = s.query(Some("error"), None, None, 50);
    assert_eq!(got.len(), 1);
    assert_eq!(got[0].msg, "upstream timeout");
    assert_eq!(s.query(Some("ErRoR"), None, None, 50).len(), 1);
    assert_eq!(s.query(Some("WARN"), None, None, 50)[0].msg, "slow");
    assert!(s.query(Some("err"), None, None, 50).is_empty());
    assert!(s.query(Some("ERRORS"), None, None, 50).is_empty());
}

#[test]
fn service_and_search_filters_match_substrings() {
    let mut s = AppState::new();
    s.push(event(LogLevel::Error, "payment-svc", "card timeout at gateway"));
    s.push(event(LogLevel::Error, "payment-svc", "card declined"));
    s.push(event(LogLevel::Error, "orders", "timeout"));
    let got = s.query(None, Some("payment"), Some("timeout"), 50);
    assert_eq!(got.len(), 1);
    assert_eq!(got[0].msg, "card timeout at gateway");
    assert_eq!(s.query(None, Some(""), Some(""), 50).len(), 3);
    assert!(s.query(None, Some("Payment"), None, 50).is_empty());
}

#[test]
fn unicode_messages_are_searched_by_characters() {
    let mut s = AppState::new();
    s.push(event(LogLevel::Info, "ünïcode", "naïve café ☕ served"));
    assert_eq!(s.query(None, Some("nïc"), Some("café ☕"), 5).len(), 1);
    assert!(s.query(None, None, Some("cafe"), 5).is_empty());
}

#[test]
fn store_keeps_only_the_latest_events() {
    let mut s = AppState::new();
    for i in 0..(MAX_EVENTS + 3) {
        s.push(event(LogLevel::Debug, "svc", &format!("e{}", i)));
    }
    assert_eq!(s.len(), MAX_EVENTS);
    let all = s.query(None, None, None, MAX_EVENTS + 10);
    assert_eq!(all.len(), MAX_EVENTS);
    assert_eq!(all[0].msg, format!("e{}", MAX_EVENTS + 2));
    assert_eq!(all[MAX_EVENTS - 1].msg, "e3");
}

#[test]
fn pushed_event_is_read_back_first() {
    let mut s = AppState::new();
    s.push(event(LogLevel::Warn, "a", "older"));
    let mut e = event(LogLevel::Error, "b", "newest");
    e.host = Some("h1".to_string());
    e.status = Some(504);
    e.latency_ms = Some(5003);
    e.trace_id = Some("4bf92f3577b34da6".to_string());
    e.extra.push(ExtraField { key: "region".to_string(), value_json: "\"eu\"".to_string() });
    s.push(e);
    let got = s.query(Some("ERROR"), Some("b"), Some("new"), 1);
    assert_eq!(got.len(), 1);
    assert_eq!(got[0].msg, "newest");
    assert_eq!(got[0].host.as_deref(), Some("h1"));
    assert_eq!(got[0].status, Some(504));
    assert_eq!(got[0].latency_ms, Some(5003));
    assert_eq!(got[0].trace_id.as_deref(), Some("4bf92f3577b34da6"));
    assert_eq!(got[0].extra.len(), 1);
    assert_eq!(got[0].extra[0].key, "region");
    assert_eq!(got[0].extra[0].value_json, "\"eu\"");
}

#[test]
fn event_matches_combines_all_filters() {
    let e = event(LogLevel::Warn, "api-gateway", "upstream timeout");
    assert!(event_matches(&e, Some("warn"), Some("gate"), Some("time")));
    assert!(!event_matches(&e, Some("error"), Some("gate"), Some("time")));
    assert!(!event_matches(&e, Some("warn"), Some("db"), Some("time")));
    assert!(!event_matches(&e, Some("warn"), Some("gate"), Some("refused")));
    assert!(event_matches(&e, None, None, None));
}

#[test]
fn effective_limit_defaults_and_caps() {
    let q = |limit| LogQuery { level: None, service: None, search: None, limit };
    assert_eq!(q(None).effective_limit(), 200);
    assert_eq!(q(Some(50)).effective_limit(), 50);
    assert_eq!(q(Some(1000)).effective_limit(), 1000);
    assert_eq!(q(Some(1001)).effective_limit(), 1000);
    assert_eq!(q(Some(0)).effective_limit(), 0);
}

#[test]
fn duplicate_copies_every_field() {
    let mut e = event(LogLevel::Info, "svc", "hello");
    e.env = Some("prod".to_string());
    e.slow = true;
    e.extra.push(ExtraField { key: "k".to_string(), value_json: "1".to_string() });
    let d = e.duplicate();
    assert_eq!(d.env.as_deref(), Some("prod"));
    assert!(d.slow);
    assert_eq!(d.ts, e.ts);
    assert_eq!(d.level, LogLevel::Info);
    assert_eq!(d.extra[0].value_json, "1");
}
