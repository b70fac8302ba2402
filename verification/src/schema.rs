//! The structured log event that `/api/ingest` accepts and the store
//! keeps, its level, and the parameters of a log query.

use vstd::prelude::*;

use crate::event_meta::TraceLevel;

verus! {

/// Severity of an ingested event; its text form is upper case.
#[derive(Debug, Clone, Copy, PartialEq, Eq, Structural)]
pub enum LogLevel {
    Error,
    Warn,
    Info,
    Debug,
}

/// The text form of a level: `ERROR`, `WARN`, `INFO` or `DEBUG`.
pub open spec fn level_label(level: LogLevel) -> Seq<char> {
    match level {
        LogLevel::Error => seq!['E', 'R', 'R', 'O', 'R'],
        LogLevel::Warn => seq!['W', 'A', 'R', 'N'],
        LogLevel::Info => seq!['I', 'N', 'F', 'O'],
        LogLevel::Debug => seq!['D', 'E', 'B', 'U', 'G'],
    }
}

impl LogLevel {
    /// The text form of the level, as a string slice.
    pub fn label(&self) -> (s: &'static str)
        ensures
            s@ == level_label(*self),
    {
        match self {
            LogLevel::Error => {
                proof {
                    reveal_strlit("ERROR");
                }
                "ERROR"
            },
            LogLevel::Warn => {
                proof {
                    reveal_strlit("WARN");
                }
                "WARN"
            },
            LogLevel::Info => {
                proof {
                    reveal_strlit("INFO");
                }
                "INFO"
            },
            LogLevel::Debug => {
                proof {
                    reveal_strlit("DEBUG");
                }
                "DEBUG"
            },
        }
    }

    /// The text form of the level, as an owned string.
    pub fn to_string(&self) -> (s: String)
        ensures
            s@ == level_label(*self),
    {
        self.label().to_owned()
    }
}

/// Two levels' texts are equal without regard to ASCII case exactly when
/// the levels are the same.
pub proof fn lemma_level_labels_distinct(a: LogLevel, b: LogLevel)
    ensures
        crate::text::eq_ignore_ascii_case_spec(level_label(a), level_label(b)) == (a == b),
{
    let la = level_label(a);
    let lb = level_label(b);
    if a != b {
        if la.len() == lb.len() {
            assert(crate::text::fold_ascii(la[0]) != crate::text::fold_ascii(lb[0]));
        }
    }
}

/// The tracing level at which the ingest handler re-emits an event of
/// the given level: `ERROR` and `WARN` keep theirs, the others go out at
/// `INFO`.
pub open spec fn emitted_level_spec(level: LogLevel) -> TraceLevel {
    match level {
        LogLevel::Error => TraceLevel::Error,
        LogLevel::Warn => TraceLevel::Warn,
        _ => TraceLevel::Info,
    }
}

impl LogLevel {
    /// The tracing level at which the ingest handler re-emits an event of
    /// this level.
    pub fn emitted_level(&self) -> (t: TraceLevel)
        ensures
            t == emitted_level_spec(*self),
    {
        match self {
            LogLevel::Error => TraceLevel::Error,
            LogLevel::Warn => TraceLevel::Warn,
            _ => TraceLevel::Info,
        }
    }
}

/// An instant in UTC: whole seconds since the Unix epoch and the
/// nanoseconds past that second.
#[derive(Debug, Clone, Copy, PartialEq, Eq, Structural)]
pub struct Timestamp {
    pub secs: i64,
    pub nanos: u32,
}

/// A field of an event that the schema does not name, kept as its key and
/// the JSON text of its value.
#[derive(Debug)]
pub struct ExtraField {
    pub key: String,
    pub value_json: String,
}

/// The canonical structured log event accepted by `/api/ingest` and kept
/// in the store.
#[derive(Debug)]
pub struct LogEvent {
    pub ts: Timestamp,
    pub level: LogLevel,
    pub service: String,
    pub host: Option<String>,
    pub env: Option<String>,
    pub trace_id: Option<String>,
    pub span_id: Option<String>,
    pub msg: String,
    pub path: Option<String>,
    pub method: Option<String>,
    pub status: Option<u16>,
    pub latency_ms: Option<u64>,
    pub user_id: Option<String>,
    pub slow: bool,
    pub sampled: bool,
    pub extra: Vec<ExtraField>,
}

/// The value of a `LogEvent`, with every string taken as its characters.
pub struct LogEventView {
    pub ts: Timestamp,
    pub level: LogLevel,
    pub service: Seq<char>,
    pub host: Option<Seq<char>>,
    pub env: Option<Seq<char>>,
    pub trace_id: Option<Seq<char>>,
    pub span_id: Option<Seq<char>>,
    pub msg: Seq<char>,
    pub path: Option<Seq<char>>,
    pub method: Option<Seq<char>>,
    pub status: Option<u16>,
    pub latency_ms: Option<u64>,
    pub user_id: Option<Seq<char>>,
    pub slow: bool,
    pub sampled: bool,
    pub extra: Seq<(Seq<char>, Seq<char>)>,
}

/// The characters of an optional string.
pub open spec fn opt_chars(s: Option<String>) -> Option<Seq<char>> {
    match s {
        Some(t) => Some(t@),
        None => None,
    }
}

/// The characters of an optional string slice.
pub open spec fn opt_str_chars(s: Option<&str>) -> Option<Seq<char>> {
    match s {
        Some(t) => Some(t@),
        None => None,
    }
}

impl View for LogEvent {
    type V = LogEventView;

    open spec fn view(&self) -> LogEventView {
        LogEventView {
            ts: self.ts,
            level: self.level,
            service: self.service@,
            host: opt_chars(self.host),
            env: opt_chars(self.env),
            trace_id: opt_chars(self.trace_id),
            span_id: opt_chars(self.span_id),
            msg: self.msg@,
            path: opt_chars(self.path),
            method: opt_chars(self.method),
            status: self.status,
            latency_ms: self.latency_ms,
            user_id: opt_chars(self.user_id),
            slow: self.slow,
            sampled: self.sampled,
            extra: self.extra@.map_values(|f: ExtraField| (f.key@, f.value_json@)),
        }
    }
}

fn copy_opt_string(s: &Option<String>) -> (r: Option<String>)
    ensures
        opt_chars(r) == opt_chars(*s),
{
    match s {
        Some(t) => Some(t.clone()),
        None => None,
    }
}

impl LogEvent {
    /// A copy of the event with the same value.
    pub fn duplicate(&self) -> (r: LogEvent)
        ensures
            r@ == self@,
    {
        let mut extra: Vec<ExtraField> = Vec::new();
        let mut i: usize = 0;
        while i < self.extra.len()
            invariant
                i <= self.extra.len(),
                extra@.len() == i,
                forall|j: int|
                    0 <= j < i ==> #[trigger] extra@[j].key@ == self.extra@[j].key@
                        && extra@[j].value_json@ == self.extra@[j].value_json@,
            decreases self.extra.len() - i,
        {
            let f = &self.extra[i];
            let copy = ExtraField { key: f.key.clone(), value_json: f.value_json.clone() };
            let ghost before = extra@;
            extra.push(copy);
            proof {
                assert forall|j: int| 0 <= j < i + 1 implies #[trigger] extra@[j].key@ == self.extra@[j].key@
                    && extra@[j].value_json@ == self.extra@[j].value_json@ by {
                    if j < i {
                        assert(extra@[j] == before[j]);
                    }
                }
            }
            i = i + 1;
        }
        let r = LogEvent {
            ts: self.ts,
            level: self.level,
            service: self.service.clone(),
            host: copy_opt_string(&self.host),
            env: copy_opt_string(&self.env),
            trace_id: copy_opt_string(&self.trace_id),
            span_id: copy_opt_string(&self.span_id),
            msg: self.msg.clone(),
            path: copy_opt_string(&self.path),
            method: copy_opt_string(&self.method),
            status: self.status,
            latency_ms: self.latency_ms,
            user_id: copy_opt_string(&self.user_id),
            slow: self.slow,
            sampled: self.sampled,
            extra,
        };
        proof {
            assert(r@.extra =~= self@.extra);
        }
        r
    }
}

/// Requests slower than this many milliseconds are marked slow.
pub const SLOW_THRESHOLD_MS: u64 = 1000;

/// A request is slow when its latency, taken as 0 where absent, exceeds
/// the threshold.
pub open spec fn is_slow_latency(latency_ms: Option<u64>) -> bool {
    match latency_ms {
        Some(ms) => ms > SLOW_THRESHOLD_MS,
        None => false,
    }
}

/// The slowness law: a request is slow exactly when it has a latency
/// above 1000 ms, so slowness only grows with latency.
pub proof fn lemma_slow_above_threshold(ms: u64, more: u64)
    ensures
        is_slow_latency(Some(ms)) == (ms > 1000),
        !is_slow_latency(None),
        ms <= more && is_slow_latency(Some(ms)) ==> is_slow_latency(Some(more)),
{
}

/// Marks a slow request: sets `slow` where the latency exceeds the
/// threshold and leaves every other field, and a `slow` already set, as
/// it was.
pub fn mark_slow(event: &mut LogEvent)
    ensures
        final(event)@ == (LogEventView { slow: old(event)@.slow || is_slow_latency(old(event).latency_ms), ..old(event)@ }),
{
    let latency = match event.latency_ms {
        Some(ms) => ms,
        None => 0,
    };
    if latency > SLOW_THRESHOLD_MS {
        event.slow = true;
    }
}

/// Query parameters of `GET /api/logs`.
#[derive(Debug)]
pub struct LogQuery {
    pub level: Option<String>,
    pub service: Option<String>,
    pub search: Option<String>,
    pub limit: Option<usize>,
}

/// Number of events returned when the query names no limit.
pub const DEFAULT_QUERY_LIMIT: usize = 200;

/// Largest number of events one query returns.
pub const MAX_QUERY_LIMIT: usize = 1000;

/// The limit a query applies: the one it names (200 where it names none),
/// capped at 1000.
pub open spec fn effective_limit_spec(limit: Option<usize>) -> usize {
    let asked = match limit {
        Some(n) => n,
        None => DEFAULT_QUERY_LIMIT,
    };
    if asked <= MAX_QUERY_LIMIT { asked } else { MAX_QUERY_LIMIT }
}

impl LogQuery {
    /// The number of events this query asks for, after the default and
    /// the cap are applied.
    pub fn effective_limit(&self) -> (n: usize)
        ensures
            n == effective_limit_spec(self.limit),
    {
        let asked = match self.limit {
            Some(n) => n,
            None => DEFAULT_QUERY_LIMIT,
        };
        if asked <= MAX_QUERY_LIMIT {
            asked
        } else {
            MAX_QUERY_LIMIT
        }
    }
}

} // verus!
