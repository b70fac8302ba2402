//! Trace-coherent sampling: one keep/drop decision per trace id, applied
//! to every event of that trace; errors always pass, and events of an
//! unknown trace pass too. Each decision remembers when its trace was
//! last seen, and the periodic sweep drains those not seen for longer
//! than a time-to-live.

use dashmap::DashMap;

use vstd::prelude::*;

use crate::event_meta::{is_older_than, older_than, TraceLevel};

verus! {

/// The decision table is cleared whole when it holds more entries than
/// this.
pub const CLEANUP_THRESHOLD: usize = 50000;

/// Decisions of traces not seen for more than this many seconds are
/// drained by the periodic sweep.
pub const DECISION_TTL_SECS: u64 = 300;

#[verifier::external_type_specification]
#[verifier::external_body]
#[verifier::reject_recursive_types(K)]
#[verifier::reject_recursive_types(V)]
#[verifier::reject_recursive_types(S)]
pub struct ExDashMap<K, V, S>(dashmap::DashMap<K, V, S>);

/// What a `DashMap` from trace id to (keep flag, last-seen time) holds,
/// keyed by the characters of the trace id.
pub uninterp spec fn decision_table(m: DashMap<String, (bool, u128)>) -> Map<Seq<char>, (bool, u128)>;

/// The entries of `decisions` whose trace was seen no more than
/// `ttl_secs` seconds before `now`.
pub open spec fn fresh_spec(decisions: Map<Seq<char>, (bool, u128)>, now: u128, ttl_secs: u64) -> Map<
    Seq<char>,
    (bool, u128),
> {
    Map::new(
        |k: Seq<char>| decisions.contains_key(k) && !older_than(decisions[k].1, now, ttl_secs),
        |k: Seq<char>| decisions[k],
    )
}

/// Whether a decision's trace was seen no more than `ttl_secs` seconds
/// before `now`; the test the sweep hands to `DashMap::retain`.
pub fn is_fresh(record: &(bool, u128), now: u128, ttl_secs: u64) -> (r: bool)
    ensures
        r == !older_than(record.1, now, ttl_secs),
{
    !is_older_than(record.1, now, ttl_secs)
}

/// `DashMap::new`: a map holding nothing.
#[verifier::external_body]
fn table_new() -> (m: DashMap<String, (bool, u128)>)
    ensures
        decision_table(m) =~= Map::empty(),
{
    DashMap::new()
}

/// `DashMap::get`: the value stored under `key`, if any, copied out of
/// the guard that the call returns.
#[verifier::external_body]
fn table_get(m: &DashMap<String, (bool, u128)>, key: &str) -> (r: Option<(bool, u128)>)
    ensures
        r == (if decision_table(*m).contains_key(key@) { Some(decision_table(*m)[key@]) } else { None }),
{
    m.get(key).map(|d| *d)
}

/// `DashMap::insert`: stores `value` under `key`, replacing any value
/// already there.
#[verifier::external_body]
fn table_insert(m: &mut DashMap<String, (bool, u128)>, key: String, value: (bool, u128))
    ensures
        decision_table(*final(m)) == decision_table(*old(m)).insert(key@, value),
{
    m.insert(key, value);
}

/// `DashMap::len`: the number of keys held.
#[verifier::external_body]
fn table_len(m: &DashMap<String, (bool, u128)>) -> (n: usize)
    ensures
        n == decision_table(*m).len(),
{
    m.len()
}

/// `DashMap::clear`: removes every key.
#[verifier::external_body]
fn table_clear(m: &mut DashMap<String, (bool, u128)>)
    ensures
        decision_table(*final(m)) =~= Map::empty(),
{
    m.clear()
}

/// `DashMap::retain` with `is_fresh`: keeps exactly the entries whose
/// trace was seen no more than `ttl_secs` seconds before `now`.
#[verifier::external_body]
fn table_retain_fresh(m: &mut DashMap<String, (bool, u128)>, now: u128, ttl_secs: u64)
    ensures
        decision_table(*final(m)) == fresh_spec(decision_table(*old(m)), now, ttl_secs),
{
    m.retain(|_, v| is_fresh(v, now, ttl_secs))
}

/// The decisions after a span opens at `now`: a span with a trace id
/// records `keep` as the decision of a trace that has none yet, keeps the
/// decision of one that has, and marks the trace seen at `now`; a span
/// without a trace id changes nothing.
pub open spec fn record_span_spec(
    decisions: Map<Seq<char>, (bool, u128)>,
    trace_id: Option<Seq<char>>,
    keep: bool,
    now: u128,
) -> Map<Seq<char>, (bool, u128)> {
    match trace_id {
        Some(t) => if decisions.contains_key(t) {
            decisions.insert(t, (decisions[t].0, now))
        } else {
            decisions.insert(t, (keep, now))
        },
        None => decisions,
    }
}

/// Whether an event passes: every `ERROR` event does; otherwise an event
/// of a trace with a decision follows that decision, and any other event
/// passes.
pub open spec fn forward_event_spec(
    decisions: Map<Seq<char>, (bool, u128)>,
    level: TraceLevel,
    trace_id: Option<Seq<char>>,
) -> bool {
    if level == TraceLevel::Error {
        true
    } else {
        match trace_id {
            Some(t) => if decisions.contains_key(t) {
                decisions[t].0
            } else {
                true
            },
            None => true,
        }
    }
}

/// The decisions after an event at `now`: an event that is not an error
/// and belongs to a trace with a decision marks that trace seen at `now`;
/// any other event changes nothing.
pub open spec fn after_event_spec(
    decisions: Map<Seq<char>, (bool, u128)>,
    level: TraceLevel,
    trace_id: Option<Seq<char>>,
    now: u128,
) -> Map<Seq<char>, (bool, u128)> {
    match trace_id {
        Some(t) => if level != TraceLevel::Error && decisions.contains_key(t) {
            decisions.insert(t, (decisions[t].0, now))
        } else {
            decisions
        },
        None => decisions,
    }
}

/// The characters of an optional string slice.
pub open spec fn opt_id(trace_id: Option<&str>) -> Option<Seq<char>> {
    match trace_id {
        Some(t) => Some(t@),
        None => None,
    }
}

/// The per-trace keep/drop decisions of the trace-aware sampler, each
/// with the time (nanoseconds on the caller's monotonic clock) its trace
/// was last seen.
pub struct TraceDecisions {
    table: DashMap<String, (bool, u128)>,
}

impl View for TraceDecisions {
    type V = Map<Seq<char>, (bool, u128)>;

    closed spec fn view(&self) -> Map<Seq<char>, (bool, u128)> {
        decision_table(self.table)
    }
}

impl TraceDecisions {
    /// A table with no decision.
    pub fn new() -> (d: TraceDecisions)
        ensures
            d@ == Map::<Seq<char>, (bool, u128)>::empty(),
    {
        TraceDecisions { table: table_new() }
    }

    /// Number of traces with a decision.
    pub fn len(&self) -> (n: usize)
        ensures
            n == self@.len(),
    {
        table_len(&self.table)
    }

    /// Registers a new span seen at `now`: when it carries a trace id, a
    /// trace with no decision yet gets `keep`, and the trace is marked
    /// seen at `now`.
    pub fn record_span(&mut self, trace_id: Option<String>, keep: bool, now: u128)
        ensures
            final(self)@ == record_span_spec(
                old(self)@,
                match trace_id {
                    Some(t) => Some(t@),
                    None => None,
                },
                keep,
                now,
            ),
    {
        match trace_id {
            Some(t) => {
                let decided = match table_get(&self.table, t.as_str()) {
                    Some(record) => record.0,
                    None => keep,
                };
                table_insert(&mut self.table, t, (decided, now));
            },
            None => {},
        }
    }

    /// Whether an event with the given level and trace id, seen at `now`,
    /// passes; an event that is not an error marks its trace, if it has a
    /// decision, seen at `now`.
    pub fn forward_event(&mut self, level: TraceLevel, trace_id: Option<&str>, now: u128) -> (keep: bool)
        ensures
            keep == forward_event_spec(old(self)@, level, opt_id(trace_id)),
            final(self)@ == after_event_spec(old(self)@, level, opt_id(trace_id), now),
    {
        if level == TraceLevel::Error {
            return true;
        }
        match trace_id {
            Some(t) => match table_get(&self.table, t) {
                Some(record) => {
                    table_insert(&mut self.table, t.to_owned(), (record.0, now));
                    record.0
                },
                None => true,
            },
            None => true,
        }
    }

    /// The periodic cleanup at `now`: when the table holds more than
    /// `CLEANUP_THRESHOLD` decisions it is cleared whole; otherwise exactly
    /// the decisions of traces not seen for more than `ttl_secs` seconds
    /// are drained. Says whether the table was cleared whole.
    pub fn sweep(&mut self, now: u128, ttl_secs: u64) -> (cleared: bool)
        ensures
            cleared == (old(self)@.len() > CLEANUP_THRESHOLD),
            cleared ==> final(self)@ == Map::<Seq<char>, (bool, u128)>::empty(),
            !cleared ==> final(self)@ == fresh_spec(old(self)@, now, ttl_secs),
    {
        if table_len(&self.table) > CLEANUP_THRESHOLD {
            table_clear(&mut self.table);
            true
        } else {
            table_retain_fresh(&mut self.table, now, ttl_secs);
            false
        }
    }
}

/// Decisions are made once per trace: a span of a trace that already has
/// a decision leaves that decision as it was, whatever keep flag comes
/// with it, and only refreshes when the trace was last seen.
pub proof fn lemma_decision_is_sticky(
    decisions: Map<Seq<char>, (bool, u128)>,
    trace_id: Seq<char>,
    keep: bool,
    now: u128,
)
    requires
        decisions.contains_key(trace_id),
    ensures
        record_span_spec(decisions, Some(trace_id), keep, now)[trace_id] == (decisions[trace_id].0, now),
        record_span_spec(decisions, Some(trace_id), keep, now).dom() == decisions.dom(),
{
    assert(record_span_spec(decisions, Some(trace_id), keep, now).dom() =~= decisions.dom());
}

/// Trace coherence: two events of one trace that are not errors get the
/// same verdict, and once a span has registered the trace, that verdict
/// is the trace's decision.
pub proof fn lemma_trace_coherent(
    decisions: Map<Seq<char>, (bool, u128)>,
    trace_id: Seq<char>,
    keep: bool,
    now: u128,
    a: TraceLevel,
    b: TraceLevel,
)
    requires
        a != TraceLevel::Error,
        b != TraceLevel::Error,
    ensures
        forward_event_spec(decisions, a, Some(trace_id)) == forward_event_spec(decisions, b, Some(trace_id)),
        forward_event_spec(record_span_spec(decisions, Some(trace_id), keep, now), a, Some(trace_id))
            == record_span_spec(decisions, Some(trace_id), keep, now)[trace_id].0,
        forward_event_spec(after_event_spec(decisions, b, Some(trace_id), now), a, Some(trace_id))
            == forward_event_spec(decisions, a, Some(trace_id)),
{
}

/// The drain law: a sweep that does not clear the table removes every
/// decision whose trace was last seen more than `ttl_secs` seconds
/// before it, and keeps every other decision as it was.
pub proof fn lemma_sweep_drains_stale(
    decisions: Map<Seq<char>, (bool, u128)>,
    trace_id: Seq<char>,
    now: u128,
    ttl_secs: u64,
)
    requires
        decisions.contains_key(trace_id),
    ensures
        older_than(decisions[trace_id].1, now, ttl_secs) ==> !fresh_spec(decisions, now, ttl_secs).contains_key(
            trace_id,
        ),
        !older_than(decisions[trace_id].1, now, ttl_secs) ==> fresh_spec(decisions, now, ttl_secs).contains_key(
            trace_id,
        ) && fresh_spec(decisions, now, ttl_secs)[trace_id] == decisions[trace_id],
{
}

} // verus!
