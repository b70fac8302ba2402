//! What the tracing layers read of an event: its level and the roles of
//! its named fields.

use vstd::prelude::*;

use crate::text::same_text;

verus! {

/// The level of a tracing event, from most to least verbose.
#[derive(Debug, Clone, Copy, PartialEq, Eq, Structural)]
pub enum TraceLevel {
    Trace,
    Debug,
    Info,
    Warn,
    Error,
}

/// The role a named event field plays for the layers.
#[derive(Debug, Clone, Copy, PartialEq, Eq, Structural)]
pub enum FieldRole {
    /// `message` or `msg`: the text the burst fingerprint reads.
    Message,
    /// `status`: the HTTP status the probabilistic sampler reads.
    Status,
    /// `trace_id`: the trace the trace-aware sampler reads.
    TraceId,
    /// Any other field, which no layer reads.
    Other,
}

/// The role of the field with the given name.
pub open spec fn field_role_spec(name: Seq<char>) -> FieldRole {
    if name == "message"@ || name == "msg"@ {
        FieldRole::Message
    } else if name == "status"@ {
        FieldRole::Status
    } else if name == "trace_id"@ {
        FieldRole::TraceId
    } else {
        FieldRole::Other
    }
}

/// The role of the field with the given name.
pub fn field_role(name: &str) -> (r: FieldRole)
    ensures
        r == field_role_spec(name@),
{
    if same_text(name, "message") || same_text(name, "msg") {
        FieldRole::Message
    } else if same_text(name, "status") {
        FieldRole::Status
    } else if same_text(name, "trace_id") {
        FieldRole::TraceId
    } else {
        FieldRole::Other
    }
}

/// Nanoseconds in one second.
pub const NANOS_PER_SEC: u128 = 1000000000;

/// Whether, at time `now`, more than `secs` seconds have passed since
/// `since`; both are nanoseconds on the caller's monotonic clock, and a
/// `now` before `since` counts as no time at all, as
/// `Instant::saturating_duration_since` does.
pub open spec fn older_than(since: u128, now: u128, secs: u64) -> bool {
    let elapsed: int = if now >= since { now - since } else { 0 };
    elapsed > secs * NANOS_PER_SEC
}

/// Whether, at time `now`, more than `secs` seconds have passed since
/// `since`.
pub fn is_older_than(since: u128, now: u128, secs: u64) -> (r: bool)
    ensures
        r == older_than(since, now, secs),
{
    let elapsed: u128 = if now >= since { now - since } else { 0 };
    elapsed > (secs as u128) * NANOS_PER_SEC
}

} // verus!
