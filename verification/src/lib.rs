//! Verified core of the LogForge ingest and sampling service: the bounded
//! event store and its query filters, the burst-suppression bookkeeping,
//! and the sampling decisions that the tracing layers apply.

pub mod burst;
pub mod event_meta;
pub mod sampling;
pub mod schema;
pub mod state;
pub mod text;
pub mod trace_aware;
