//! The probabilistic sampler's choice of rate: by HTTP status class when
//! the event carries a status, by level otherwise. The rates themselves,
//! and the random draw against them, belong to the caller.

use vstd::prelude::*;

use crate::event_meta::TraceLevel;

verus! {

/// Which of the sampler's rates applies to an event.
#[derive(Debug, Clone, Copy, PartialEq, Eq, Structural)]
pub enum SampleBucket {
    /// A status below 300: the success rate.
    Success,
    /// A status from 300 to 499: the client-error rate.
    ClientError,
    /// A status of 500 or more: the server-error rate.
    ServerError,
    /// No status, level `ERROR` or `WARN`: always kept.
    LevelAlways,
    /// No status, level `INFO`: the info rate.
    LevelInfo,
    /// No status, level `DEBUG` or `TRACE`: the low rate.
    LevelLow,
}

/// The bucket of an event with the given status field and level.
pub open spec fn sample_bucket_spec(status: Option<u64>, level: TraceLevel) -> SampleBucket {
    match status {
        Some(s) => if s < 300 {
            SampleBucket::Success
        } else if s < 500 {
            SampleBucket::ClientError
        } else {
            SampleBucket::ServerError
        },
        None => match level {
            TraceLevel::Error | TraceLevel::Warn => SampleBucket::LevelAlways,
            TraceLevel::Info => SampleBucket::LevelInfo,
            _ => SampleBucket::LevelLow,
        },
    }
}

/// The bucket of an event with the given status field and level.
pub fn sample_bucket(status: Option<u64>, level: TraceLevel) -> (b: SampleBucket)
    ensures
        b == sample_bucket_spec(status, level),
{
    match status {
        Some(s) => {
            if s < 300 {
                SampleBucket::Success
            } else if s < 500 {
                SampleBucket::ClientError
            } else {
                SampleBucket::ServerError
            }
        },
        None => match level {
            TraceLevel::Error | TraceLevel::Warn => SampleBucket::LevelAlways,
            TraceLevel::Info => SampleBucket::LevelInfo,
            _ => SampleBucket::LevelLow,
        },
    }
}

/// The status law: with a status, the bucket is decided by its class of
/// hundreds alone, whatever the level: below 300 the success rate, 300 to
/// 499 the client-error rate, 500 and above the server-error rate; so
/// statuses of one class share a bucket. Without a status, `ERROR` and
/// `WARN` events are always kept, `INFO` ones take the info rate and the
/// rest the low rate.
pub proof fn lemma_bucket_by_status_class(s: u64, t: u64, level: TraceLevel, other: TraceLevel)
    ensures
        s < 300 ==> sample_bucket_spec(Some(s), level) == SampleBucket::Success,
        300 <= s < 500 ==> sample_bucket_spec(Some(s), level) == SampleBucket::ClientError,
        s >= 500 ==> sample_bucket_spec(Some(s), level) == SampleBucket::ServerError,
        sample_bucket_spec(Some(s), level) == sample_bucket_spec(Some(s), other),
        (s < 300 && t < 300) || (300 <= s < 500 && 300 <= t < 500) || (s >= 500 && t >= 500)
            ==> sample_bucket_spec(Some(s), level) == sample_bucket_spec(Some(t), other),
        (sample_bucket_spec(None, level) == SampleBucket::LevelAlways) == (level == TraceLevel::Error || level
            == TraceLevel::Warn),
        (sample_bucket_spec(None, level) == SampleBucket::LevelInfo) == (level == TraceLevel::Info),
        (sample_bucket_spec(None, level) == SampleBucket::LevelLow) == (level == TraceLevel::Debug || level
            == TraceLevel::Trace),
{
}

} // verus!
