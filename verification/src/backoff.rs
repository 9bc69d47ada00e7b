//! The backoff policy: maps a fetch outcome to what the scanner does next.

use vstd::prelude::*;
use crate::outcome::FetchOutcome;

verus! {

/// Fixed pause between two paced requests, in milliseconds.
pub const PACE_MS: u64 = 727;

/// Fixed stall before retrying a `NotFound` position, in milliseconds:
/// five minutes.
pub const STALL_MS: u64 = 300_000;

/// What the scanner does after one fetch: move one step onward, or stay at
/// the same position and retry after the given pause (milliseconds).
#[derive(PartialEq, Eq, Structural, Clone, Copy, Debug)]
pub enum BackoffDecision {
    Advance,
    StallAndRetry(u64),
}

/// The single policy both scan directions share: a found record and a hard
/// error both advance (an error is logged but never retried, so one broken
/// position cannot stall the scan forever); only `NotFound` stalls, since at
/// the frontier of the identifier space the record most likely does not
/// exist yet and is worth asking for again.
pub fn decide(outcome: &FetchOutcome) -> (d: BackoffDecision)
    ensures
        match outcome {
            FetchOutcome::Found(_) => d == BackoffDecision::Advance,
            FetchOutcome::TransportError(_) => d == BackoffDecision::Advance,
            FetchOutcome::NotFound => d == BackoffDecision::StallAndRetry(STALL_MS),
        },
{
    match outcome {
        FetchOutcome::Found(_) => BackoffDecision::Advance,
        FetchOutcome::TransportError(_) => BackoffDecision::Advance,
        FetchOutcome::NotFound => BackoffDecision::StallAndRetry(STALL_MS),
    }
}

} // verus!
