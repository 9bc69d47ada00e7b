//! A record-harvesting core for a remote leaderboard: walks a numeric
//! identifier space in one or two directions, classifies each fetch outcome,
//! and renders every successfully fetched record as one JSON line for an
//! append-only output sink.
//!
//! The network, the clock and the file system stay outside this crate; the
//! verified core is the data model, the line codec, the backoff policy and
//! the scanner state machine that drives them.

pub mod record;
pub mod codec;
pub mod outcome;
pub mod backoff;
pub mod scanner;
pub mod sink;
