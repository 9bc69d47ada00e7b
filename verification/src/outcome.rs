//! The classified result of one fetch attempt against the upstream API.

use vstd::prelude::*;
use crate::record::Record;

verus! {

/// What one read of the upstream endpoint came to.
///
/// `NotFound` means the upstream answered but the record does not exist
/// (yet); it is the only outcome the scanner waits on and retries at the
/// same position. `TransportError` covers connection failures, timeouts and
/// bodies that did not decode; the detail text is kept only for the log.
#[derive(Debug, Clone, PartialEq)]
pub enum FetchOutcome {
    Found(Record),
    NotFound,
    TransportError(Vec<char>),
}

} // verus!
