//! Error taxonomy of the engine.
//!
//! A `FetchError` describes one failed digest request and is retried locally;
//! a `FatalError` ends the whole search: a malformed range or an unknown
//! trusted node is rejected before any network activity, and a trusted node
//! that stays unreachable after retries leaves the search without ground
//! truth. A peer that stays unreachable is not an error: it is reported in
//! the `unreachable` classification set and excluded from comparison.

use vstd::prelude::*;

verus! {

/// Why a single digest request failed: the transport broke (the payload
/// carries the transport's own message), the response carried a non-success
/// status code, or the response carried no digest at all.
#[derive(Debug, PartialEq, Eq)]
pub enum FetchError {
    Transport { message: String },
    Status { code: u16 },
    EmptyResult,
}

/// Why a whole search run cannot proceed.
#[derive(Clone, Copy, Debug, PartialEq, Eq, Structural)]
pub enum FatalError {
    /// The trusted node's digest could not be obtained after retries, so
    /// there is no basis for comparison at any block.
    NoGroundTruth,
    /// The supplied range has its start above its end.
    InvalidRange,
    /// The trusted node is not a member of the peer set.
    UnknownTrustedNode,
}

impl FatalError {
    /// A short fixed description, one per variant, for rendering by callers.
    pub fn describe(&self) -> (r: String)
        ensures
            *self is NoGroundTruth ==> r@ == "trusted node digest unavailable after retries"@,
            *self is InvalidRange ==> r@ == "start block is above end block"@,
            *self is UnknownTrustedNode ==> r@ == "trusted node not found in peer set"@,
    {
        match self {
            FatalError::NoGroundTruth => "trusted node digest unavailable after retries".to_owned(),
            FatalError::InvalidRange => "start block is above end block".to_owned(),
            FatalError::UnknownTrustedNode => "trusted node not found in peer set".to_owned(),
        }
    }
}

} // verus!
