//! Divergence audit engine for proof-of-indexing digests.
//!
//! A set of indexing nodes is expected to report identical digests for the
//! same deployment at the same block. Given one trusted node, this library
//! locates the earliest block at which some peer disagrees with the trusted
//! digest, assuming that divergence, once present, persists at every later
//! block. Network transport is left to the caller; the engine exposes the
//! retry policy, the per-block consensus classification, the binary search
//! over the block range, and the grouping of digests for reporting, each with
//! a verified contract.

pub mod consensus;
pub mod errors;
pub mod fetch;
pub mod models;
pub mod resolve;
pub mod retry;
pub mod search;
pub mod subgraph;
pub mod utils;
