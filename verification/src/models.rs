//! Data model: nodes, digests, and the wire shapes of the collaborator
//! responses that carry them.
//!
//! A digest ("proof of indexing") is an opaque string; equality is exact.
//! The caller's transport decodes its JSON responses into these shapes and
//! hands them to the engine as plain values.

use vstd::prelude::*;

verus! {

/// One GraphQL request body.
#[derive(Debug)]
pub struct GraphQLQuery {
    pub query: String,
}

/// Envelope of a GraphQL response.
#[derive(Debug)]
pub struct GraphQLResponse<T> {
    pub data: T,
}

/// Payload listing the active allocations of a deployment.
#[derive(Debug)]
pub struct AllocationsData {
    pub allocations: Vec<Allocation>,
}

/// One active allocation; only its indexer matters here.
#[derive(Debug)]
pub struct Allocation {
    pub indexer: Indexer,
}

/// An indexing node: a unique stable identifier and its query endpoint.
#[derive(Clone, Debug)]
pub struct Indexer {
    pub id: String,
    pub url: String,
}

/// Envelope of a digest response.
#[derive(Debug)]
pub struct POIResponse {
    pub data: POIData,
}

/// Payload of a digest response: the digests the node returned.
#[derive(Debug)]
pub struct POIData {
    pub pois: Vec<POI>,
}

/// One digest entry as a node reports it.
#[derive(Debug)]
pub struct POI {
    pub deployment: Option<String>,
    pub poi: String,
    pub block: Option<Block>,
}

/// Block reference inside a digest entry.
#[derive(Debug)]
pub struct Block {
    pub number: String,
}

/// A digest paired with the node that reported it, for display.
#[derive(Debug)]
pub struct IndexerPOI {
    pub indexer_id: String,
    pub indexer_url: String,
    pub poi: String,
}

/// One equivalence class of digests for reporting: a digest value, the
/// `(id, url)` pairs of the nodes that reported it, and whether the trusted
/// node is among them.
#[derive(Debug)]
pub struct POIGroup {
    pub poi: String,
    pub indexers: Vec<(String, String)>,
    pub is_correct: bool,
}

/// The outcome of fetching one node's digest at one block, after retries:
/// either the digest, or the node stayed unreachable.
#[derive(Clone, Debug)]
pub enum FetchOutcome {
    Digest(String),
    Unreachable,
}

/// The identifiers of `indexers`, in order, as sequences of characters.
pub open spec fn indexer_ids(indexers: Seq<Indexer>) -> Seq<Seq<char>> {
    indexers.map_values(|x: Indexer| x.id@)
}

/// Whether no two indexers in the sequence share an identifier.
pub open spec fn unique_indexer_ids(indexers: Seq<Indexer>) -> bool {
    forall|i: int, j: int|
        0 <= i < j < indexers.len() ==> indexers[i].id@ != indexers[j].id@
}

/// True exactly when no two of the given indexers share an identifier.
pub fn has_unique_indexer_ids(indexers: &Vec<Indexer>) -> (r: bool)
    ensures
        r == unique_indexer_ids(indexers@),
{
    let n = indexers.len();
    for i in 0..n
        invariant
            n == indexers.len(),
            forall|p: int, q: int| 0 <= p < q < indexers.len() && p < i ==> indexers[p].id@ != indexers[q].id@,
    {
        for j in (i + 1)..n
            invariant
                n == indexers.len(),
                i < n,
                forall|p: int, q: int| 0 <= p < q < indexers.len() && p < i ==> indexers[p].id@ != indexers[q].id@,
                forall|q: int| i < q < j ==> indexers[i as int].id@ != indexers[q].id@,
        {
            if indexers[i].id == indexers[j].id {
                return false;
            }
        }
    }
    true
}

/// Whether `id` occurs among the identifiers of `indexers`.
pub open spec fn spec_contains_id(indexers: Seq<Indexer>, id: Seq<char>) -> bool {
    exists|i: int| 0 <= i < indexers.len() && indexers[i].id@ == id
}

/// True exactly when some indexer carries the given identifier.
pub fn contains_indexer_id(indexers: &Vec<Indexer>, id: &String) -> (r: bool)
    ensures
        r == spec_contains_id(indexers@, id@),
{
    let n = indexers.len();
    for i in 0..n
        invariant
            n == indexers.len(),
            forall|p: int| 0 <= p < i ==> indexers[p].id@ != id@,
    {
        if indexers[i].id == *id {
            return true;
        }
    }
    false
}

} // verus!
