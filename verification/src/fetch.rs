//! Validation of digest transport responses.
//!
//! The transport performs one network round trip per invocation and decodes
//! the response into a `POIResponse`; that part belongs to the caller. What
//! counts as a successful fetch is decided here: a response must carry at
//! least one digest, and the first one is the node's digest — an empty
//! result set is itself a fetch error.

use vstd::prelude::*;

use crate::errors::FetchError;
use crate::models::POIResponse;

verus! {

/// The digest carried by a decoded response: the digest of its first entry,
/// or `EmptyResult` when the response carries none.
pub fn extract_poi(response: POIResponse) -> (r: Result<String, FetchError>)
    ensures
        response.data.pois@.len() == 0 ==> r == Err::<String, FetchError>(FetchError::EmptyResult),
        response.data.pois@.len() > 0 ==> (r matches Ok(p) && p == response.data.pois@[0].poi),
{
    let mut pois = response.data.pois;
    if pois.len() == 0 {
        Err(FetchError::EmptyResult)
    } else {
        let first = pois.remove(0);
        Ok(first.poi)
    }
}

} // verus!
