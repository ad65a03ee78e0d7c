use poi_agent::errors::{FatalError, FetchError};
use poi_agent::fetch::extract_poi;
use poi_agent::models::{
    contains_indexer_id, has_unique_indexer_ids, Allocation, Block, Indexer, POI, POIData,
    POIResponse,
};
use poi_agent::subgraph::indexers_from_allocations;

fn indexer(id: &str, url: &str) -> Indexer {
    Indexer { id: id.to_string(), url: url.to_string() }
}

fn poi_entry(digest: &str) -> POI {
    POI {
        deployment: Some("Qm".to_string()),
        poi: digest.to_string(),
        block: Some(Block { number: "12".to_string() }),
    }
}

#[test]
fn extracting_from_empty_response_is_an_error() {
    let response = POIResponse { data: POIData { pois: Vec::new() } };
    assert_eq!(extract_poi(response), Err(FetchError::EmptyResult));
}

#[test]
fn extracting_takes_the_first_digest() {
    let response = POIResponse {
        data: POIData { pois: vec![poi_entry("0xfirst"), poi_entry("0xsecond")] },
    };
    assert_eq!(extract_poi(response), Ok("0xfirst".to_string()));
}

#[test]
fn unique_ids_are_recognized() {
    let v = vec![indexer("a", "u1"), indexer("b", "u2")];
    assert!(has_unique_indexer_ids(&v));
    let w = vec![indexer("a", "u1"), indexer("b", "u2"), indexer("a", "u3")];
    assert!(!has_unique_indexer_ids(&w));
    assert!(has_unique_indexer_ids(&Vec::new()));
}

#[test]
fn membership_is_by_identifier() {
    let v = vec![indexer("a", "u1"), indexer("b", "u2")];
    assert!(contains_indexer_id(&v, &"a".to_string()));
    assert!(!contains_indexer_id(&v, &"u1".to_string()));
}

#[test]
fn allocations_collapse_to_unique_indexers() {
    let allocs = vec![
        Allocation { indexer: indexer("a", "http://a1") },
        Allocation { indexer: indexer("b", "http://b") },
        Allocation { indexer: indexer("a", "http://a2") },
    ];
    let peers = indexers_from_allocations(&allocs);
    assert_eq!(peers.len(), 2);
    assert_eq!(peers[0].id, "a");
    assert_eq!(peers[0].url, "http://a2"); // the last allocation wins
    assert_eq!(peers[1].id, "b");
    assert_eq!(peers[1].url, "http://b");
    assert!(has_unique_indexer_ids(&peers));
}

#[test]
fn empty_allocations_make_an_empty_peer_set() {
    let peers = indexers_from_allocations(&Vec::new());
    assert!(peers.is_empty());
}

#[test]
fn fatal_errors_describe_themselves() {
    assert_eq!(
        FatalError::NoGroundTruth.describe(),
        "trusted node digest unavailable after retries"
    );
    assert_eq!(FatalError::InvalidRange.describe(), "start block is above end block");
    assert_eq!(
        FatalError::UnknownTrustedNode.describe(),
        "trusted node not found in peer set"
    );
}
