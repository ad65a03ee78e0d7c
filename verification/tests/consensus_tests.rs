use poi_agent::consensus::{ConsensusProbe, validate_trusted_member};
use poi_agent::errors::FatalError;
use poi_agent::models::{FetchOutcome, Indexer};

fn outcome(digest: &str) -> FetchOutcome {
    FetchOutcome::Digest(digest.to_string())
}

fn probe(checkpoint: u32, trusted: &str) -> ConsensusProbe {
    ConsensusProbe::new(checkpoint, trusted.to_string())
}

#[test]
fn classifies_agreeing_disagreeing_unreachable() {
    let gt = probe(12, "t").ground_truth(outcome("0xabc")).unwrap();
    let outcomes = vec![
        ("a".to_string(), outcome("0xabc")),
        ("b".to_string(), outcome("0xdef")),
        ("c".to_string(), FetchOutcome::Unreachable),
    ];
    let r = gt.classify(&outcomes);
    assert_eq!(r.checkpoint, 12);
    assert_eq!(r.trusted_poi, "0xabc");
    assert_eq!(r.agreeing, vec!["a".to_string()]);
    assert_eq!(r.disagreeing, vec!["b".to_string()]);
    assert_eq!(r.unreachable, vec!["c".to_string()]);
    assert!(r.has_divergence());
}

#[test]
fn trusted_node_is_never_classified() {
    let gt = probe(7, "t").ground_truth(outcome("0xabc")).unwrap();
    let outcomes = vec![
        ("t".to_string(), outcome("0xabc")),
        ("t".to_string(), outcome("0xdef")),
        ("t".to_string(), FetchOutcome::Unreachable),
        ("a".to_string(), outcome("0xabc")),
    ];
    let r = gt.classify(&outcomes);
    assert_eq!(r.agreeing, vec!["a".to_string()]);
    assert!(r.disagreeing.is_empty());
    assert!(r.unreachable.is_empty());
}

#[test]
fn sets_partition_the_peers() {
    let gt = probe(3, "t").ground_truth(outcome("x")).unwrap();
    let outcomes = vec![
        ("a".to_string(), outcome("x")),
        ("b".to_string(), outcome("y")),
        ("c".to_string(), FetchOutcome::Unreachable),
        ("d".to_string(), outcome("x")),
        ("t".to_string(), outcome("x")),
    ];
    let r = gt.classify(&outcomes);
    let mut all: Vec<String> = Vec::new();
    all.extend(r.agreeing.iter().cloned());
    all.extend(r.disagreeing.iter().cloned());
    all.extend(r.unreachable.iter().cloned());
    all.sort();
    assert_eq!(all, vec!["a", "b", "c", "d"]);
    for id in &r.agreeing {
        assert!(!r.disagreeing.contains(id) && !r.unreachable.contains(id));
    }
    for id in &r.disagreeing {
        assert!(!r.unreachable.contains(id));
    }
}

#[test]
fn unreachable_peer_is_not_a_disagreement() {
    let gt = probe(9, "t").ground_truth(outcome("x")).unwrap();
    let outcomes = vec![
        ("a".to_string(), outcome("x")),
        ("b".to_string(), FetchOutcome::Unreachable),
    ];
    let r = gt.classify(&outcomes);
    assert!(!r.has_divergence());
    assert_eq!(r.unreachable, vec!["b".to_string()]);
}

#[test]
fn unreachable_ground_truth_is_fatal() {
    let r = probe(12, "t").ground_truth(FetchOutcome::Unreachable);
    assert_eq!(r.unwrap_err(), FatalError::NoGroundTruth);
}

#[test]
fn no_peer_is_fetched_without_ground_truth() {
    // The driver resolves the trusted digest before any peer fan-out; when
    // it fails, the peer fetcher must never run.
    let peer_fetches = std::cell::Cell::new(0u32);
    let fetch_peer = |_id: &str| -> FetchOutcome {
        peer_fetches.set(peer_fetches.get() + 1);
        outcome("x")
    };
    let peers = ["a", "b"];
    let result = match probe(12, "t").ground_truth(FetchOutcome::Unreachable) {
        Ok(gt) => {
            let outcomes: Vec<(String, FetchOutcome)> =
                peers.iter().map(|p| (p.to_string(), fetch_peer(p))).collect();
            Ok(gt.classify(&outcomes))
        }
        Err(e) => Err(e),
    };
    assert_eq!(result.unwrap_err(), FatalError::NoGroundTruth);
    assert_eq!(peer_fetches.get(), 0);
}

#[test]
fn empty_peer_set_classifies_to_empty_sets() {
    let gt = probe(1, "t").ground_truth(outcome("x")).unwrap();
    let r = gt.classify(&Vec::new());
    assert!(r.agreeing.is_empty());
    assert!(r.disagreeing.is_empty());
    assert!(r.unreachable.is_empty());
    assert!(!r.has_divergence());
}

#[test]
fn validate_trusted_member_accepts_member() {
    let peers = vec![
        Indexer { id: "t".to_string(), url: "http://t".to_string() },
        Indexer { id: "a".to_string(), url: "http://a".to_string() },
    ];
    assert!(validate_trusted_member(&peers, &"t".to_string()).is_ok());
}

#[test]
fn validate_trusted_member_rejects_stranger() {
    let peers = vec![Indexer { id: "a".to_string(), url: "http://a".to_string() }];
    let r = validate_trusted_member(&peers, &"t".to_string());
    assert_eq!(r.unwrap_err(), FatalError::UnknownTrustedNode);
}
