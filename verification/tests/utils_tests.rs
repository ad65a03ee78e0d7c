use poi_agent::models::Indexer;
use poi_agent::utils::{format_deployment_hash, group_pois_by_hash};

fn indexer(id: &str) -> Indexer {
    Indexer { id: id.to_string(), url: format!("http://{}", id) }
}

fn poi(id: &str, digest: &str) -> (String, String) {
    (id.to_string(), digest.to_string())
}

#[test]
fn groups_by_digest_and_marks_trusted_class() {
    let indexers = vec![indexer("t"), indexer("a"), indexer("b")];
    let pois = vec![poi("t", "0xaaa"), poi("a", "0xaaa"), poi("b", "0xbbb")];
    let groups = group_pois_by_hash(&indexers, &pois, &"t".to_string());

    assert_eq!(groups.len(), 2);
    assert_eq!(groups[0].poi, "0xaaa");
    assert!(groups[0].is_correct);
    assert_eq!(
        groups[0].indexers,
        vec![
            ("t".to_string(), "http://t".to_string()),
            ("a".to_string(), "http://a".to_string()),
        ]
    );
    assert_eq!(groups[1].poi, "0xbbb");
    assert!(!groups[1].is_correct);
    assert_eq!(groups[1].indexers, vec![("b".to_string(), "http://b".to_string())]);
}

#[test]
fn exactly_one_group_is_marked_correct() {
    let indexers = vec![indexer("t"), indexer("a"), indexer("b"), indexer("c")];
    let pois = vec![poi("a", "x"), poi("b", "y"), poi("t", "y"), poi("c", "z")];
    let groups = group_pois_by_hash(&indexers, &pois, &"t".to_string());
    let marked: Vec<&str> = groups
        .iter()
        .filter(|g| g.is_correct)
        .map(|g| g.poi.as_str())
        .collect();
    assert_eq!(marked, vec!["y"]);
}

#[test]
fn absent_trusted_marks_no_group() {
    let indexers = vec![indexer("t"), indexer("a"), indexer("b")];
    let pois = vec![poi("a", "x"), poi("b", "y")];
    let groups = group_pois_by_hash(&indexers, &pois, &"t".to_string());
    assert_eq!(groups.len(), 2);
    assert!(groups.iter().all(|g| !g.is_correct));
}

#[test]
fn groups_follow_first_occurrence_order() {
    let indexers = vec![indexer("a"), indexer("b"), indexer("c"), indexer("d")];
    let pois = vec![poi("a", "z"), poi("b", "m"), poi("c", "z"), poi("d", "a")];
    let groups = group_pois_by_hash(&indexers, &pois, &"a".to_string());
    let order: Vec<&str> = groups.iter().map(|g| g.poi.as_str()).collect();
    assert_eq!(order, vec!["z", "m", "a"]);
}

#[test]
fn empty_pois_make_no_groups() {
    let indexers = vec![indexer("t")];
    let groups = group_pois_by_hash(&indexers, &Vec::new(), &"t".to_string());
    assert!(groups.is_empty());
}

#[test]
fn long_hash_is_shortened_with_ellipsis() {
    let hash = "QmWmyoMoctfbAaiEs2G46gpeUmhqFRDW6KWo64y5r581Vz";
    assert_eq!(format_deployment_hash(hash), "QmWmyoMo...y5r581Vz");
}

#[test]
fn short_hash_is_unchanged() {
    assert_eq!(format_deployment_hash("Qm1234"), "Qm1234");
    assert_eq!(format_deployment_hash(""), "");
}

#[test]
fn sixteen_character_hash_is_unchanged() {
    assert_eq!(format_deployment_hash("0123456789abcdef"), "0123456789abcdef");
}

#[test]
fn seventeen_character_hash_is_shortened() {
    assert_eq!(format_deployment_hash("0123456789abcdefg"), "01234567...9abcdefg");
}
