use poi_agent::errors::FatalError;
use poi_agent::search::SearchState;

/// Drive one search run, answering every probe with `f`.
fn run_search_with<F: Fn(u32) -> bool>(low: u32, high: u32, f: F) -> (Option<u32>, u32) {
    let mut st = SearchState::start(low, high).unwrap();
    let mut probes = 0u32;
    while st.is_active() {
        let mid = st.next_probe().unwrap();
        probes += 1;
        st.step(f(mid));
    }
    (st.result(), probes)
}

#[test]
fn rejects_inverted_range() {
    let r = SearchState::start(21, 20);
    assert_eq!(r.unwrap_err(), FatalError::InvalidRange);
}

#[test]
fn accepts_valid_range() {
    let st = SearchState::start(10, 20).unwrap();
    assert!(st.is_active());
    assert_eq!(st.next_probe(), Some(15));
    assert_eq!(st.result(), None);
}

#[test]
fn single_point_range_probes_once() {
    let (found, probes) = run_search_with(5, 5, |_| false);
    assert_eq!(found, None);
    assert_eq!(probes, 1);

    let (found, probes) = run_search_with(5, 5, |_| true);
    assert_eq!(found, Some(5));
    assert_eq!(probes, 1);
}

#[test]
fn finds_first_divergent_block() {
    let (found, _) = run_search_with(10, 20, |b| b >= 15);
    assert_eq!(found, Some(15));
}

#[test]
fn no_divergence_returns_none() {
    let (found, probes) = run_search_with(10, 20, |_| false);
    assert_eq!(found, None);
    assert!(probes <= 4); // log2(11) rounded up
}

#[test]
fn divergence_everywhere_returns_low() {
    let (found, _) = run_search_with(10, 20, |_| true);
    assert_eq!(found, Some(10));
}

#[test]
fn finds_divergence_in_large_range() {
    let (found, probes) = run_search_with(0, 100, |b| b >= 37);
    assert_eq!(found, Some(37));
    assert!(probes <= 7); // log2(101) rounded up
}

#[test]
fn divergence_at_block_zero() {
    let (found, _) = run_search_with(0, 8, |_| true);
    assert_eq!(found, Some(0));
}

#[test]
fn divergence_at_range_end() {
    let (found, _) = run_search_with(0, 8, |b| b >= 8);
    assert_eq!(found, Some(8));
}

#[test]
fn full_width_range_terminates() {
    let (found, probes) = run_search_with(0, u32::MAX, |b| b >= 3_000_000_000);
    assert_eq!(found, Some(3_000_000_000));
    assert!(probes <= 33);
}

#[test]
fn every_small_range_and_threshold_finds_the_first() {
    // Exhaustively: over every range within [0, 24] and every monotonic
    // divergence oracle (true from a threshold on), the search returns the
    // smallest in-range block where the oracle is true, or nothing.
    for low in 0u32..25 {
        for high in low..25 {
            for threshold in 0u32..27 {
                let (found, _) = run_search_with(low, high, |b| b >= threshold);
                let expected = if threshold <= high {
                    Some(threshold.max(low))
                } else {
                    None
                };
                assert_eq!(found, expected, "range [{low}, {high}], threshold {threshold}");
            }
        }
    }
}

#[test]
fn probe_count_is_logarithmic() {
    let (found, probes) = run_search_with(10, 20, |b| b >= 15);
    assert_eq!(found, Some(15));
    assert!(probes <= 4);
}
