use poi_agent::retry::{RetryDecision, RetryState, BASE_DELAY_MS};

/// Drive one fetch's retry loop: `results[k]` says whether attempt `k + 1`
/// succeeds. Returns (attempts made, sleeps taken, succeeded).
fn run_retries(max_retries: u32, results: &[bool]) -> (u32, Vec<u64>, bool) {
    let mut rs = RetryState::new(max_retries);
    let mut attempts = 0u32;
    let mut sleeps: Vec<u64> = Vec::new();
    while rs.may_attempt() {
        let outcome = results[attempts as usize];
        attempts += 1;
        if outcome {
            return (attempts, sleeps, true);
        }
        match rs.on_failure() {
            RetryDecision::Retry { delay_ms } => sleeps.push(delay_ms),
            RetryDecision::GiveUp => break,
        }
    }
    (attempts, sleeps, false)
}

#[test]
fn base_delay_is_half_a_second() {
    assert_eq!(BASE_DELAY_MS, 500);
}

#[test]
fn three_failures_make_three_attempts_with_linear_backoff() {
    let (attempts, sleeps, ok) = run_retries(3, &[false, false, false]);
    assert_eq!(attempts, 3);
    assert_eq!(sleeps, vec![500, 1000]);
    assert!(!ok);
}

#[test]
fn success_on_first_attempt_sleeps_never() {
    let (attempts, sleeps, ok) = run_retries(3, &[true]);
    assert_eq!(attempts, 1);
    assert!(sleeps.is_empty());
    assert!(ok);
}

#[test]
fn success_on_second_attempt_sleeps_once() {
    let (attempts, sleeps, ok) = run_retries(3, &[false, true]);
    assert_eq!(attempts, 2);
    assert_eq!(sleeps, vec![500]);
    assert!(ok);
}

#[test]
fn single_retry_budget_never_sleeps() {
    let (attempts, sleeps, ok) = run_retries(1, &[false]);
    assert_eq!(attempts, 1);
    assert!(sleeps.is_empty());
    assert!(!ok);
}

#[test]
fn zero_budget_makes_no_attempt() {
    let (attempts, sleeps, ok) = run_retries(0, &[]);
    assert_eq!(attempts, 0);
    assert!(sleeps.is_empty());
    assert!(!ok);
}

#[test]
fn five_failures_back_off_linearly() {
    let (attempts, sleeps, _) = run_retries(5, &[false; 5]);
    assert_eq!(attempts, 5);
    assert_eq!(sleeps, vec![500, 1000, 1500, 2000]);
}
