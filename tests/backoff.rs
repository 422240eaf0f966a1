use distribuida::exponential_backoff::RetryDecision;
use distribuida::ExponentialBackoff;

#[test]
fn default_backoff_doubles_from_one_second() {
    let mut b = ExponentialBackoff::default();
    assert_eq!(b.next(), 1000);
    assert_eq!(b.next(), 2000);
    assert_eq!(b.next(), 4000);
    assert_eq!(b.next(), 8000);
}

#[test]
fn backoff_follows_its_parameters() {
    let mut b = ExponentialBackoff::new(250, 3);
    assert_eq!(b.next(), 250);
    assert_eq!(b.next(), 750);
    assert_eq!(b.next(), 2250);
}

#[test]
fn backoff_with_factor_zero_stays_at_zero() {
    let mut b = ExponentialBackoff::new(500, 0);
    assert_eq!(b.next(), 500);
    assert_eq!(b.next(), 0);
    assert_eq!(b.next(), 0);
}

#[test]
fn backoff_with_zero_initial_wait_never_waits() {
    let mut b = ExponentialBackoff::new(0, 2);
    assert_eq!(b.next(), 0);
    assert_eq!(b.next(), 0);
}

#[test]
fn backoff_saturates_instead_of_overflowing() {
    let mut b = ExponentialBackoff::new(u64::MAX / 2 + 1, 2);
    assert_eq!(b.next(), u64::MAX / 2 + 1);
    assert_eq!(b.next(), u64::MAX);
    assert_eq!(b.next(), u64::MAX);
}

#[test]
fn two_refusals_then_success_waits_initial_plus_initial_times_factor() {
    let mut b = ExponentialBackoff::default();
    let mut slept: u64 = 0;
    for outcome in [false, false, true] {
        match b.decide_retry(outcome) {
            RetryDecision::RetryAfter(ms) => slept += ms,
            RetryDecision::Finished => break,
        }
    }
    assert!(slept >= 1000 + 1000 * 2);
    assert_eq!(slept, 3000);
}

#[test]
fn success_at_first_attempt_finishes_without_waiting() {
    let mut b = ExponentialBackoff::new(10, 2);
    assert_eq!(b.decide_retry(true), RetryDecision::Finished);
    assert_eq!(b.decide_retry(false), RetryDecision::RetryAfter(10));
    assert_eq!(b.decide_retry(false), RetryDecision::RetryAfter(20));
}
