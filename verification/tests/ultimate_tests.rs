use token_bucket::quota::Quota;
use token_bucket::token_multi_ultimate::TokenBucketUltimate;

fn ultimate() -> TokenBucketUltimate {
    let mut ultimate = TokenBucketUltimate::new();
    ultimate.insert("a".to_string(), Quota::per_second(10), 0);
    ultimate.insert("b".to_string(), Quota::per_second(20), 0);
    ultimate
}

#[test]
fn token_multi_ultimate_test_check() {
    let ultimate = ultimate();
    assert_eq!(ultimate.check_n(&[("a", 5), ("b", 10)], 0), Ok(()));
    assert!(ultimate.check_n(&[("a", 5), ("b", 30)], 0).is_err());
    assert!(ultimate.check_n(&[("a", 15), ("b", 10)], 0).is_err());
    assert_eq!(ultimate.check_n(&[("a", 5)], 0), Ok(()));
    assert_eq!(ultimate.check_n(&[], 0), Ok(()));
}

#[test]
fn token_multi_ultimate_test_take_sync() {
    let mut ultimate = ultimate();
    assert_eq!(ultimate.try_take_n(&[("a", 5), ("b", 10)], 0), Ok(()));
    assert_eq!(ultimate.try_take_n(&[("a", 5)], 0), Ok(()));
    assert!(ultimate.try_take_n(&[("a", 5)], 0).is_err());
    assert_eq!(ultimate.try_take_n(&[("b", 10)], 0), Ok(()));
    assert!(ultimate.try_take_n(&[("b", 5)], 0).is_err());
    // One second later both buckets are full again.
    assert_eq!(ultimate.try_take_n(&[("a", 10), ("b", 20)], 1_000_000), Ok(()));
}

#[test]
fn failed_take_leaves_all_keys_untouched() {
    let mut ultimate = TokenBucketUltimate::new();
    ultimate.insert("a".to_string(), Quota::per_second(4), 0);
    ultimate.insert("b".to_string(), Quota::per_second(2), 0);
    assert!(ultimate.try_take_n(&[("a", 5), ("b", 3)], 0).is_err());
    assert_eq!(ultimate.entries[0].1.tokens, 4);
    assert_eq!(ultimate.entries[1].1.tokens, 2);
    assert_eq!(ultimate.entries[0].1.last_update, 0);
    assert_eq!(ultimate.entries[1].1.last_update, 0);
}

#[test]
fn take_touches_only_requested_keys() {
    let mut ultimate = ultimate();
    assert_eq!(ultimate.try_take_n(&[("b", 20)], 0), Ok(()));
    // Key "a" still holds its full burst; key "b" is drained.
    assert_eq!(ultimate.check_n(&[("a", 10)], 0), Ok(()));
    assert!(ultimate.check_n(&[("b", 1)], 0).is_err());
}

#[test]
fn insert_again_replaces_the_bucket() {
    let mut ultimate = TokenBucketUltimate::new();
    ultimate.insert("a".to_string(), Quota::per_second(10), 0);
    ultimate.insert("a".to_string(), Quota::per_second(4), 0);
    assert_eq!(ultimate.entries.len(), 1);
    assert_eq!(ultimate.entries[0].1.quota.max_burst, 4);
    assert!(ultimate.check_n(&[("a", 5)], 0).is_err());
}

#[test]
fn satisfiable_rejects_over_burst_requests() {
    let ultimate = ultimate();
    assert!(ultimate.satisfiable(&[("a", 10), ("b", 20)]));
    assert!(!ultimate.satisfiable(&[("a", 11)]));
}

#[test]
fn take_attempt_reports_jittered_wake_up() {
    let mut ultimate = ultimate();
    assert_eq!(ultimate.try_take_n(&[("b", 20)], 0), Ok(()));
    // A deficit of 10 units at 50 ms per unit: the deadline is 500 ms, and
    // the wake-up instant adds less than 10 ms of jitter to it.
    let wake = ultimate.take_n_attempt(&[("b", 10)], 0).unwrap_err();
    assert!(wake >= 500_000);
    assert!(wake < 510_000);
}
