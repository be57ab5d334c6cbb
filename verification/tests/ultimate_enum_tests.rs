use token_bucket::quotas::Quotas;
use token_bucket::token_multi_ultimate_enum::QuotasTrait;
use token_bucket::token_multi_ultimate_enum::TokenBucketUltimate;

fn ultimate() -> TokenBucketUltimate<Quotas> {
    TokenBucketUltimate::new(0)
}

#[test]
fn token_multi_ultimate_enum_test_check() {
    let ultimate = ultimate();
    assert_eq!(ultimate.check_n(&[(Quotas::Ten, 5), (Quotas::Twenty, 10)], 0), Ok(()));
    assert!(ultimate.check_n(&[(Quotas::Ten, 5), (Quotas::Twenty, 30)], 0).is_err());
    assert!(ultimate.check_n(&[(Quotas::Ten, 15), (Quotas::Twenty, 10)], 0).is_err());
    assert_eq!(ultimate.check_n(&[(Quotas::Ten, 5)], 0), Ok(()));
    assert_eq!(ultimate.check_n(&[], 0), Ok(()));
}

#[test]
fn token_multi_ultimate_enum_test_take_sync() {
    let mut ultimate = ultimate();
    assert_eq!(ultimate.try_take_n(&[(Quotas::Ten, 5), (Quotas::Twenty, 10)], 0), Ok(()));
    assert_eq!(ultimate.try_take_n(&[(Quotas::Ten, 5)], 0), Ok(()));
    assert!(ultimate.try_take_n(&[(Quotas::Ten, 5)], 0).is_err());
    assert_eq!(ultimate.try_take_n(&[(Quotas::Twenty, 10)], 0), Ok(()));
    assert!(ultimate.try_take_n(&[(Quotas::Twenty, 5)], 0).is_err());
    // One second later both buckets are full again.
    assert_eq!(
        ultimate.try_take_n(&[(Quotas::Ten, 10), (Quotas::Twenty, 20)], 1_000_000),
        Ok(()),
    );
}

#[test]
fn every_key_is_registered_at_construction() {
    let ultimate = ultimate();
    assert_eq!(ultimate.buckets.len(), 2);
    assert_eq!(ultimate.buckets[0].quota.max_burst, 10);
    assert_eq!(ultimate.buckets[1].quota.max_burst, 20);
    assert_eq!(Quotas::Ten.get_quota().max_burst, 10);
    assert_eq!(Quotas::Twenty.get_quota().replenish_interval(), 50_000);
}

#[test]
fn enum_failed_take_leaves_all_keys_untouched() {
    let mut ultimate = ultimate();
    // The first pair is fine, the second falls short: nothing changes.
    assert!(ultimate.try_take_n(&[(Quotas::Ten, 5), (Quotas::Twenty, 30)], 0).is_err());
    assert_eq!(ultimate.buckets[0].tokens, 10);
    assert_eq!(ultimate.buckets[1].tokens, 20);
    assert_eq!(ultimate.buckets[0].last_update, 0);
    assert_eq!(ultimate.buckets[1].last_update, 0);
}

#[test]
fn enum_satisfiable_rejects_over_burst_requests() {
    let ultimate = ultimate();
    assert!(ultimate.satisfiable(&[(Quotas::Ten, 10), (Quotas::Twenty, 20)]));
    assert!(!ultimate.satisfiable(&[(Quotas::Twenty, 21)]));
}

#[test]
fn enum_take_attempt_reports_jittered_wake_up() {
    let mut ultimate = ultimate();
    assert_eq!(ultimate.try_take_n(&[(Quotas::Twenty, 20)], 0), Ok(()));
    // A deficit of 10 units at 50 ms per unit: the deadline is 500 ms, and
    // the wake-up instant adds less than 10 ms of jitter to it.
    let wake = ultimate.take_n_attempt(&[(Quotas::Twenty, 10)], 0).unwrap_err();
    assert!(wake >= 500_000);
    assert!(wake < 510_000);
}
