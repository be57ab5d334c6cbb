use token_bucket::quota::Quota;
use token_bucket::token_bucket::TokenBucket;

#[test]
fn basic_token_bucket_test() {
    let mut bucket = TokenBucket::new(Quota::per_second(4), 0);
    assert_eq!(bucket.check_n(1, 0), Ok(()));
    assert_eq!(bucket.try_take_n(1, 0), Ok(()));
    assert_eq!(bucket.check_n(3, 0), Ok(()));
    assert_eq!(bucket.try_take_n(3, 0), Ok(()));
    assert!(bucket.check_n(1, 0).is_err());
    assert!(bucket.try_take_n(1, 0).is_err());
    // 500 ms later: ~2 units have regenerated.
    assert!(bucket.check_n(3, 500_000).is_err());
    assert!(bucket.try_take_n(3, 500_000).is_err());
    assert_eq!(bucket.check_n(1, 500_000), Ok(()));
    assert_eq!(bucket.try_take_n(1, 500_000), Ok(()));
    assert_eq!(bucket.check_n(1, 500_000), Ok(()));
    assert_eq!(bucket.try_take_n(1, 500_000), Ok(()));
    assert!(bucket.check_n(1, 500_000).is_err());
    assert!(bucket.try_take_n(1, 500_000).is_err());
    assert_eq!(bucket.check_n(0, 500_000), Ok(()));
    assert_eq!(bucket.try_take_n(0, 500_000), Ok(()));
    assert_eq!(bucket.check_n(0, 500_000), Ok(()));
    assert_eq!(bucket.try_take_n(0, 500_000), Ok(()));
}

#[test]
fn empty_test() {
    let mut bucket = TokenBucket::new(Quota::per_second(2), 0);
    assert_eq!(bucket.check_n(2, 0), Ok(()));
    assert_eq!(bucket.try_take_n(2, 0), Ok(()));
    assert_eq!(bucket.tokens, 0);
    assert!(bucket.check_n(1, 0).is_err());
}

#[test]
fn zero_always_succeeds_on_drained_bucket() {
    let mut bucket = TokenBucket::new(Quota::per_second(3), 0);
    assert_eq!(bucket.try_take_n(3, 0), Ok(()));
    assert_eq!(bucket.check_n(0, 0), Ok(()));
    assert_eq!(bucket.try_take_n(0, 123), Ok(()));
    assert_eq!(bucket.check_n(0, 456), Ok(()));
}

#[test]
fn failure_reports_exact_deadline() {
    let mut bucket = TokenBucket::new(Quota::per_second(4), 0);
    assert_eq!(bucket.try_take_n(4, 0), Ok(()));
    // Deficit of 1 unit at 250 ms per unit.
    assert_eq!(bucket.try_take_n(1, 0), Err(250_000));
    // Deficit of 3 units, counted from the refreshed clock.
    assert_eq!(bucket.try_take_n(3, 0), Err(750_000));
    // The read-only check reports the same instant without refreshing.
    assert_eq!(bucket.check_n(1, 0), Err(250_000));
}

#[test]
fn refill_in_exact_intervals() {
    let mut bucket = TokenBucket::new(Quota::per_second(4), 0);
    assert_eq!(bucket.try_take_n(4, 0), Ok(()));
    // Exactly 3 replenish intervals later, 3 units are back.
    assert_eq!(bucket.try_take_n(0, 750_000), Ok(()));
    assert_eq!(bucket.tokens, 3);
    // Far in the future the count is capped at the burst size.
    assert_eq!(bucket.try_take_n(0, 3_600_000_000), Ok(()));
    assert_eq!(bucket.tokens, 4);
}

#[test]
fn drain_then_one_interval_round_trip() {
    let mut bucket = TokenBucket::new(Quota::per_second(4), 0);
    assert_eq!(bucket.try_take_n(1, 0), Ok(()));
    assert_eq!(bucket.try_take_n(2, 0), Ok(()));
    assert_eq!(bucket.try_take_n(1, 0), Ok(()));
    // The whole burst is gone: one unit is not available...
    assert_eq!(bucket.check_n(1, 0), Err(250_000));
    assert!(bucket.check_n(1, 249_999).is_err());
    // ... until exactly one replenish interval has passed.
    assert_eq!(bucket.check_n(1, 250_000), Ok(()));
}
