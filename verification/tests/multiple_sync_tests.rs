use token_bucket::quota::Quota;
use token_bucket::token_bucket_multiple_sync::TokenBucketMultipleSync;

#[test]
fn test_new() {
    let bucket = TokenBucketMultipleSync::<2>::new(
        [Quota::per_second(4), Quota::per_second(2)],
        0,
    );
    assert_eq!(bucket.buckets.len(), 2);
}

#[test]
fn test_check_ns_ok() {
    let bucket = TokenBucketMultipleSync::<2>::new(
        [Quota::per_second(4), Quota::per_second(2)],
        0,
    );
    assert_eq!(bucket.check_ns([1, 1], 0), Ok(()));
}

#[test]
fn test_check_ns_err() {
    let bucket = TokenBucketMultipleSync::<2>::new(
        [Quota::per_second(4), Quota::per_second(2)],
        0,
    );
    assert!(bucket.check_ns([5, 3], 0).is_err());
}

#[test]
fn test_try_take_ns_ok() {
    let mut bucket = TokenBucketMultipleSync::<2>::new(
        [Quota::per_second(4), Quota::per_second(2)],
        0,
    );
    assert_eq!(bucket.try_take_ns([1, 1], 0), Ok(()));
}

#[test]
fn test_try_take_ns_err() {
    let mut bucket = TokenBucketMultipleSync::<2>::new(
        [Quota::per_second(4), Quota::per_second(2)],
        0,
    );
    assert!(bucket.try_take_ns([5, 3], 0).is_err());
}

#[test]
fn test_try_take_ns_multiple_buckets() {
    let mut bucket = TokenBucketMultipleSync::<2>::new(
        [Quota::per_second(4), Quota::per_second(2)],
        0,
    );
    assert_eq!(bucket.try_take_ns([1, 1], 0), Ok(()));
    assert_eq!(bucket.try_take_ns([1, 1], 0), Ok(()));
    assert!(bucket.try_take_ns([1, 1], 0).is_err());
}

#[test]
fn test_try_take_ns_multiple_buckets_concurrent() {
    let mut bucket = TokenBucketMultipleSync::<2>::new(
        [Quota::per_second(4), Quota::per_second(3)],
        0,
    );
    assert_eq!(bucket.try_take_ns([3, 1], 0), Ok(()));
    assert!(bucket.try_take_ns([2, 1], 0).is_err());
    assert_eq!(bucket.try_take_ns([1, 1], 0), Ok(()));
    assert!(bucket.try_take_ns([1, 0], 0).is_err());
}

#[test]
fn failed_take_leaves_store_untouched() {
    // Key A has quota 4 per second, key B has 2 per second; requesting
    // (5, 3) must fail and leave both token counts exactly as before.
    let mut store = TokenBucketMultipleSync::<2>::new(
        [Quota::per_second(4), Quota::per_second(2)],
        0,
    );
    assert_eq!(store.buckets[0].tokens, 4);
    assert_eq!(store.buckets[1].tokens, 2);
    assert!(store.try_take_ns([5, 3], 7_000).is_err());
    assert_eq!(store.buckets[0].tokens, 4);
    assert_eq!(store.buckets[1].tokens, 2);
    // Even the refill clocks are untouched by the discarded working copy.
    assert_eq!(store.buckets[0].last_update, 0);
    assert_eq!(store.buckets[1].last_update, 0);
}

#[test]
fn first_failing_deadline_is_surfaced() {
    let mut store = TokenBucketMultipleSync::<2>::new(
        [Quota::per_second(4), Quota::per_second(2)],
        0,
    );
    // Both buckets fall short; the first bucket's deadline wins: requesting
    // 5 of its 4 leaves a deficit of 1 unit at 250 ms per unit.
    assert_eq!(store.try_take_ns([5, 3], 0), Err(250_000));
    // Only the second falls short: deficit 1 at 500 ms per unit.
    assert_eq!(store.try_take_ns([1, 3], 0), Err(500_000));
}
