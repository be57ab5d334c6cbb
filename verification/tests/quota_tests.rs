use token_bucket::quota::Quota;

#[test]
fn time_multiples() {
    let hourly = Quota::per_hour(1);
    let minutely = Quota::per_minute(1);
    let secondly = Quota::per_second(1);

    assert_eq!(hourly.replenish_interval() / 60, minutely.replenish_interval());
    assert_eq!(minutely.replenish_interval() / 60, secondly.replenish_interval());
}

#[test]
fn per_second_interval_formula() {
    assert_eq!(Quota::per_second(4).replenish_interval(), 250_000);
    assert_eq!(Quota::per_second(4).burst_size(), 4);
    assert_eq!(Quota::per_minute(60).replenish_interval(), 1_000_000);
    assert_eq!(Quota::per_hour(3600).replenish_interval(), 1_000_000);
    // Truncating division: 7 units per second is not exact in microseconds.
    assert_eq!(Quota::per_second(7).replenish_interval(), 142_857);
}

#[test]
fn burst_replenish_time_formula() {
    assert_eq!(Quota::per_second(4).burst_size_replenished_in(), 1_000_000);
    assert_eq!(Quota::per_minute(60).burst_size_replenished_in(), 60_000_000);
}

#[test]
fn with_period_zero_is_rejected() {
    assert_eq!(Quota::with_period(0), None);
    let q = Quota::with_period(5).unwrap();
    assert_eq!(q.burst_size(), 1);
    assert_eq!(q.replenish_interval(), 5);
}

#[test]
fn allow_burst_keeps_interval() {
    let q = Quota::with_period(5).unwrap().allow_burst(7);
    assert_eq!(q.burst_size(), 7);
    assert_eq!(q.replenish_interval(), 5);
}
