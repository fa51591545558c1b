use guestbook::limiter::RateLimiter;

#[test]
fn burst_capacity_is_exhausted_then_replenished() {
    let mut limiter = RateLimiter::new(60, 3);
    let client = "10.0.0.1".to_owned();

    assert!(limiter.allow(&client, 100));
    assert!(limiter.allow(&client, 100));
    assert!(limiter.allow(&client, 100));
    assert!(!limiter.allow(&client, 100));

    // Less than one interval later: still empty.
    assert!(!limiter.allow(&client, 159));

    // One interval after the bucket was created: one token is back.
    assert!(limiter.allow(&client, 160));
    assert!(!limiter.allow(&client, 161));
}

#[test]
fn refill_is_capped_at_burst() {
    let mut limiter = RateLimiter::new(60, 3);
    let client = "10.0.0.1".to_owned();

    for _ in 0..3 {
        assert!(limiter.allow(&client, 100));
    }
    assert!(!limiter.allow(&client, 100));

    // A long idle period refills to the burst capacity, not beyond it.
    let much_later = 100 + 60 * 1_000;
    for _ in 0..3 {
        assert!(limiter.allow(&client, much_later));
    }
    assert!(!limiter.allow(&client, much_later));
}

#[test]
fn clients_hold_independent_buckets() {
    let mut limiter = RateLimiter::new(60, 2);
    let first = "10.0.0.1".to_owned();
    let second = "10.0.0.2".to_owned();

    assert!(limiter.allow(&first, 100));
    assert!(limiter.allow(&first, 100));
    assert!(!limiter.allow(&first, 100));

    assert!(limiter.allow(&second, 100));
    assert!(limiter.allow(&second, 100));
    assert!(!limiter.allow(&second, 100));

    // The second client's checks did not refill the first client's bucket.
    assert!(!limiter.allow(&first, 100));
}

#[test]
fn backwards_clock_grants_nothing() {
    let mut limiter = RateLimiter::new(60, 1);
    let client = "10.0.0.1".to_owned();

    assert!(limiter.allow(&client, 1_000));
    assert!(!limiter.allow(&client, 500));
    assert!(!limiter.allow(&client, 1_059));
    assert!(limiter.allow(&client, 1_060));
}

#[test]
fn zero_burst_refuses_every_client() {
    let mut limiter = RateLimiter::new(60, 0);
    let client = "10.0.0.1".to_owned();
    assert!(!limiter.allow(&client, 100));
    assert!(!limiter.allow(&client, 1_000_000));
}
