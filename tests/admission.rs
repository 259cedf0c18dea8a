use edge_proxy::RateLimiter;

#[test]
fn third_call_in_window_is_rejected() {
    let mut limiter = RateLimiter::new(2, 60);
    let results = vec![
        limiter.check_rate_limit("10.0.0.1:4000", 1000),
        limiter.check_rate_limit("10.0.0.1:4000", 1000),
        limiter.check_rate_limit("10.0.0.1:4000", 1001),
    ];
    assert_eq!(results, vec![true, true, false]);
}

#[test]
fn timestamp_exactly_window_old_has_expired() {
    let mut limiter = RateLimiter::new(1, 60);
    assert!(limiter.check_rate_limit("k", 100));
    assert!(!limiter.check_rate_limit("k", 159));
    assert!(limiter.check_rate_limit("k", 160));
}

#[test]
fn quiet_key_behaves_as_fresh() {
    let mut limiter = RateLimiter::new(2, 60);
    assert!(limiter.check_rate_limit("k", 0));
    assert!(limiter.check_rate_limit("k", 1));
    assert!(!limiter.check_rate_limit("k", 2));
    assert!(limiter.check_rate_limit("k", 200));
    assert!(limiter.check_rate_limit("k", 200));
    assert!(!limiter.check_rate_limit("k", 200));
}

#[test]
fn keys_do_not_interact() {
    let mut limiter = RateLimiter::new(1, 60);
    assert!(limiter.check_rate_limit("a", 10));
    assert!(limiter.check_rate_limit("b", 10));
    assert!(!limiter.check_rate_limit("a", 11));
    assert!(!limiter.check_rate_limit("b", 11));
}

#[test]
fn rejection_records_nothing() {
    let mut limiter = RateLimiter::new(1, 10);
    assert!(limiter.check_rate_limit("k", 0));
    assert!(!limiter.check_rate_limit("k", 5));
    assert!(!limiter.check_rate_limit("k", 9));
    assert!(limiter.check_rate_limit("k", 10));
}

#[test]
fn never_more_than_limit_in_any_window() {
    let mut limiter = RateLimiter::new(3, 5);
    let mut admitted: Vec<u64> = Vec::new();
    for t in 0..40u64 {
        for _ in 0..2 {
            if limiter.check_rate_limit("k", t) {
                admitted.push(t);
            }
        }
    }
    for s in 0..40u64 {
        let n = admitted.iter().filter(|&&t| t <= s && t + 5 > s).count();
        assert!(n <= 3);
    }
    assert!(!admitted.is_empty());
}

#[test]
fn limiter_keeps_its_settings() {
    let limiter = RateLimiter::new(7, 30);
    assert_eq!(limiter.max_requests(), 7);
    assert_eq!(limiter.window_seconds(), 30);
}
