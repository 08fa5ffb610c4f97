use create_woragis_api::rate_limiter::{rate_limiter, RateLimiter};
use create_woragis_api::response::ApiError;

#[test]
fn a_new_limiter_has_no_window_open() {
    let limiter = RateLimiter::new(5, 1_000);
    assert_eq!(limiter.max_requests(), 5);
    assert_eq!(limiter.window_nanos(), 1_000);
    assert_eq!(limiter.window_of("10.0.0.1"), None);
}

#[test]
fn the_template_limiter_admits_a_hundred_per_minute() {
    let limiter = rate_limiter();
    assert_eq!(limiter.max_requests(), 100);
    assert_eq!(limiter.window_nanos(), 60_000_000_000);
    assert_eq!(limiter.window_of("10.0.0.1"), None);
}

#[test]
fn requests_are_counted_within_a_window() {
    let mut limiter = RateLimiter::new(2, 10);
    assert!(limiter.is_allowed_at("10.0.0.1", 100));
    assert_eq!(limiter.window_of("10.0.0.1"), Some((1, 100)));
    assert!(limiter.is_allowed_at("10.0.0.1", 105));
    assert_eq!(limiter.window_of("10.0.0.1"), Some((2, 100)));
    assert!(!limiter.is_allowed_at("10.0.0.1", 109));
    assert_eq!(limiter.window_of("10.0.0.1"), Some((2, 100)));
}

#[test]
fn a_window_ends_only_after_its_full_length() {
    let mut limiter = RateLimiter::new(1, 10);
    assert!(limiter.is_allowed_at("a", 100));
    assert!(!limiter.is_allowed_at("a", 110));
    assert_eq!(limiter.window_of("a"), Some((1, 100)));
    assert!(limiter.is_allowed_at("a", 111));
    assert_eq!(limiter.window_of("a"), Some((1, 111)));
}

#[test]
fn clients_are_limited_apart() {
    let mut limiter = RateLimiter::new(1, 1_000);
    assert!(limiter.is_allowed_at("a", 0));
    assert!(limiter.is_allowed_at("b", 1));
    assert!(!limiter.is_allowed_at("a", 2));
    assert!(!limiter.is_allowed_at("b", 3));
    assert_eq!(limiter.window_of("a"), Some((1, 0)));
    assert_eq!(limiter.window_of("b"), Some((1, 1)));
    assert_eq!(limiter.window_of("c"), None);
}

#[test]
fn a_clock_that_reads_earlier_counts_as_no_time_passed() {
    let mut limiter = RateLimiter::new(2, 10);
    assert!(limiter.is_allowed_at("a", 100));
    assert!(limiter.is_allowed_at("a", 50));
    assert!(!limiter.is_allowed_at("a", 0));
    assert_eq!(limiter.window_of("a"), Some((2, 100)));
}

#[test]
fn a_limit_of_zero_admits_nothing_within_a_window() {
    let mut limiter = RateLimiter::new(0, 10);
    assert!(!limiter.is_allowed_at("a", 5));
    assert_eq!(limiter.window_of("a"), Some((0, 5)));
    assert!(!limiter.is_allowed_at("a", 15));
    assert!(limiter.is_allowed_at("a", 16));
    assert_eq!(limiter.window_of("a"), Some((1, 16)));
}

#[test]
fn is_allowed_reads_the_clock() {
    let mut limiter = RateLimiter::new(2, u128::MAX);
    assert!(limiter.is_allowed("127.0.0.1"));
    assert!(limiter.is_allowed("127.0.0.1"));
    assert!(!limiter.is_allowed("127.0.0.1"));
    assert!(limiter.is_allowed("127.0.0.2"));
    let (count, _) = limiter.window_of("127.0.0.1").unwrap();
    assert_eq!(count, 2);
}

#[test]
fn check_rate_limit_refuses_with_too_many_requests() {
    let mut limiter = RateLimiter::new(1, 1_000);
    assert!(limiter.check_rate_limit_at(Some("a"), 0).is_ok());
    let refused = limiter.check_rate_limit_at(Some("a"), 1);
    assert!(matches!(refused, Err(ApiError::TooManyRequests)));
    assert_eq!(refused.unwrap_err().status_code(), 429);
}

#[test]
fn a_request_without_peer_address_is_let_through() {
    let mut limiter = RateLimiter::new(0, 1_000);
    assert!(limiter.check_rate_limit_at(None, 0).is_ok());
    assert!(limiter.check_rate_limit(None).is_ok());
    assert_eq!(limiter.window_of(""), None);
}

#[test]
fn check_rate_limit_reads_the_clock() {
    let mut limiter = RateLimiter::new(1, u128::MAX);
    assert!(limiter.check_rate_limit(Some("a")).is_ok());
    assert!(matches!(limiter.check_rate_limit(Some("a")), Err(ApiError::TooManyRequests)));
}
