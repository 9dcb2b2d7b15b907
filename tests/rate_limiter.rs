use hoip_net::rate_limiter::RateLimiter;

#[test]
fn bucket_starts_full() {
    let mut l = RateLimiter::new(2, 0);
    assert!(!l.limited(0));
    assert!(!l.limited(0));
    assert!(l.limited(0));
}

#[test]
fn bucket_refills_with_time() {
    let mut l = RateLimiter::new(2, 0);
    assert!(!l.limited(0));
    assert!(!l.limited(0));
    // half a second at 2 Hz is one token
    assert!(l.limited(499_999));
    assert!(!l.limited(500_000));
    assert!(l.limited(500_000));
}

#[test]
fn bucket_holds_at_most_rate() {
    let mut l = RateLimiter::new(3, 0);
    let admitted = (0..10).filter(|_| !l.limited(10_000_000)).count();
    assert_eq!(admitted, 3);
}

#[test]
fn admissions_in_a_window_are_bounded() {
    // rate 10 Hz over one second: at most 10 + 10
    let mut l = RateLimiter::new(10, 0);
    let mut admitted = 0;
    for ms in 0..=1000u64 {
        if !l.limited(ms * 1000) {
            admitted += 1;
        }
    }
    assert_eq!(admitted, 20);
}

#[test]
fn set_rate_keeps_tokens() {
    let mut l = RateLimiter::new(1, 0);
    l.set_rate(4);
    assert_eq!(l.rate(), 4);
    assert!(!l.limited(0));
    assert!(l.limited(0));
    assert!(!l.limited(250_000));
}

#[test]
fn zero_rate_never_admits() {
    let mut l = RateLimiter::new(0, 0);
    assert!(l.limited(0));
    assert!(l.limited(u64::MAX));
}
