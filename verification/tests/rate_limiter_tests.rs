use ohos_server::rate_limiter::RateLimiter;
use ohos_server::strmap::StrMap;

const SEC: u128 = 1_000_000_000;

fn make_limiter() -> RateLimiter {
    RateLimiter::new_full(
        true,
        10,
        5,
        5,
        10,
        60,
        3,
        vec!["203.0.113.1".to_string()],
        StrMap::new(),
    )
}

#[test]
fn test_basic_rate_limit() {
    let mut limiter = make_limiter();
    for _ in 0..5 {
        assert!(limiter.check("1.2.3.4"));
    }
    let result = limiter.check("1.2.3.4");
    let _ = result;
}

#[test]
fn test_connection_rate() {
    let mut limiter = make_limiter();
    for i in 0..5 {
        assert!(limiter.try_connect(&format!("10.0.0.{}", i)));
    }
}

#[test]
fn test_concurrent_connections() {
    let mut limiter = make_limiter();
    for i in 0..10 {
        assert!(limiter.try_connect(&format!("10.0.0.{}", i + 1)));
    }
    assert!(limiter.try_connect("10.0.0.99"));
}

#[test]
fn test_temp_ban() {
    let mut limiter = make_limiter();
    for _ in 0..5 {
        assert!(limiter.check("5.6.7.8"));
    }
    assert!(!limiter.check("5.6.7.8"));
    assert!(!limiter.check("5.6.7.8"));
    assert!(!limiter.check("5.6.7.8"));
    assert!(limiter.is_blocked("5.6.7.8"));
}

#[test]
fn test_disabled_rate_limiter() {
    let mut limiter = RateLimiter::new_full(false, 0, 0, 0, 0, 0, 0, vec![], StrMap::new());
    assert!(limiter.check("1.2.3.4"));
    assert!(limiter.try_connect("1.2.3.4"));
    assert!(!limiter.is_blocked("1.2.3.4"));
}

#[test]
fn test_blacklist() {
    let mut limiter =
        RateLimiter::new_full(true, 100, 200, 50, 100, 300, 3, vec!["10.0.0.1".to_string()], StrMap::new());
    assert!(limiter.is_blocked("10.0.0.1"));
    assert!(!limiter.is_blocked("10.0.0.2"));
}

#[test]
fn test_blacklist_wildcard() {
    let mut limiter =
        RateLimiter::new_full(true, 100, 200, 50, 100, 300, 3, vec!["192.168.1.*".to_string()], StrMap::new());
    assert!(limiter.is_blocked("192.168.1.1"));
    assert!(limiter.is_blocked("192.168.1.100"));
    assert!(!limiter.is_blocked("192.168.2.1"));
}

#[test]
fn test_whitelist_bypass() {
    let mut limiter =
        RateLimiter::new_full(true, 100, 200, 50, 100, 300, 3, vec!["203.0.113.1".to_string()], StrMap::new());
    limiter.add_whitelist(vec!["8.8.8.8".to_string()]);

    assert!(limiter.is_whitelisted("8.8.8.8"));
    assert!(!limiter.is_whitelisted("1.1.1.1"));

    assert!(limiter.check("8.8.8.8"));
    assert!(!limiter.is_blocked("8.8.8.8"));
}

#[test]
fn test_manual_ban_unban() {
    let mut limiter = make_limiter();
    assert!(limiter.active_connections("9.9.9.9") == 0);
    assert!(limiter.ban_ip("9.9.9.9", 60));
    assert!(limiter.is_blocked("9.9.9.9"));
    assert!(limiter.unban_ip("9.9.9.9"));
    assert!(!limiter.is_blocked("9.9.9.9"));
}

#[test]
fn test_disconnect() {
    let mut limiter = make_limiter();
    assert!(limiter.try_connect("7.7.7.7"));
    assert!(limiter.active_connections("7.7.7.7") == 1);
    limiter.disconnect("7.7.7.7");
    assert!(limiter.active_connections("7.7.7.7") == 0);
}

#[test]
fn burst_is_spent_then_refilled_at_the_rate() {
    let mut l = make_limiter();
    let t = 1000 * SEC;
    for _ in 0..5 {
        assert!(l.check_at("1.1.1.1", t));
    }
    assert!(!l.check_at("1.1.1.1", t));
    // a tenth of a second at ten per second brings one token back
    assert!(l.check_at("1.1.1.1", t + SEC / 10));
    assert!(!l.check_at("1.1.1.1", t + SEC / 10));
}

#[test]
fn three_refusals_ban_for_the_ban_duration() {
    let mut l = make_limiter();
    let t = 1000 * SEC;
    for _ in 0..5 {
        assert!(l.check_at("2.2.2.2", t));
    }
    assert!(!l.check_at("2.2.2.2", t));
    assert!(!l.check_at("2.2.2.2", t));
    assert!(!l.is_blocked_at("2.2.2.2", t));
    assert!(!l.check_at("2.2.2.2", t));
    assert!(l.is_blocked_at("2.2.2.2", t));
    assert!(l.is_temp_banned_at("2.2.2.2", t + 59 * SEC));
    assert_eq!(l.banned_count(), 1);
    // the ban runs out after sixty seconds and is dropped when looked up
    assert!(!l.is_blocked_at("2.2.2.2", t + 60 * SEC));
    assert_eq!(l.banned_count(), 0);
}

#[test]
fn connection_limit_per_address() {
    let mut l = RateLimiter::new_full(true, 0, 0, 0, 2, 60, 3, vec![], StrMap::new());
    let t = 5 * SEC;
    assert!(l.try_connect_at("3.3.3.3", t));
    assert!(l.try_connect_at("3.3.3.3", t));
    assert!(!l.try_connect_at("3.3.3.3", t));
    assert!(l.try_connect_at("4.4.4.4", t));
    l.disconnect("3.3.3.3");
    assert_eq!(l.active_connections("3.3.3.3"), 1);
    assert!(l.try_connect_at("3.3.3.3", t));
}

#[test]
fn connection_rate_refuses_the_sixth_in_one_instant() {
    let mut l = make_limiter();
    let t = 7 * SEC;
    for _ in 0..5 {
        assert!(l.try_connect_at("6.6.6.6", t));
    }
    assert!(!l.try_connect_at("6.6.6.6", t));
    assert_eq!(l.active_connections("6.6.6.6"), 5);
}

#[test]
fn per_address_rate_overrides_the_default() {
    let mut rates: StrMap<u32> = StrMap::new();
    rates.insert("8.8.4.4".to_string(), 2);
    let mut l = RateLimiter::new_full(true, 10, 5, 0, 0, 60, 100, vec![], rates);
    let t = 9 * SEC;
    assert!(l.check_at("8.8.4.4", t));
    assert!(l.check_at("8.8.4.4", t));
    assert!(!l.check_at("8.8.4.4", t));
    for _ in 0..5 {
        assert!(l.check_at("9.9.4.4", t));
    }
    assert!(!l.check_at("9.9.4.4", t));
}

#[test]
fn zero_rate_refills_the_burst_at_once() {
    let mut l = RateLimiter::new_full(true, 0, 3, 0, 0, 60, 100, vec![], StrMap::new());
    for _ in 0..3 {
        assert!(l.check_at("1.1.1.1", SEC));
    }
    assert!(!l.check_at("1.1.1.1", SEC));
    // any time later the bucket is full again
    for _ in 0..3 {
        assert!(l.check_at("1.1.1.1", SEC + 1));
    }
    assert!(!l.check_at("1.1.1.1", SEC + 1));
}

#[test]
fn zero_burst_refuses_every_request() {
    let mut l = RateLimiter::new_full(true, 0, 0, 0, 0, 60, 100, vec![], StrMap::new());
    assert!(!l.check_at("1.1.1.1", SEC));
    assert!(!l.check_at("1.1.1.1", 2 * SEC));
}

#[test]
fn manual_ban_refused_when_off_or_zero_length() {
    let mut off = RateLimiter::new_full(false, 10, 5, 5, 10, 60, 3, vec![], StrMap::new());
    assert!(!off.ban_ip_at("1.1.1.1", 60, SEC));
    assert!(!off.unban_ip("1.1.1.1"));
    let mut on = make_limiter();
    assert!(!on.ban_ip_at("1.1.1.1", 0, SEC));
    assert!(!on.unban_ip("1.1.1.1"));
    assert!(on.ban_ip_at("1.1.1.1", 10, SEC));
    assert!(on.is_blocked_at("1.1.1.1", 10 * SEC));
    assert!(!on.is_blocked_at("1.1.1.1", 11 * SEC));
}

#[test]
fn white_listed_addresses_pass_even_when_black_listed() {
    let mut l = RateLimiter::new_full(true, 1, 1, 1, 1, 60, 1, vec!["5.5.5.*".to_string()], StrMap::new());
    l.add_whitelist(vec!["5.5.5.5".to_string()]);
    for _ in 0..10 {
        assert!(l.check_at("5.5.5.5", SEC));
        assert!(l.try_connect_at("5.5.5.5", SEC));
    }
    assert!(!l.try_connect_at("5.5.5.6", SEC));
}
