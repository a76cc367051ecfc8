use ciphermq::config::RateLimitConfig;
use ciphermq::heartbeat::HeartbeatMonitor;
use ciphermq::rate_limiter::{RateLimitResult, RateLimiter};

fn limiter(enabled: bool, per_ip: usize, per_cn: usize) -> RateLimiter {
    RateLimiter::new(&RateLimitConfig {
        enabled,
        max_connections_per_ip: per_ip,
        max_connections_per_cn: per_cn,
    })
}

#[test]
fn connections_are_counted_by_address_and_client() {
    let mut l = limiter(true, 2, 3);
    assert!(l.counts_fit("c", "i"));
    assert_eq!(l.check_connection("c", "i"), RateLimitResult::Allowed);
    assert_eq!(l.check_connection("d", "i"), RateLimitResult::Allowed);
    assert_eq!(l.check_connection("e", "i"), RateLimitResult::ConnectionLimit);
    assert_eq!(l.check_connection("c", "j"), RateLimitResult::Allowed);
    assert_eq!(l.check_connection("c", "k"), RateLimitResult::Allowed);
    assert_eq!(l.check_connection("c", "l"), RateLimitResult::ConnectionLimit);
    let (mut by_ip, mut by_cn) = l.connection_stats();
    by_ip.sort();
    by_cn.sort();
    let s = |t: &str| t.to_string();
    assert_eq!(by_ip, vec![(s("i"), 2), (s("j"), 1), (s("k"), 1)]);
    assert_eq!(by_cn, vec![(s("c"), 3), (s("d"), 1)]);
    l.release_connection("c", "j");
    l.release_connection("nobody", "nowhere");
    assert_eq!(l.check_connection("c", "l"), RateLimitResult::Allowed);
}

#[test]
fn zero_means_no_limit() {
    let mut l = limiter(true, 0, 0);
    for _ in 0..100 {
        assert_eq!(l.check_connection("c", "i"), RateLimitResult::Allowed);
    }
    for _ in 0..100 {
        l.release_connection("c", "i");
    }
    assert_eq!(l.connection_stats(), (vec![], vec![]));
}

#[test]
fn requests_need_their_tokens() {
    let l = limiter(true, 0, 0);
    assert_eq!(l.check(false, true, false), RateLimitResult::Allowed);
    assert_eq!(l.check(true, true, true), RateLimitResult::Allowed);
    assert_eq!(l.check(true, true, false), RateLimitResult::RateLimited);
    assert_eq!(l.check(false, false, true), RateLimitResult::RateLimited);
    assert_eq!(limiter(false, 0, 0).check(true, false, false), RateLimitResult::Allowed);
    assert!(RateLimitResult::Allowed.is_allowed());
    assert!(!RateLimitResult::RateLimited.is_allowed());
    assert!(!RateLimitResult::ConnectionLimit.is_allowed());
}

const SECOND: u128 = 1_000_000_000;

#[test]
fn clients_stay_alive_until_the_timeout() {
    let mut m = HeartbeatMonitor::new(60);
    m.record_heartbeat("a", 0);
    assert!(m.is_alive("a", 60 * SECOND - 1));
    assert!(!m.is_alive("a", 60 * SECOND));
    assert!(!m.is_alive("b", 0));
    m.record_heartbeat("a", 30 * SECOND);
    assert!(m.is_alive("a", 80 * SECOND));
    // A sign of life from the future is fresh.
    assert!(m.is_alive("a", 0));
    m.remove_client("a");
    assert!(!m.is_alive("a", 30 * SECOND));
}

#[test]
fn silent_clients_are_swept_away() {
    let mut m = HeartbeatMonitor::new(10);
    m.record_heartbeat("old", 0);
    m.record_heartbeat("edge", SECOND);
    m.record_heartbeat("new", 5 * SECOND);
    assert_eq!(m.get_stats(11 * SECOND), (3, 1));
    assert_eq!(m.sweep(11 * SECOND), vec!["old".to_string()]);
    assert_eq!(m.sweep(11 * SECOND), Vec::<String>::new());
    assert_eq!(m.get_stats(11 * SECOND), (2, 1));
    let mut gone = m.sweep(100 * SECOND);
    gone.sort();
    assert_eq!(gone, vec!["edge".to_string(), "new".to_string()]);
    assert_eq!(m.get_stats(0), (0, 0));
}

#[test]
fn a_timeout_of_zero_keeps_nobody() {
    let mut m = HeartbeatMonitor::new(0);
    m.record_heartbeat("a", 5);
    assert!(!m.is_alive("a", 5));
    assert!(m.sweep(5).is_empty());
    assert_eq!(m.sweep(6), vec!["a".to_string()]);
}
