use voice_relay::security::check_ws_origin;
use voice_relay::security::validate_id;
use voice_relay::security::validate_token;
use voice_relay::security::DosDetector;
use voice_relay::security::RateLimiter;

#[test]
fn test_rate_limiter() {
    let mut limiter = RateLimiter::new(2, 1000);
    assert!(limiter.check("user1", 0));
    assert!(limiter.check("user1", 0));
    assert!(!limiter.check("user1", 0));
}

#[test]
fn test_validate_id() {
    assert!(validate_id("abc-123").is_ok());
    assert!(validate_id("bad id!").is_err());
}

#[test]
fn test_validate_token() {
    assert!(validate_token("goodtoken123").is_ok());
    assert!(validate_token("bad token!").is_err());
}

#[test]
fn test_dos_detector() {
    let mut dos = DosDetector::new(2, 1000);
    assert!(!dos.check("ip1", 0));
    assert!(!dos.check("ip1", 0));
    assert!(dos.check("ip1", 0));
}

#[test]
fn rate_limiter_window_begins_anew() {
    let mut limiter = RateLimiter::new(1, 1000);
    assert!(limiter.check("k", 10));
    assert!(!limiter.check("k", 1010));
    assert!(limiter.check("k", 1011));
    assert_eq!(limiter.counts.len(), 1);
    assert_eq!(limiter.counts[0].count, 1);
    assert_eq!(limiter.counts[0].window_start, 1011);
    assert!(!limiter.check("k", 1011));
}

#[test]
fn rate_limiter_counts_keys_apart() {
    let mut limiter = RateLimiter::new(1, 1000);
    assert!(limiter.check("a", 0));
    assert!(limiter.check("b", 0));
    assert!(!limiter.check("a", 1));
    assert!(!limiter.check("b", 1));
    assert_eq!(limiter.counts.len(), 2);
    assert_eq!(limiter.counts[0].key, "a");
    assert_eq!(limiter.counts[1].key, "b");
}

#[test]
fn rate_limiter_without_allowance_notes_the_key() {
    let mut limiter = RateLimiter::new(0, 1000);
    assert!(!limiter.check("k", 5));
    assert_eq!(limiter.counts.len(), 1);
    assert_eq!(limiter.counts[0].count, 0);
    assert_eq!(limiter.counts[0].window_start, 5);
    assert!(limiter.check("k", 1006));
    assert_eq!(limiter.counts[0].count, 1);
}

#[test]
fn rate_limiter_ignores_a_clock_that_steps_back() {
    let mut limiter = RateLimiter::new(1, 10);
    assert!(limiter.check("k", 100));
    assert!(!limiter.check("k", 50));
}

#[test]
fn dos_detector_window_begins_anew() {
    let mut dos = DosDetector::new(1, 100);
    assert!(!dos.check("ip", 0));
    assert!(dos.check("ip", 100));
    assert!(!dos.check("ip", 101));
    assert_eq!(dos.hits[0].count, 1);
    assert_eq!(dos.hits[0].window_start, 101);
    assert!(dos.check("ip", 102));
}

#[test]
fn dos_detector_count_stays_at_its_largest() {
    let mut dos = DosDetector::new(u32::MAX, 100);
    assert!(!dos.check("ip", 0));
    dos.hits[0].count = u32::MAX;
    assert!(!dos.check("ip", 1));
    assert_eq!(dos.hits[0].count, u32::MAX);
    let mut low = DosDetector::new(7, 100);
    assert!(!low.check("ip", 0));
    low.hits[0].count = u32::MAX;
    assert!(low.check("ip", 1));
    assert_eq!(low.hits[0].count, u32::MAX);
}

#[test]
fn id_bounds_and_alphabet() {
    assert!(validate_id("ab").is_err());
    assert!(validate_id("abc").is_ok());
    assert!(validate_id(&"a".repeat(64)).is_ok());
    assert!(validate_id(&"a".repeat(65)).is_err());
    assert!(validate_id("A_z-09").is_ok());
    assert!(validate_id("ab.c").is_err());
    assert!(validate_id("abé").is_err());
    assert_eq!(validate_id(""), Err("Invalid ID format"));
}

#[test]
fn token_bounds_and_alphabet() {
    assert!(validate_token("123456789").is_err());
    assert!(validate_token("1234567890").is_ok());
    assert!(validate_token(&"x".repeat(512)).is_ok());
    assert!(validate_token(&"x".repeat(513)).is_err());
    assert!(validate_token("!~!~!~!~!~").is_ok());
    assert!(validate_token("tab\tinside123").is_err());
    assert!(validate_token("ünïcödé-token").is_err());
    assert_eq!(validate_token("short"), Err("Invalid token format"));
}

#[test]
fn origin_must_match_letter_for_letter() {
    let allowed = ["https://a.example", "https://b.example"];
    assert!(check_ws_origin("https://b.example", &allowed));
    assert!(!check_ws_origin("https://b.example/", &allowed));
    assert!(!check_ws_origin("https://B.example", &allowed));
    assert!(!check_ws_origin("https://a.example", &[]));
}
