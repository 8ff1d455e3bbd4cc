use rate_limiter::config::RateLimitConfig;
use rate_limiter::rate_limiter::{RateLimitError, RateLimiterResponse, RequestType};
use rate_limiter::storage_handler::StorageHandler;
use rate_limiter::time::{parse_log, Timestamp};
use rate_limiter::window::{count_current_window, evaluate, leading_stale_count, weighted_estimate_below};

const MINUTE: i64 = 1_699_999_980;

fn at(secs: i64) -> Timestamp {
    Timestamp::new(MINUTE + secs, 0)
}

#[test]
fn weighted_estimate_exact_values() {
    // 1 + 2 * (1 - 30/60) = 2, not under 2
    assert!(!weighted_estimate_below(1, 2, 30, 2));
    assert!(weighted_estimate_below(1, 2, 31, 2));
    assert!(weighted_estimate_below(0, 0, 0, 1));
    assert!(!weighted_estimate_below(0, 0, 0, 0));
    // 4 + 3 * (1 - 20/60) = 6, not under 6
    assert!(!weighted_estimate_below(4, 3, 20, 6));
    assert!(weighted_estimate_below(4, 3, 21, 6));
    assert!(!weighted_estimate_below(0, 5, 0, 5));
}

#[test]
fn pruning_counts_only_the_stale_head() {
    let now = at(100);
    let log = vec![at(10), at(39), at(40), at(41), at(20)];
    assert_eq!(leading_stale_count(&log, now), 2);
    assert_eq!(leading_stale_count(&vec![], now), 0);
    assert_eq!(leading_stale_count(&vec![at(0), at(1)], now), 2);
    assert_eq!(leading_stale_count(&vec![Timestamp::new(MINUTE + 39, 999_999_999)], now), 1);
}

#[test]
fn current_window_counts_after_minute_start() {
    let now = at(75);
    let log = vec![at(30), at(60), Timestamp::new(MINUTE + 60, 1), at(70), at(75)];
    assert_eq!(count_current_window(&log, 0, now), 3);
    assert_eq!(count_current_window(&log, 3, now), 2);
    assert_eq!(count_current_window(&log, 5, now), 0);
}

#[test]
fn evaluate_prunes_and_decides() {
    let log = vec![at(0), at(50), at(70)];
    let e = evaluate(&log, at(90), 2);
    assert_eq!(e.stale, 1);
    // 1 + 1 * (1 - 30/60) = 1.5 < 2
    assert_eq!(e.response, RateLimiterResponse::Success);
    let e = evaluate(&vec![at(0), at(50), at(58)], at(60), 2);
    assert_eq!(e.stale, 0);
    assert_eq!(e.response, RateLimiterResponse::Drop);
}

#[test]
fn negative_instants_use_floor_minutes() {
    let t = Timestamp::new(-1, 0);
    assert_eq!(t.second_of_minute(), 59);
    assert_eq!(t.minute_start(), -60_000_000_000);
    assert_eq!(Timestamp::new(125, 7).as_nanos(), 125_000_000_007);
}

#[test]
fn storage_reads_appends_and_pops() {
    let mut s = StorageHandler::new();
    assert!(s.get("a").is_empty());
    s.pop_oldest_request("a");
    assert!(s.get("a").is_empty());
    s.append("a", at(1));
    s.append("a", at(2));
    s.append("b", at(3));
    assert_eq!(s.get("a"), vec![at(1), at(2)]);
    assert_eq!(s.get("a"), s.get("a"));
    s.pop_oldest_request("a");
    assert_eq!(s.get("a"), vec![at(2)]);
    assert_eq!(s.get("b"), vec![at(3)]);
    s.remove_users_past_requests("b");
    assert!(s.get("b").is_empty());
    assert_eq!(s.get("a"), vec![at(2)]);
}

#[test]
fn parse_and_format_instants() {
    let t = Timestamp::parse("2023-11-14T22:13:20Z").unwrap();
    assert_eq!(t, Timestamp::new(1_700_000_000, 0));
    let t = Timestamp::parse("2023-11-14T23:13:20.5+01:00").unwrap();
    assert_eq!(t, Timestamp::new(1_700_000_000, 500_000_000));
    assert_eq!(Timestamp::parse("not a date"), Err(RateLimitError::DataCorruption));
    assert_eq!(
        Timestamp::new(1_700_000_000, 0).to_rfc3339(),
        Some("2023-11-14T22:13:20+00:00".to_string())
    );
    assert_eq!(Timestamp::new(i64::MAX, 0).to_rfc3339(), None);
}

#[test]
fn parse_log_reports_corrupt_entries() {
    let good = vec!["2023-11-14T22:13:20Z".to_string(), "2023-11-14T22:13:21Z".to_string()];
    assert_eq!(
        parse_log(&good),
        Ok(vec![Timestamp::new(1_700_000_000, 0), Timestamp::new(1_700_000_001, 0)])
    );
    let bad = vec!["2023-11-14T22:13:20Z".to_string(), "garbage".to_string()];
    assert_eq!(parse_log(&bad), Err(RateLimitError::DataCorruption));
}

#[test]
fn config_from_yaml() {
    let c = RateLimitConfig::from_yaml("domains:\n  - Message: 5\n  - Login: 2\n").ok().unwrap();
    assert_eq!(c.quota(RequestType::Message), Ok(5));
    assert_eq!(c.quota(RequestType::Login), Ok(2));
    let c = RateLimitConfig::from_yaml("domains:\n  - Message: 7\n").ok().unwrap();
    assert_eq!(c.quota(RequestType::Message), Ok(7));
    assert_eq!(c.quota(RequestType::Login), Err(RateLimitError::Configuration));
    assert!(RateLimitConfig::from_yaml("domains:\n  - Message: 0\n").is_err());
    assert!(RateLimitConfig::from_yaml("domains:\n  - Message: -3\n").is_err());
    assert!(RateLimitConfig::from_yaml("domains:\n  - Message: 5000000000\n").is_err());
}
