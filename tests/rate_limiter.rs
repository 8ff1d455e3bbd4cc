use rate_limiter::config::RateLimitConfig;
use rate_limiter::rate_limiter::{RateLimitError, RateLimiter, RateLimiterResponse, RequestType};
use rate_limiter::time::Timestamp;

/// The first second of a wall-clock minute (1_699_999_980 is a multiple of 60).
const MINUTE: i64 = 1_699_999_980;

fn at(secs: i64) -> Timestamp {
    Timestamp::new(MINUTE + secs, 0)
}

fn limiter_with_message_quota(quota: u32) -> RateLimiter {
    let mut conf = RateLimitConfig::new();
    conf.set_quota(RequestType::Message, quota);
    RateLimiter::new(conf)
}

fn limiter() -> RateLimiter {
    limiter_with_message_quota(5)
}

#[test]
fn one_req() {
    let user_id = 1;
    let request_key = RateLimiter::get_request_key(&RequestType::Message, user_id);
    let mut rl = limiter();
    rl.storage_handler.remove_users_past_requests(&request_key);
    let resp = rl.recv_request(RequestType::Message, user_id);
    assert_eq!(resp, Ok(RateLimiterResponse::Success));
}

#[test]
fn multiple_requests_ok_immediate() {
    let user_id = 2;
    let request_key = RateLimiter::get_request_key(&RequestType::Message, user_id);
    let mut rl = limiter();
    rl.storage_handler.remove_users_past_requests(&request_key);
    let max_num_requests_in_window = rl.get_bucket_size_for_request_type(RequestType::Message).unwrap();
    for _ in 0..max_num_requests_in_window {
        let resp = rl.recv_request(RequestType::Message, user_id);
        assert_eq!(resp, Ok(RateLimiterResponse::Success));
    }
}

#[test]
fn multiple_requests_not_ok_immediate() {
    let user_id = 3;
    let mut rl = limiter();
    let request_key = RateLimiter::get_request_key(&RequestType::Message, user_id);
    rl.storage_handler.remove_users_past_requests(&request_key);
    let max_num_requests_in_window = rl.get_bucket_size_for_request_type(RequestType::Message).unwrap();
    for _ in 0..max_num_requests_in_window {
        let resp = rl.recv_request(RequestType::Message, user_id);
        assert_eq!(resp, Ok(RateLimiterResponse::Success));
    }
    let resp = rl.recv_request(RequestType::Message, user_id);
    assert_eq!(resp, Ok(RateLimiterResponse::Drop));
}

/// The requests are made at chosen instants instead of sleeping between them.
#[test]
fn multiple_requests_ok_timed() {
    let user_id = 4;
    let mut rl = limiter();
    let request_key = RateLimiter::get_request_key(&RequestType::Message, user_id);
    rl.storage_handler.remove_users_past_requests(&request_key);

    let max_num_requests_in_window = rl.get_bucket_size_for_request_type(RequestType::Message).unwrap();
    let mut t: i64 = 1;
    for _ in 0..max_num_requests_in_window {
        let resp = rl.recv_request_at(RequestType::Message, user_id, at(t));
        assert_eq!(resp, Ok(RateLimiterResponse::Success));
        t += 2;
    }
    let _ = rl.recv_request_at(RequestType::Message, user_id, at(t));
    let resp = rl.recv_request_at(RequestType::Message, user_id, at(t));
    assert_eq!(resp, Ok(RateLimiterResponse::Drop));
    t += 55;
    let resp = rl.recv_request_at(RequestType::Message, user_id, at(t));
    assert_eq!(resp, Ok(RateLimiterResponse::Success));
    t += 5;
    let resp = rl.recv_request_at(RequestType::Message, user_id, at(t));
    assert_eq!(resp, Ok(RateLimiterResponse::Success));
    t += 5;
    let resp = rl.recv_request_at(RequestType::Message, user_id, at(t));
    assert_eq!(resp, Ok(RateLimiterResponse::Success));
}

#[test]
fn multiple_users() {
    let mut rl = limiter_with_message_quota(2);
    for _ in 0..2 {
        assert_eq!(rl.recv_request_at(RequestType::Message, 10, at(5)), Ok(RateLimiterResponse::Success));
    }
    assert_eq!(rl.recv_request_at(RequestType::Message, 10, at(6)), Ok(RateLimiterResponse::Drop));
    assert_eq!(rl.recv_request_at(RequestType::Message, 11, at(6)), Ok(RateLimiterResponse::Success));
    assert_eq!(rl.recv_request_at(RequestType::Message, 11, at(7)), Ok(RateLimiterResponse::Success));
    assert_eq!(rl.recv_request_at(RequestType::Message, 11, at(8)), Ok(RateLimiterResponse::Drop));
    let key10 = RateLimiter::get_request_key(&RequestType::Message, 10);
    let key11 = RateLimiter::get_request_key(&RequestType::Message, 11);
    assert_eq!(rl.storage_handler.get(&key10), vec![at(5), at(5)]);
    assert_eq!(rl.storage_handler.get(&key11), vec![at(6), at(7)]);
}

#[test]
fn quota_within_one_minute_then_drop() {
    for quota in 1..8u32 {
        let mut rl = limiter_with_message_quota(quota);
        for i in 0..quota {
            let resp = rl.recv_request_at(RequestType::Message, 7, at(3 + i as i64));
            assert_eq!(resp, Ok(RateLimiterResponse::Success));
        }
        let resp = rl.recv_request_at(RequestType::Message, 7, at(50));
        assert_eq!(resp, Ok(RateLimiterResponse::Drop));
    }
}

#[test]
fn quiet_minute_readmits() {
    let mut rl = limiter_with_message_quota(3);
    for _ in 0..3 {
        assert_eq!(rl.recv_request_at(RequestType::Message, 8, at(1)), Ok(RateLimiterResponse::Success));
    }
    assert_eq!(rl.recv_request_at(RequestType::Message, 8, at(2)), Ok(RateLimiterResponse::Drop));
    let later = Timestamp::new(MINUTE + 61, 1);
    assert_eq!(rl.recv_request_at(RequestType::Message, 8, later), Ok(RateLimiterResponse::Success));
    let key = RateLimiter::get_request_key(&RequestType::Message, 8);
    assert_eq!(rl.storage_handler.get(&key), vec![later]);
}

#[test]
fn five_instant_calls_then_drop_then_admit_after_55_seconds() {
    let mut rl = limiter_with_message_quota(5);
    let start = Timestamp::new(MINUTE + 10, 0);
    for i in 0..5u32 {
        let t = Timestamp::new(MINUTE + 10, i * 1000);
        assert_eq!(rl.recv_request_at(RequestType::Message, 20, t), Ok(RateLimiterResponse::Success));
    }
    let sixth = Timestamp::new(start.secs, 10_000);
    assert_eq!(rl.recv_request_at(RequestType::Message, 20, sixth), Ok(RateLimiterResponse::Drop));
    let later = Timestamp::new(start.secs + 55, 10_000);
    assert_eq!(rl.recv_request_at(RequestType::Message, 20, later), Ok(RateLimiterResponse::Success));
}

#[test]
fn half_window_scenario_quota_two() {
    let mut rl = limiter_with_message_quota(2);
    assert_eq!(rl.recv_request_at(RequestType::Message, 21, at(10)), Ok(RateLimiterResponse::Success));
    assert_eq!(rl.recv_request_at(RequestType::Message, 21, at(40)), Ok(RateLimiterResponse::Success));
    assert_eq!(rl.recv_request_at(RequestType::Message, 21, at(40)), Ok(RateLimiterResponse::Drop));
}

#[test]
fn estimate_equal_to_quota_drops() {
    let mut rl = limiter_with_message_quota(2);
    assert_eq!(rl.recv_request_at(RequestType::Message, 22, at(-20)), Ok(RateLimiterResponse::Success));
    assert_eq!(rl.recv_request_at(RequestType::Message, 22, at(-15)), Ok(RateLimiterResponse::Success));
    assert_eq!(rl.recv_request_at(RequestType::Message, 22, at(5)), Ok(RateLimiterResponse::Success));
    // one current entry plus two previous ones weighted by one half: exactly 2
    assert_eq!(rl.recv_request_at(RequestType::Message, 22, at(30)), Ok(RateLimiterResponse::Drop));
    // a second later the previous ones weigh less, and the estimate is under 2
    assert_eq!(rl.recv_request_at(RequestType::Message, 22, at(31)), Ok(RateLimiterResponse::Success));
}

#[test]
fn unknown_category_is_configuration_error() {
    let mut rl = limiter();
    assert_eq!(rl.get_bucket_size_for_request_type(RequestType::Login), Err(RateLimitError::Configuration));
    assert_eq!(rl.recv_request_at(RequestType::Login, 1, at(0)), Err(RateLimitError::Configuration));
    let key = RateLimiter::get_request_key(&RequestType::Login, 1);
    assert!(rl.storage_handler.get(&key).is_empty());
}

#[test]
fn dropped_request_is_not_recorded_and_stale_head_is_pruned() {
    let mut rl = limiter_with_message_quota(1);
    assert_eq!(rl.recv_request_at(RequestType::Message, 30, at(1)), Ok(RateLimiterResponse::Success));
    assert_eq!(rl.recv_request_at(RequestType::Message, 30, at(20)), Ok(RateLimiterResponse::Drop));
    let key = RateLimiter::get_request_key(&RequestType::Message, 30);
    assert_eq!(rl.storage_handler.get(&key), vec![at(1)]);
    // exactly one minute later the entry is not yet older than the window: it
    // stays, weighted by 59/60
    assert_eq!(rl.recv_request_at(RequestType::Message, 30, at(61)), Ok(RateLimiterResponse::Success));
    assert_eq!(rl.storage_handler.get(&key), vec![at(1), at(61)]);
    // one nanosecond later it is pruned
    let later = Timestamp::new(MINUTE + 61, 1);
    assert_eq!(rl.recv_request_at(RequestType::Message, 30, later), Ok(RateLimiterResponse::Drop));
    assert_eq!(rl.storage_handler.get(&key), vec![at(61)]);
}

#[test]
fn log_stays_chronological() {
    let mut rl = limiter_with_message_quota(3);
    for s in [0i64, 1, 2, 3, 30, 61, 62, 90, 200] {
        let _ = rl.recv_request_at(RequestType::Message, 31, at(s));
    }
    let key = RateLimiter::get_request_key(&RequestType::Message, 31);
    let log = rl.storage_handler.get(&key);
    for w in log.windows(2) {
        assert!(w[0].as_nanos() <= w[1].as_nanos());
    }
    assert_eq!(log, vec![at(200)]);
}

#[test]
fn request_keys() {
    assert_eq!(RateLimiter::get_request_key(&RequestType::Message, 42), "Message:42");
    assert_eq!(RateLimiter::get_request_key(&RequestType::Login, 0), "Login:0");
    assert_eq!(RateLimiter::get_request_key(&RequestType::Login, 4294967295), "Login:4294967295");
    assert_eq!(RequestType::Login.to_string(), "Login");
    assert_eq!(RequestType::toString(&RequestType::Message), "Message");
}
