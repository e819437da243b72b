use gtp::delivered::DeliveredIndex;
use gtp::hello_limit::HelloRateLimiter;
use gtp::backpressure::{calculate_backpressure, BackpressureLevel};
use gtp::fragment::{
    message_fragment_count, MessageReassembler, PushOutcome, MAX_REASSEMBLY_BYTES, MAX_REASSEMBLY_MESSAGES,
    REASSEMBLY_TTL_US,
};
use gtp::pacing::PacingEngine;
use gtp::path_validator::{PathValidator, PeerAddr, PATH_CHALLENGE_TIMEOUT_US};
use gtp::stateless_token::StatelessTokenManager;
use gtp::types::{Duration, FragmentId, MonotonicTime, TransportError};

fn t(micros: u64) -> MonotonicTime {
    MonotonicTime::from_micros(micros)
}

fn addr(s: &str) -> PeerAddr {
    PeerAddr::new(s.as_bytes().to_vec())
}

#[test]
fn completes_in_any_order_with_duplicates() {
    let mut r = MessageReassembler::new();
    let now = t(1_000_000);
    assert_eq!(r.push(1, FragmentId(1), 3, b"bb", now), PushOutcome::Dropped, "orphan index before fragment 0");
    assert_eq!(r.push(1, FragmentId(0), 3, b"aa", now), PushOutcome::Partial);
    assert_eq!(r.push(1, FragmentId(0), 3, b"aa", now), PushOutcome::Partial);
    assert_eq!(r.push(1, FragmentId(2), 3, b"cc", now), PushOutcome::Partial);
    assert_eq!(r.push(1, FragmentId(1), 3, b"bb", now), PushOutcome::Delivered(b"aabbcc".to_vec()));
    assert!(r.is_empty());
}

#[test]
fn poisoned_total_and_out_of_range_are_dropped() {
    let mut r = MessageReassembler::new();
    let now = t(1_000_000);
    assert_eq!(r.push(2, FragmentId(0), 4, b"a", now), PushOutcome::Partial);
    assert_eq!(r.push(2, FragmentId(1), 5, b"b", now), PushOutcome::Dropped, "total changed mid-message");
    assert_eq!(r.push(2, FragmentId(4), 4, b"b", now), PushOutcome::Dropped);
    assert_eq!(r.push(2, FragmentId(0), 0, b"b", now), PushOutcome::Dropped, "zero total");
    assert_eq!(r.push(2, FragmentId(5), 4, b"b", now), PushOutcome::Dropped);
    assert_eq!(r.len(), 1, "the honest entry survives");
}

#[test]
fn message_cap_evicts_oldest_incomplete() {
    let mut r = MessageReassembler::new();
    let now = t(1_000_000);
    for id in 0..MAX_REASSEMBLY_MESSAGES as u64 {
        r.push(id, FragmentId(0), 2, b"x", now);
    }
    assert_eq!(r.len(), MAX_REASSEMBLY_MESSAGES);
    r.push(MAX_REASSEMBLY_MESSAGES as u64, FragmentId(0), 2, b"x", now);
    assert_eq!(r.len(), MAX_REASSEMBLY_MESSAGES);
    assert_eq!(r.push(0, FragmentId(1), 2, b"y", now), PushOutcome::Dropped);
}

#[test]
fn byte_cap_refuses_new_bytes_and_ttl_sweeps() {
    let mut r = MessageReassembler::new();
    let now = t(1_000_000);
    let big = vec![0u8; MAX_REASSEMBLY_BYTES - 1024];
    assert_eq!(r.push(9, FragmentId(0), 3, &big, now), PushOutcome::Partial);
    assert_eq!(r.push(10, FragmentId(0), 2, &vec![0u8; 2048], now), PushOutcome::Dropped);
    let later = now + Duration::from_micros(REASSEMBLY_TTL_US) + Duration::from_micros(1);
    r.push(11, FragmentId(0), 2, b"z", later);
    assert_eq!(r.len(), 1, "only the fresh message remains");
    assert!(r.buffered_bytes() <= 1);
}

// A message fragmented into one is delivered at once; buffered bytes track
// the incomplete messages exactly.
#[test]
fn single_fragment_delivers_and_bytes_are_exact() {
    let mut r = MessageReassembler::new();
    let now = t(5_000_000);
    assert_eq!(r.push(3, FragmentId(0), 1, b"solo", now), PushOutcome::Delivered(b"solo".to_vec()));
    assert!(r.is_empty());
    assert_eq!(r.push(4, FragmentId(0), 2, b"abc", now), PushOutcome::Partial);
    assert_eq!(r.buffered_bytes(), 3);
    assert_eq!(r.push(4, FragmentId(1), 2, b"de", now), PushOutcome::Delivered(b"abcde".to_vec()));
    assert_eq!(r.buffered_bytes(), 0);
}

#[test]
fn fragment_count_rounds_up_and_rejects_the_unrepresentable() {
    assert_eq!(message_fragment_count(1, 1200), Ok(1));
    assert_eq!(message_fragment_count(1200, 1200), Ok(1));
    assert_eq!(message_fragment_count(1201, 1200), Ok(2));
    assert_eq!(message_fragment_count(10, 0), Ok(10));
    assert_eq!(message_fragment_count(0, 1200), Err(TransportError::PayloadTooLarge { max: 1200 * 65535 }));
    assert_eq!(message_fragment_count(65536, 1), Err(TransportError::PayloadTooLarge { max: 65535 }));
}

#[test]
fn test_path_validation_and_nat_rebinding() {
    let new_addr = addr("192.168.1.100:6000");
    let mut validator = PathValidator::new();

    let now = MonotonicTime::from_micros(1_000_000);
    let challenge_nonce = [1, 2, 3, 4, 5, 6, 7, 8];
    validator.start_challenge(new_addr.duplicate(), challenge_nonce, now);

    assert!(!validator.validate_response(&new_addr, &[0; 8], now + Duration::from_millis(50)));

    let attacker = addr("10.0.0.9:6000");
    assert!(!validator.validate_response(&attacker, &challenge_nonce, now));

    assert!(validator.validate_response(&new_addr, &challenge_nonce, now + Duration::from_millis(50)));

    assert!(!validator.validate_response(&new_addr, &challenge_nonce, now));
}

#[test]
fn expired_challenge_is_reaped() {
    let a = addr("192.168.1.50:7000");
    let mut validator = PathValidator::new();
    let now = MonotonicTime::from_micros(1_000_000);
    validator.start_challenge(a.duplicate(), [9; 8], now);
    assert_eq!(validator.pending_addr().map(|p| p.as_bytes().to_vec()), Some(a.as_bytes().to_vec()));

    validator.expire(now + Duration::from_micros(PATH_CHALLENGE_TIMEOUT_US));
    assert!(validator.pending_addr().is_some());

    validator.expire(now + Duration::from_micros(PATH_CHALLENGE_TIMEOUT_US) + Duration::from_micros(1));
    assert!(validator.pending_addr().is_none());
}

#[test]
fn test_cookie_verify_rejects_wrong_addr_and_expiry() {
    let mgr = StatelessTokenManager::new([42u8; 32]);
    let a = addr("203.0.113.10:40000");
    let now = MonotonicTime::from_micros(1_000_000);

    let cookie = mgr.generate_cookie(&a, now);
    assert!(mgr.verify_cookie(&a, &cookie, now));

    let other = addr("203.0.113.10:40001");
    assert!(!mgr.verify_cookie(&other, &cookie, now));

    let later = now + Duration::from_secs(11);
    assert!(!mgr.verify_cookie(&a, &cookie, later));
}

#[test]
fn cookie_timestamp_refresh_is_rejected() {
    let mgr = StatelessTokenManager::new([7u8; 32]);
    let a = addr("198.51.100.9:51000");
    let t0 = MonotonicTime::from_micros(2_000_000);
    let t_late = t0 + Duration::from_secs(9);

    let stale_cookie = mgr.generate_cookie(&a, t0);

    let mut forged = stale_cookie;
    forged[0..8].copy_from_slice(&t_late.as_micros().to_be_bytes());
    assert!(!mgr.verify_cookie(&a, &forged, t_late));

    let fresh = mgr.generate_cookie(&a, t_late);
    assert!(mgr.verify_cookie(&a, &fresh, t_late));
}

#[test]
fn future_dated_cookie_is_rejected() {
    let mgr = StatelessTokenManager::new([9u8; 32]);
    let a = addr("192.0.2.77:53000");
    let now = MonotonicTime::from_micros(5_000_000);
    let future = now + Duration::from_secs(120);

    let cookie = mgr.generate_cookie(&a, future);
    assert!(!mgr.verify_cookie(&a, &cookie, now));
}

#[test]
fn cookie_secret_not_recoverable() {
    let mgr = StatelessTokenManager::new([0x5Au8; 32]);
    let a = addr("203.0.113.50:55000");
    let ts = MonotonicTime::from_micros(3_000_000);
    let cookie = mgr.generate_cookie(&a, ts);

    let mgr2 = StatelessTokenManager::new([0xA5u8; 32]);
    let cookie2 = mgr2.generate_cookie(&a, ts);
    assert_ne!(&cookie[8..32], &cookie2[8..32]);

    let mut guessed = cookie;
    guessed[8..32].copy_from_slice(&[0u8; 24]);
    assert!(!mgr.verify_cookie(&a, &guessed, ts));
}

// A cookie is valid from its issue time for exactly the token lifetime.
#[test]
fn cookie_lifetime_boundary() {
    let mgr = StatelessTokenManager::new([1u8; 32]);
    let a = addr("127.0.0.1:9000");
    let t0 = MonotonicTime::from_micros(7_000_000);
    let cookie = mgr.generate_cookie(&a, t0);
    assert_eq!(&cookie[0..8], &7_000_000u64.to_be_bytes());
    assert!(mgr.verify_cookie(&a, &cookie, t0 + Duration::from_secs(10)));
    assert!(!mgr.verify_cookie(&a, &cookie, t0 + Duration::from_secs(10) + Duration::from_micros(1)));
}

#[test]
fn no_min_rtt_sample_leaves_the_rtt_axis_neutral() {
    assert_eq!(calculate_backpressure(0, 10_000, Duration::from_millis(100), None), BackpressureLevel::Low);
    assert_eq!(calculate_backpressure(40_000, 10_000, Duration::from_millis(100), None), BackpressureLevel::Critical);
    assert_eq!(
        calculate_backpressure(0, 10_000, Duration::from_millis(60), Some(Duration::from_millis(40))),
        BackpressureLevel::Medium
    );
}

// Each threshold, just below and just above.
#[test]
fn backpressure_thresholds_are_exact() {
    let d = Duration::from_millis(10);
    assert_eq!(calculate_backpressure(30_000, 10_000, d, None), BackpressureLevel::High);
    assert_eq!(calculate_backpressure(30_001, 10_000, d, None), BackpressureLevel::Critical);
    assert_eq!(calculate_backpressure(15_000, 10_000, d, None), BackpressureLevel::Medium);
    assert_eq!(calculate_backpressure(15_001, 10_000, d, None), BackpressureLevel::High);
    assert_eq!(calculate_backpressure(8_000, 10_000, d, None), BackpressureLevel::Low);
    assert_eq!(calculate_backpressure(8_001, 10_000, d, None), BackpressureLevel::Medium);
    // The window is floored at 1200 bytes.
    assert_eq!(calculate_backpressure(3_601, 0, d, None), BackpressureLevel::Critical);
    // RTT inflation 2.5x is High, above it Critical; a zero floor is neutral.
    let m = Some(Duration::from_millis(40));
    assert_eq!(calculate_backpressure(0, 10_000, Duration::from_millis(100), m), BackpressureLevel::High);
    assert_eq!(calculate_backpressure(0, 10_000, Duration::from_micros(100_001), m), BackpressureLevel::Critical);
    assert_eq!(calculate_backpressure(0, 10_000, Duration::from_millis(100), Some(Duration::zero())), BackpressureLevel::Low);
}

fn pacing_credit(rate_bps: u64, elapsed: Duration) -> u64 {
    (rate_bps as f64 * (elapsed.as_micros() as f64 / 1_000_000.0)) as u64
}

#[test]
fn test_pacing_tokens_accumulation_and_consumption() {
    let mut pacing = PacingEngine::new(2400);
    let now = MonotonicTime::from_micros(1_000_000);

    pacing.update_tokens(pacing_credit(100_000, pacing.elapsed_since_update(now)), now); // 100 KB/s
    assert!(pacing.can_send(1200, 10_000, 0));

    pacing.consume(1200);
    assert_eq!(pacing.send_budget(u64::MAX, 0), 1200);

    pacing.consume(1200);
    assert_eq!(pacing.send_budget(u64::MAX, 0), 0);
    assert!(!pacing.can_send(1200, 10_000, 0));

    let now_plus_20ms = now + Duration::from_millis(20);
    pacing.update_tokens(pacing_credit(100_000, pacing.elapsed_since_update(now_plus_20ms)), now_plus_20ms);
    assert!(pacing.send_budget(u64::MAX, 0) >= 2000);
    assert!(pacing.can_send(1200, 10_000, 0));
}

#[test]
fn pacing_window_and_tokens_both_gate() {
    let mut pacing = PacingEngine::new(5_000);
    assert!(pacing.can_send(1_000, 2_000, 1_000));
    assert!(!pacing.can_send(1_001, 2_000, 1_000));
    assert_eq!(pacing.send_budget(2_000, 500), 1_500);
    assert_eq!(pacing.send_budget(500, 2_000), 0);
    pacing.consume(10_000);
    assert_eq!(pacing.send_budget(u64::MAX, 0), 0);
    // Tokens refill up to the burst cap only.
    let t0 = MonotonicTime::from_micros(10);
    pacing.update_tokens(0, t0);
    assert_eq!(pacing.send_budget(u64::MAX, 0), 5_000);
    pacing.consume(5_000);
    pacing.update_tokens(9_999, t0 + Duration::from_micros(1));
    assert_eq!(pacing.send_budget(u64::MAX, 0), 5_000);
}

#[test]
fn delivered_index_refuses_a_second_delivery() {
    let mut idx = DeliveredIndex::new(64);
    assert!(idx.insert_if_new(7));
    assert!(!idx.insert_if_new(7));
    assert!(idx.insert_if_new(8));
    assert!(!idx.insert_if_new(7));
}

#[test]
fn delivered_index_capacity_has_a_floor_of_sixteen() {
    let mut idx = DeliveredIndex::new(3);
    for k in 0..16u64 {
        assert!(idx.insert_if_new(k));
    }
    // Sixteen ids fit, so the oldest is still remembered.
    assert!(!idx.insert_if_new(0));
    // The seventeenth pushes the oldest out.
    assert!(idx.insert_if_new(16));
    assert!(idx.insert_if_new(0));
    assert!(!idx.insert_if_new(16));
}

#[test]
fn delivered_index_default_remembers_nothing() {
    let mut idx = DeliveredIndex::default();
    assert!(idx.insert_if_new(5));
    assert!(idx.insert_if_new(5));
}

fn v4(a: u8, b: u8, c: u8, d: u8) -> (bool, u128) {
    (false, u32::from_be_bytes([a, b, c, d]) as u128)
}

#[test]
fn hello_rate_limiter_prunes_stale_entries() {
    let mut rl = HelloRateLimiter::default();
    let t0 = MonotonicTime::from_micros(1_000_000);
    let window = Duration::from_secs(1);

    // A flood of distinct (spoofed) sources at t0.
    for i in 0..1000u32 {
        let ip = v4(10, (i >> 16) as u8, (i >> 8) as u8, i as u8);
        assert!(rl.allow(ip, false, t0, window, 20), "first hello is allowed");
    }
    assert_eq!(rl.len(), 1000);

    // One hello a window later: the stale flood is pruned first.
    let t1 = t0 + Duration::from_secs(2);
    assert!(rl.allow(v4(192, 0, 2, 1), false, t1, window, 20));
    assert!(rl.len() <= 2, "stale entries must be reaped, got {}", rl.len());

    // And the limit itself: 20 hellos per window pass, the 21st does not.
    let t2 = t1 + Duration::from_secs(2);
    let flood_ip = v4(198, 51, 100, 7);
    for _ in 0..20 {
        assert!(rl.allow(flood_ip, false, t2, window, 20));
    }
    assert!(!rl.allow(flood_ip, false, t2, window, 20));
    // Loopback bypasses the limit entirely.
    assert!(rl.allow(v4(127, 0, 0, 1), true, t2, window, 0));
}

#[test]
fn hello_window_restarts_after_it_runs_out() {
    let mut rl = HelloRateLimiter::default();
    let t0 = MonotonicTime::from_micros(5_000_000);
    let window = Duration::from_millis(100);
    let src = (true, 0x2001_0db8_0000_0000_0000_0000_0000_0001u128);
    assert!(rl.allow(src, false, t0, window, 2));
    assert!(rl.allow(src, false, t0 + Duration::from_millis(50), window, 2));
    assert!(!rl.allow(src, false, t0 + Duration::from_millis(99), window, 2));
    // The window counts from its first hello: at 100 ms it has run out.
    assert!(rl.allow(src, false, t0 + Duration::from_millis(100), window, 2));
    assert_eq!(rl.len(), 1);
}
