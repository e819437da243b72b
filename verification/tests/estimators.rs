use gtp::owd::{OwdEstimator, OwdSample};
use gtp::replay::ReplayWindow;
use gtp::rtt::RttStats;
use gtp::state_machine::ConnectionState;
use gtp::types::{Duration, MonotonicTime, PacketNumber};

fn feed(est: &mut OwdEstimator, now_us: u64, delay_us: u64) -> OwdSample {
    let ts_peer = (now_us - delay_us) as u32;
    est.on_packet(ts_peer, MonotonicTime::from_micros(now_us))
}

#[test]
fn known_delay_injection_accuracy() {
    let mut est = OwdEstimator::new();
    let t0 = 10_000_000u64;
    let tick = 16_667u64;

    for i in 0..50u64 {
        let s = feed(&mut est, t0 + i * tick, 20_000);
        assert_eq!(s.owd_var_us, 0, "constant delay must read as zero variance");
    }
    for i in 50..80u64 {
        let s = feed(&mut est, t0 + i * tick, 35_000);
        assert!(
            (13_900..=16_100).contains(&s.owd_var_us),
            "injected +15 ms must surface as owd_var ≈ 15 ms, got {} µs",
            s.owd_var_us
        );
    }
    for i in 80..110u64 {
        let s = feed(&mut est, t0 + i * tick, 18_000);
        assert_eq!(s.owd_var_us, 0, "a new lower floor must reset the variance");
    }
}

#[test]
fn wraparound_edge_no_false_jump() {
    let mut est = OwdEstimator::new();
    let start_local: u64 = (u32::MAX as u64) - 4_000;
    let tick = 1_000u64;
    for i in 0..12u64 {
        let local_us = start_local + i * tick;
        let ts_peer = ((local_us - 5_000) as u32) as u64;
        let s = est.on_packet(ts_peer as u32, MonotonicTime::from_micros(local_us));
        assert_eq!(s.owd_var_us, 0, "constant 5 ms delay across the u32 wrap must stay zero-variance (packet {})", i);
        assert_eq!(s.jitter_us, 0);
    }
    assert!(est.is_ready());
}

#[test]
fn clock_drift_bounded_by_reanchor() {
    let mut est = OwdEstimator::new();
    let start = 100_000_000u64;
    let mut worst: u64 = 0;
    for i in 0..160u64 {
        let now_us = start + i * 250_000;
        let lag = (now_us - start) / 20_000;
        let ts_peer = (now_us - 20_000 - lag) as u32;
        let s = est.on_packet(ts_peer, MonotonicTime::from_micros(now_us));
        worst = worst.max(s.owd_var_us as u64);
    }
    assert!(worst <= 1_500, "drift error must stay ≤ 1.5 ms within the 30 s re-anchor window, got {} µs", worst);
}

#[test]
fn rfc3550_jitter_spot_values() {
    let mut est = OwdEstimator::new();
    let t0 = 5_000_000u64;
    let tick = 16_667u64;
    feed(&mut est, t0, 20_000);
    let seq = [21_000u64, 20_000, 21_000];
    let expected_jitter = [62u32, 120, 175];
    for (i, delay) in seq.iter().enumerate() {
        let s = feed(&mut est, t0 + (i as u64 + 1) * tick, *delay);
        assert_eq!(s.jitter_us, expected_jitter[i], "RFC 3550 recurrence diverged at step {}", i);
    }
}

#[test]
fn reset_for_new_path_reseeds_completely() {
    let mut est = OwdEstimator::new();
    feed(&mut est, 10_000_000, 20_000);
    feed(&mut est, 10_016_667, 35_000);
    assert!(est.is_ready());
    assert!(est.sample().owd_var_us > 0);

    est.reset_for_new_path();
    assert!(!est.is_ready(), "after a migration reset no sample survives");
    let s = feed(&mut est, 20_000_000, 60_000);
    assert_eq!(s.owd_var_us, 0);
}

#[test]
fn reset_for_new_path_drops_old_path_samples_but_keeps_the_peer_property() {
    let mut stats = RttStats::new();
    stats.max_ack_delay = Duration::from_millis(11);
    for _ in 0..8 {
        stats.update(Duration::from_millis(10), Duration::from_micros(0));
    }
    assert_eq!(stats.min_rtt, Duration::from_millis(10));

    stats.reset_for_new_path();

    assert_eq!(stats.max_ack_delay, Duration::from_millis(11));
    assert_eq!(stats.min_rtt, RttStats::new().min_rtt);
    stats.update(Duration::from_millis(60), Duration::from_micros(0));
    assert_eq!(stats.min_rtt, Duration::from_millis(60));
    assert_eq!(stats.smoothed_rtt, Duration::from_millis(60));
}

#[test]
fn test_rtt_stats_update() {
    let mut stats = RttStats::new();
    assert!(stats.awaiting_first_sample());

    stats.update(Duration::from_millis(50), Duration::from_millis(5));
    assert_eq!(stats.latest_rtt, Duration::from_millis(50));
    assert_eq!(stats.smoothed_rtt, Duration::from_millis(50));
    assert_eq!(stats.min_rtt, Duration::from_millis(50));
    assert_eq!(stats.rttvar, Duration::from_micros(25_000));

    stats.update(Duration::from_millis(60), Duration::from_millis(5));
    assert_eq!(stats.latest_rtt, Duration::from_millis(55));
    assert!(stats.smoothed_rtt > Duration::from_millis(50));
    assert_eq!(stats.min_rtt, Duration::from_millis(50));

    stats.update(Duration::from_millis(52), Duration::from_millis(10_000));
    assert_eq!(stats.latest_rtt, Duration::from_millis(52));
    assert_eq!(stats.min_rtt, Duration::from_millis(50));

    let mut fast = RttStats::new();
    fast.update(Duration::from_micros(1), Duration::zero());
    assert!(fast.pto_duration() >= Duration::from_millis(1));
}

#[test]
fn test_replay_window_duplicate_and_out_of_order() {
    let mut window = ReplayWindow::new();
    assert!(window.check_and_update(PacketNumber(100)).is_ok());
    assert!(window.check_and_update(PacketNumber(100)).is_err());
    assert!(window.check_and_update(PacketNumber(95)).is_ok());
    assert!(window.check_and_update(PacketNumber(95)).is_err());
    assert!(window.check_and_update(PacketNumber(150)).is_ok());
    assert!(window.check_and_update(PacketNumber(140)).is_ok());
    assert!(window.check_and_update(PacketNumber(10)).is_err());
}

#[test]
fn test_valid_and_invalid_state_transitions() {
    let mut state = ConnectionState::Initial;
    assert!(state.transition_to(ConnectionState::Handshaking).is_ok());
    assert!(state.transition_to(ConnectionState::Validated).is_ok());
    assert!(state.transition_to(ConnectionState::Established).is_ok());
    assert!(state.is_active());
    assert!(state.transition_to(ConnectionState::Draining).is_ok());
    assert!(state.transition_to(ConnectionState::Closed).is_ok());
    assert!(state.is_closed());

    let mut closed_state = ConnectionState::Closed;
    assert!(closed_state.transition_to(ConnectionState::Established).is_err());
}

// PTO never drops below the timer granularity and the first sample seeds
// every estimate.
#[test]
fn first_rtt_sample_seeds_the_estimator() {
    let mut stats = RttStats::new();
    stats.update(Duration::from_millis(80), Duration::from_millis(3));
    assert_eq!(stats.smoothed_rtt, Duration::from_millis(80));
    assert_eq!(stats.rttvar, Duration::from_millis(40));
    // PTO = 80 + 4·40 + 25 (default max_ack_delay) = 265 ms
    assert_eq!(stats.pto_duration(), Duration::from_millis(265));
}

#[test]
fn a_fresh_connection_can_be_closed() {
    let mut state = ConnectionState::Initial;
    assert!(state.transition_to(ConnectionState::Closed).is_ok());
    assert!(state.is_closed());
    assert!(state.transition_to(ConnectionState::Initial).is_err());
}

#[test]
fn replay_acceptance_follows_the_accepted_history() {
    let mut window = ReplayWindow::new();
    let mut accepted: Vec<u64> = Vec::new();
    let numbers: [u64; 16] = [5, 3, 5, 200, 72, 73, 72, 300, 100, 173, 172, 299, 1000, 0, 873, 999];
    for &p in numbers.iter() {
        let above_all = accepted.iter().all(|&a| a < p);
        let fresh_in_reach = !accepted.contains(&p) && accepted.iter().all(|&a| a < p + 128);
        let expected = above_all || fresh_in_reach;
        let got = window.check_and_update(PacketNumber(p)).is_ok();
        assert_eq!(got, expected, "packet {p}");
        if got {
            accepted.push(p);
            assert!(window.check_and_update(PacketNumber(p)).is_err(), "a second {p} is a replay");
        }
    }
    assert_eq!(accepted, vec![5, 3, 200, 73, 300, 173, 299, 1000, 873, 999]);
}

#[test]
fn rtt_readings_match_the_public_fields() {
    let mut stats = RttStats::new();
    assert_eq!(stats.rttvar(), Duration::from_millis(50));
    assert_eq!(stats.min_rtt(), Duration::from_micros(u64::MAX));
    assert_eq!(stats.max_ack_delay(), Duration::from_millis(25));
    stats.update(Duration::from_millis(40), Duration::zero());
    assert_eq!(stats.rttvar(), stats.rttvar);
    assert_eq!(stats.min_rtt(), Duration::from_millis(40));
    assert_eq!(stats.rttvar(), Duration::from_millis(20));
}
