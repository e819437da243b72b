use gtp::cubic::CubicWindow;
use gtp::types::{Duration, MonotonicTime};

const BETA: f64 = 0.7;

fn at(micros: u64) -> MonotonicTime {
    MonotonicTime::from_micros(micros)
}

fn ms(m: u64) -> Duration {
    Duration::from_millis(m)
}

/// Fast-convergence and backed-off windows for the current window.
fn backoff(w: &CubicWindow) -> (u64, u64) {
    let cwnd = w.cwnd() as f64;
    ((cwnd * (1.0 + BETA) / 2.0) as u64, (cwnd * BETA) as u64)
}

#[test]
fn test_cubic_slow_start_and_loss_reduction() {
    let mut cubic = CubicWindow::new(1200);
    let now = at(1_000_000);

    let initial_cwnd = cubic.cwnd();
    assert_eq!(initial_cwnd, 12_000);

    let elapsed = cubic.on_ack(1200, Some(ms(50)), now + ms(50));
    assert!(elapsed.is_some());
    cubic.grow(0);
    assert!(cubic.cwnd() > initial_cwnd);

    let current_cwnd = cubic.cwnd();
    let (fc, bc) = backoff(&cubic);
    assert!(cubic.on_congestion_event(now + ms(100), fc, bc));
    assert_eq!(cubic.cwnd(), (current_cwnd as f64 * BETA) as u64);
}

#[test]
fn cubic_timeout_resets_epoch_state() {
    let mut cubic = CubicWindow::new(1200);
    let t0 = at(1_000_000);

    for i in 1..=60u64 {
        if cubic.on_ack(1200, Some(ms(20)), t0 + ms(i * 10)).is_some() {
            cubic.grow(u64::MAX);
        }
    }
    let grown = cubic.cwnd();
    assert!(grown > 12_000 * 2);

    let (_, bc) = backoff(&cubic);
    cubic.on_timeout(t0 + ms(1000), bc);
    assert_eq!(cubic.cwnd(), 2 * 1200);

    // Slow start back up: even a target that would restore the old window
    // at once is ignored while the window is under the threshold.
    let ssthresh_after_timeout = grown * 7 / 10;
    let mut t = t0 + ms(1100);
    let mut acks = 100u64;
    while cubic.cwnd() < ssthresh_after_timeout && acks < 10_000 {
        if cubic.on_ack(1200, Some(ms(20)), t).is_some() {
            cubic.grow(u64::MAX);
        }
        acks += 1;
        t = t + ms(10);
    }
    assert!(cubic.cwnd() < grown, "window must not instantly restore the pre-timeout trajectory");
}

#[test]
fn cubic_does_not_grow_on_empty_acks() {
    let mut cubic = CubicWindow::new(1200);
    let t0 = at(1_000_000);
    let before = cubic.cwnd();
    for i in 0..50u64 {
        assert!(cubic.on_ack(0, Some(ms(20)), t0 + ms(i)).is_none());
    }
    assert_eq!(cubic.cwnd(), before);
}

#[test]
fn cubic_config_is_honored() {
    let cubic = CubicWindow::with_params(1000, 50, 10);
    assert_eq!(cubic.cwnd(), 50_000);
    assert_eq!(cubic.min_cwnd(), 10_000);
}

#[test]
fn second_reduction_inside_one_rtt_is_refused() {
    let mut cubic = CubicWindow::new(1200);
    let t0 = at(1_000_000);
    let (fc, bc) = backoff(&cubic);
    assert!(cubic.on_congestion_event(t0, fc, bc));
    let after_first = cubic.cwnd();
    assert_eq!(after_first, 8_400);
    // The smoothed RTT is still the 50 ms guess.
    let (fc, bc) = backoff(&cubic);
    assert!(!cubic.on_congestion_event(t0 + ms(49), fc, bc));
    assert_eq!(cubic.cwnd(), after_first);
    assert!(cubic.on_congestion_event(t0 + ms(50), fc, bc));
    assert_eq!(cubic.cwnd(), 5_880);
}

#[test]
fn fast_convergence_lowers_the_remembered_maximum() {
    let mut cubic = CubicWindow::new(1000);
    let t0 = at(1_000_000);
    let (fc, bc) = backoff(&cubic);
    assert!(cubic.on_congestion_event(t0, fc, bc));
    assert_eq!(cubic.w_max(), 10_000);
    assert_eq!(cubic.cwnd(), 7_000);
    // Lost again before regaining the old maximum: the maximum drops to
    // the window times (1 + beta) / 2.
    let (fc, bc) = backoff(&cubic);
    assert!(cubic.on_congestion_event(t0 + ms(60), fc, bc));
    assert_eq!(cubic.w_max(), 5_950);
    assert_eq!(cubic.origin_point(), 5_950);
    assert_eq!(cubic.cwnd(), 4_900);
}

#[test]
fn congestion_avoidance_follows_the_target_above_the_floor() {
    let mut cubic = CubicWindow::with_params(1000, 4, 2);
    let t0 = at(1_000_000);
    cubic.on_timeout(t0, 2_800);
    assert_eq!(cubic.cwnd(), 2_000);
    assert_eq!(cubic.ssthresh(), 2_800);
    cubic.grow(0);
    assert_eq!(cubic.cwnd(), 3_000);
    // Now above the threshold: a low target keeps the window, a high one
    // raises it.
    cubic.grow(1);
    assert_eq!(cubic.cwnd(), 3_000);
    cubic.grow(3_500);
    assert_eq!(cubic.cwnd(), 3_500);
}

#[test]
fn rtt_samples_feed_an_eighth_weighted_average() {
    let mut cubic = CubicWindow::new(1200);
    cubic.on_rtt(Duration::from_micros(10_000));
    assert_eq!(cubic.smoothed_rtt().as_micros(), (50_000 * 7 + 10_000) / 8);
    assert_eq!(cubic.min_rtt().as_micros(), 10_000);
    cubic.on_rtt(Duration::from_micros(90_000));
    assert_eq!(cubic.min_rtt().as_micros(), 10_000);
}
