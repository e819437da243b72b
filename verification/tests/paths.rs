use gtp::path_manager::{PathManager, MAX_PENDING_PATH_RESPONSES};
use gtp::path_validator::PeerAddr;
use gtp::types::{Duration, MonotonicTime};

fn addr(s: &str) -> PeerAddr {
    PeerAddr::new(s.as_bytes().to_vec())
}

fn at(micros: u64) -> MonotonicTime {
    MonotonicTime::from_micros(micros)
}

#[test]
fn an_unchallenged_address_earns_no_budget() {
    let mut m = PathManager::new(addr("127.0.0.1:5000"), 3, false);
    m.on_authenticated_datagram(&addr("198.51.100.7:9999"), 1200);
    assert!(!m.active_limiter().is_validated());
    assert_eq!(m.active_limiter().bytes_received(), 0);
    assert!(m.probe().is_none(), "a remote source cannot open a probe for itself");
    assert!(!m.can_send(1));
}

#[test]
fn authenticated_traffic_on_the_active_path_validates_it() {
    let mut m = PathManager::new(addr("127.0.0.1:5000"), 3, false);
    m.on_authenticated_datagram(&addr("127.0.0.1:5000"), 100);
    assert!(m.active_limiter().is_validated());
    assert_eq!(m.active_limiter().bytes_received(), 100);
    assert!(m.can_send(1_000_000));
}

#[test]
fn a_challenged_address_starts_with_an_empty_budget() {
    let mut m = PathManager::new(addr("127.0.0.1:5000"), 3, true);
    m.trigger_path_challenge(addr("127.0.0.1:6100"), [0xB1; 8], at(22_000_000));
    let (probe_addr, probe) = m.probe().expect("the challenge opened a probe slot");
    assert_eq!(probe_addr.as_bytes(), b"127.0.0.1:6100");
    assert!(!probe.is_validated(), "the active path's validation must not carry over");
    assert!(!probe.can_send(1));
}

#[test]
fn the_probe_is_capped_at_three_times_what_it_received() {
    let mut m = PathManager::new(addr("127.0.0.1:5000"), 3, false);
    let b = addr("127.0.0.1:6100");
    m.trigger_path_challenge(b.duplicate(), [0xB2; 8], at(23_000_000));
    m.on_authenticated_datagram(&b, 90);
    let (_, probe) = m.probe().unwrap();
    assert_eq!(probe.bytes_received(), 90);
    assert!(!probe.is_validated(), "authenticated bytes are not path validation");
    assert!(probe.can_send(270));
    assert!(!probe.can_send(271));
    assert_eq!(m.active_limiter().bytes_received(), 0, "the probe's bytes stay the probe's");
}

#[test]
fn a_matching_response_moves_the_path_and_promotes_the_probe() {
    let a = addr("127.0.0.1:5000");
    let b = addr("127.0.0.1:6100");
    let mut m = PathManager::new(a.duplicate(), 3, true);
    let t0 = at(24_000_000);
    m.trigger_path_challenge(b.duplicate(), [0xB3; 8], t0);
    m.on_authenticated_datagram(&b, 40);
    // A wrong nonce, or the right nonce from the wrong address, does nothing.
    assert!(m.on_path_response(&b, &[0xB0; 8], t0).is_none());
    assert!(m.on_path_response(&a, &[0xB3; 8], t0).is_none());
    assert!(m.probe().is_some());
    let moved = m.on_path_response(&b, &[0xB3; 8], t0 + Duration::from_millis(20));
    assert_eq!(moved.unwrap().as_bytes(), b"127.0.0.1:5000");
    assert_eq!(m.active_path().as_bytes(), b"127.0.0.1:6100");
    assert!(m.active_limiter().is_validated());
    assert_eq!(m.active_limiter().bytes_received(), 40, "the probe's budget was promoted");
    assert!(m.probe().is_none());
    // The challenge was consumed: answering it again changes nothing.
    assert!(m.on_path_response(&b, &[0xB3; 8], t0 + Duration::from_millis(30)).is_none());
}

#[test]
fn a_late_response_is_refused() {
    let b = addr("127.0.0.1:6100");
    let mut m = PathManager::new(addr("127.0.0.1:5000"), 3, true);
    let t0 = at(1_000_000);
    m.trigger_path_challenge(b.duplicate(), [7; 8], t0);
    assert!(m.on_path_response(&b, &[7; 8], t0 + Duration::from_millis(3001)).is_none());
    assert_eq!(m.active_path().as_bytes(), b"127.0.0.1:5000");
}

#[test]
fn answering_a_challenge_of_the_active_path_is_not_a_move() {
    let a = addr("127.0.0.1:5000");
    let mut m = PathManager::new(a.duplicate(), 3, true);
    m.trigger_path_challenge(a.duplicate(), [0xE3; 8], at(13_000_000));
    assert!(m.on_path_response(&a, &[0xE3; 8], at(13_050_000)).is_none());
    assert_eq!(m.active_path().as_bytes(), b"127.0.0.1:5000");
}

#[test]
fn returning_to_a_former_path_revalidates_it() {
    let a = addr("127.0.0.1:5000");
    let b = addr("127.0.0.1:6100");
    let mut m = PathManager::new(a.duplicate(), 3, true);
    let t0 = at(25_000_000);
    m.trigger_path_challenge(b.duplicate(), [0xB4; 8], t0);
    assert!(m.on_path_response(&b, &[0xB4; 8], t0).is_some());
    m.trigger_path_challenge(a.duplicate(), [0xB5; 8], t0 + Duration::from_millis(40));
    let (probe_addr, probe) = m.probe().expect("returning to A opens a fresh probe");
    assert_eq!(probe_addr.as_bytes(), b"127.0.0.1:5000");
    assert!(!probe.is_validated());
    assert_eq!(probe.bytes_received(), 0);
    assert!(!probe.can_send(1));
}

#[test]
fn only_the_active_path_is_answered_once_per_datagram_within_the_queue_cap() {
    let a = addr("127.0.0.1:5000");
    let mut m = PathManager::new(a.duplicate(), 3, true);
    assert!(m.may_answer_challenge(&a, 0, 0));
    assert!(!m.may_answer_challenge(&a, 1, 0), "one response per datagram");
    assert!(!m.may_answer_challenge(&a, 0, MAX_PENDING_PATH_RESPONSES), "the queue cap holds");
    assert!(!m.may_answer_challenge(&addr("198.51.100.23:4444"), 0, 0), "third parties are never answered");
    let probe = addr("127.0.0.1:6100");
    m.trigger_path_challenge(probe.duplicate(), [0xE1; 8], at(34_000_000));
    assert!(!m.may_answer_challenge(&probe, 0, 0), "an address we merely named is not answered");
}

#[test]
fn an_expired_challenge_stops_crediting_the_probe() {
    let b = addr("127.0.0.1:6100");
    let mut m = PathManager::new(addr("127.0.0.1:5000"), 3, true);
    let t0 = at(1_000_000);
    m.trigger_path_challenge(b.duplicate(), [1; 8], t0);
    m.expire(t0 + Duration::from_millis(3001));
    m.on_authenticated_datagram(&b, 500);
    let (_, probe) = m.probe().unwrap();
    assert_eq!(probe.bytes_received(), 0, "probe state cannot outlive its challenge");
}
