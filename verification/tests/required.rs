use gtp::aead::GtpAeadProtector;
use gtp::anti_amplification::AntiAmplificationLimiter;
use gtp::handshake::DirectionalKeys;
use gtp::io::{ecn_from_tos, is_transient_recv};
use gtp::report::MeasurementReport;
use gtp::route::PathStats;
use gtp::select::{health, HealthVerdict};
use std::io::ErrorKind;

fn clean(id: u32) -> PathStats {
    PathStats::full(id, 1_000, 300, 1_000, 300, 30_000, 60, 0, 0)
}

#[test]
fn debug_does_not_leak_keys() {
    let protector = GtpAeadProtector::new([0xABu8; 32], [0xCDu8; 12]);
    let rendered = protector.debug_string();
    assert!(!rendered.contains("171")); // 0xAB decimal
    assert!(rendered.contains("REDACTED"));
}

#[test]
fn debug_does_not_leak_directional_keys() {
    let keys = DirectionalKeys {
        client_tx_key: [0xA1; 32],
        client_tx_iv: [0xB2; 12],
        server_tx_key: [0xC3; 32],
        server_tx_iv: [0xD4; 12],
    };
    let rendered = keys.debug_string();
    assert!(rendered.contains("DirectionalKeys"));
    assert_eq!(rendered.matches("[REDACTED]").count(), 4);
    assert!(!rendered.contains("161")); // 0xA1
    assert!(!rendered.contains("178")); // 0xB2
    assert!(!rendered.contains(&format!("{:?}", keys.client_tx_key)));
}

#[test]
fn transient_recv_kinds_end_the_batch_instead_of_erroring() {
    for kind in [
        ErrorKind::WouldBlock,
        ErrorKind::ConnectionReset,
        ErrorKind::ConnectionRefused,
        ErrorKind::Interrupted,
    ] {
        assert!(is_transient_recv(kind), "{kind:?} must be transient");
    }
    assert!(!is_transient_recv(ErrorKind::AddrInUse));
    assert!(!is_transient_recv(ErrorKind::UnexpectedEof));
}

#[test]
fn ecn_codepoint_mapping() {
    assert_eq!(ecn_from_tos(0x00), 0b00, "Not-ECT");
    assert_eq!(ecn_from_tos(0x01), 0b01, "ECT(1)");
    assert_eq!(ecn_from_tos(0x02), 0b10, "ECT(0)");
    assert_eq!(ecn_from_tos(0x03), 0b11, "CE");
    assert_eq!(ecn_from_tos(0b1010_10), 0b10);
    assert_eq!(ecn_from_tos(0b1100_11), 0b11);
}

#[test]
fn test_anti_amplification_3x_boundary() {
    let mut limiter = AntiAmplificationLimiter::new();
    limiter.on_bytes_received(100); // 100 bytes received -> max 300 allowed

    assert!(limiter.can_send(300));
    assert!(!limiter.can_send(301));

    limiter.on_bytes_sent(200);
    assert!(limiter.can_send(100));
    assert!(!limiter.can_send(101));

    limiter.mark_validated();
    assert!(limiter.can_send(10_000)); // Uncapped after validation
}

#[test]
fn configured_factor_is_honored() {
    let mut limiter = AntiAmplificationLimiter::with_factor(10);
    limiter.on_bytes_received(100);

    assert!(limiter.can_send(1_000));
    assert!(!limiter.can_send(1_001));
}

#[test]
fn factor_is_floored_at_one() {
    let mut limiter = AntiAmplificationLimiter::with_factor(0);
    limiter.on_bytes_received(100);

    assert!(limiter.can_send(100));
    assert!(!limiter.can_send(101));
}

#[test]
fn report_roundtrips_exactly() {
    let r = MeasurementReport {
        owd_var_us: Some(4_032),
        jitter_us: Some(537),
        srtt_us: Some(51_379),
        samples: 812,
    };
    assert_eq!(r.encode(), "GTPRP1|4032|537|51379|812");
    assert_eq!(MeasurementReport::parse(&r.encode()), Some(r));

    let empty = MeasurementReport::default();
    assert_eq!(empty.encode(), "GTPRP1|-|-|-|0");
    assert_eq!(MeasurementReport::parse(&empty.encode()), Some(empty));
}

#[test]
fn malformed_reports_are_rejected_whole() {
    assert_eq!(MeasurementReport::parse("GTPRP1|1|2|3"), None, "missing field");
    assert_eq!(MeasurementReport::parse("GTPRP1|1|2|3|4|5"), None, "trailing junk");
    assert_eq!(MeasurementReport::parse("GTPRP2|1|2|3|4"), None, "wrong version");
    assert_eq!(MeasurementReport::parse("GTPRP1|x|2|3|4"), None, "bad number");
    assert_eq!(MeasurementReport::parse(""), None);
    let r = MeasurementReport::parse("GTPRP1|-|5|-|9").unwrap();
    assert_eq!(r.jitter_us, Some(5));
    assert_eq!(r.owd_var_us, None);
    assert_eq!(r.srtt_us, None);
    assert_eq!(r.samples, 9);
}

#[test]
fn merging_builds_the_bidirectional_picture() {
    let report = MeasurementReport {
        owd_var_us: Some(2_000),
        jitter_us: Some(400),
        srtt_us: Some(50_000),
        samples: 100,
    };
    let local = PathStats {
        rev_owd_var_us: Some(1_500),
        rev_jitter_us: Some(300),
        rtt_us: Some(49_000),
        sample_count: 90,
        ..Default::default()
    };
    let stats = report.into_path_stats(7, &local);
    assert_eq!(stats.fwd_owd_var_us, Some(2_000));
    assert_eq!(stats.rev_jitter_us, Some(300));
    assert_eq!(stats.rtt_us, Some(49_000), "local RTT wins when present");
    assert_eq!(stats.sample_count, 90, "conservative basis: smaller side");
}

#[test]
fn health_flags_the_worst_axis() {
    assert_eq!(health(&clean(1)), HealthVerdict::Healthy);

    let mut bad = clean(1);
    bad.rev_owd_var_us = Some(40_000);
    assert_eq!(health(&bad), HealthVerdict::Degraded("rev_owd_var"));

    assert_eq!(health(&PathStats::default()), HealthVerdict::InsufficientData);
}

#[test]
fn s06_one_sided_impairment_flags_the_correct_axis() {
    let fwd_bad = PathStats::full(1, 40_000, 15_000, 1_000, 300, 30_000, 60, 0, 0);
    match health(&fwd_bad) {
        HealthVerdict::Degraded(axis) => {
            assert!(axis.starts_with("fwd"), "forward impairment flags a fwd axis, got {axis}");
        }
        other => panic!("forward impairment must degrade: {other:?}"),
    }
    let rev_bad = PathStats::full(2, 1_000, 300, 40_000, 15_000, 30_000, 60, 0, 0);
    match health(&rev_bad) {
        HealthVerdict::Degraded(axis) => {
            assert!(axis.starts_with("rev"), "reverse impairment flags a rev axis, got {axis}");
        }
        other => panic!("reverse impairment must degrade: {other:?}"),
    }
}
