use gtp::ack_tracker::{AckRange, AckTracker};
use gtp::loss_detector::{
    parse_ack_ranges, LossDetector, MAX_ACKED_PER_FRAME, MAX_PTO_BACKOFF_EXPONENT, MAX_PTO_RETRANSMIT_BURST,
};
use gtp::sent_packet::{RetransmissionRecord, SentPacketRecord};
use gtp::types::{Duration, FragmentId, MessageId, MonotonicTime, PacketNumber, TransmissionId};
use std::collections::HashSet;

fn record(pn: u64) -> SentPacketRecord {
    SentPacketRecord {
        packet_number: PacketNumber(pn),
        send_time: MonotonicTime::from_micros(1_000_000),
        bytes: 100,
        ack_eliciting: true,
        in_flight: true,
        retransmittable_frames: vec![RetransmissionRecord {
            message_id: MessageId(pn),
            fragment_id: FragmentId(0),
            transmission_id: TransmissionId(1),
            group_id: 0,
            order_seq: 0,
            total_fragments: 1,
            payload: b"critical_game_event".to_vec(),
        }],
    }
}

#[test]
fn test_ack_tracker_contiguous_packets() {
    let mut tracker = AckTracker::new();
    let now = MonotonicTime::from_micros(1_000_000);

    tracker.on_packet_received(PacketNumber(1), true, 0, now);
    assert!(!tracker.should_send_ack(now));

    tracker.on_packet_received(PacketNumber(2), true, 0, now);
    assert!(tracker.should_send_ack(now));

    let ack = tracker.generate_ack_frame(now).unwrap();
    assert_eq!(ack.largest_acked, PacketNumber(2));
    assert_eq!(ack.range_count, 1);
    assert_eq!(ack.ranges[0].gap, 0);
    assert_eq!(ack.ranges[0].length, 1); // covers [2, 1]
}

#[test]
fn test_ack_tracker_sparse_gap_detection() {
    let mut tracker = AckTracker::new();
    let now = MonotonicTime::from_micros(1_000_000);

    tracker.on_packet_received(PacketNumber(1), true, 0, now);
    tracker.on_packet_received(PacketNumber(3), true, 0, now); // Packet 2 missing!

    assert!(tracker.should_send_ack(now)); // Gap triggers immediate ACK

    let ack = tracker.generate_ack_frame(now).unwrap();
    assert_eq!(ack.largest_acked, PacketNumber(3));
    assert_eq!(ack.range_count, 2);
    assert_eq!(ack.ranges[0].length, 0); // [3]
    assert_eq!(ack.ranges[1].gap, 1); // gap of 1 packet (packet 2)
    assert_eq!(ack.ranges[1].length, 0); // [1]
}

#[test]
fn ack_intervals_pruned_and_coalesced() {
    let mut tracker = AckTracker::new();
    let t0 = MonotonicTime::from_micros(1_000_000);

    for pn in 1..=50u64 {
        tracker.on_packet_received(PacketNumber(pn * 2), true, 0, t0); // 50 disjoint intervals
    }
    assert!(tracker.interval_count() > 10);

    tracker.on_packet_received(PacketNumber(500_000), true, 0, t0);
    assert!(tracker.interval_count() <= 32, "intervals must be pruned to stay within the frame budget");

    let frame = tracker.generate_ack_frame(t0).unwrap();
    assert_eq!(frame.largest_acked, PacketNumber(500_000));
}

#[test]
fn policy_config_drives_ack_behavior() {
    let t0 = MonotonicTime::from_micros(1_000_000);

    let mut tracker = AckTracker::with_policy(4, Duration::from_millis(25));
    tracker.on_packet_received(PacketNumber(1), true, 0, t0);
    tracker.on_packet_received(PacketNumber(2), true, 0, t0);
    assert!(!tracker.should_send_ack(t0), "2 < 4 packets must not ack");
    tracker.on_packet_received(PacketNumber(3), true, 0, t0);
    tracker.on_packet_received(PacketNumber(4), true, 0, t0);
    assert!(tracker.should_send_ack(t0));

    let mut patient = AckTracker::with_policy(8, Duration::from_millis(10));
    patient.on_packet_received(PacketNumber(1), true, 0, t0);
    assert!(!patient.should_send_ack(t0 + Duration::from_millis(5)));
    assert!(patient.should_send_ack(t0 + Duration::from_millis(11)));

    patient.set_policy(1, Duration::from_millis(25));
    patient.on_packet_received(PacketNumber(2), true, 0, t0);
    assert!(patient.should_send_ack(t0));
}

#[test]
fn test_loss_detection_via_packet_threshold() {
    let mut detector = LossDetector::new();
    let now = MonotonicTime::from_micros(1_000_000);

    for pn in 1..=4 {
        detector.on_packet_sent(record(pn));
    }
    assert_eq!(detector.inflight_bytes(), 400);

    // ACK for packet 4 only: packet 1 is lost (4 >= 1 + 3)
    let ranges = [AckRange { gap: 0, length: 0 }];
    let (ack_ev, loss_ev, _) =
        detector.on_ack_received(PacketNumber(4), 0, &ranges, 1, now + Duration::from_millis(50));

    assert_eq!(ack_ev.acked_packets.len(), 1);
    assert_eq!(ack_ev.acked_packets[0].packet_number, PacketNumber(4));

    assert_eq!(loss_ev.lost_packets.len(), 1);
    assert_eq!(loss_ev.lost_packets[0].packet_number, PacketNumber(1));
    assert_eq!(loss_ev.retransmittable.len(), 1);
    assert_eq!(loss_ev.retransmittable[0].message_id, MessageId(1));
}

#[test]
fn ack_ranges_multi_gap_roundtrip_exact() {
    let mut tracker_received: Vec<u64> = Vec::new();
    let mut tracker = AckTracker::new();
    let t0 = MonotonicTime::from_micros(1_000_000);
    for pn in [1u64, 2, 3, 4, 5, 8, 9, 10, 20, 21, 22] {
        tracker.on_packet_received(PacketNumber(pn), true, 0, t0);
        tracker_received.push(pn);
    }

    let frame = tracker.generate_ack_frame(t0).unwrap();
    let mut detector = LossDetector::new();
    for pn in 1..=22 {
        detector.on_packet_sent(record(pn));
    }

    let (ack_ev, _, _) =
        detector.on_ack_received(frame.largest_acked, 0, &frame.ranges, frame.range_count as usize, t0);

    let acked_set: HashSet<u64> = ack_ev.acked_packets.iter().map(|r| r.packet_number.as_u64()).collect();
    let received_set: HashSet<u64> = tracker_received.into_iter().collect();

    assert_eq!(acked_set, received_set, "acked set must equal received set exactly");
    for phantom in [6u64, 7, 17, 18, 19] {
        assert!(!acked_set.contains(&phantom), "phantom ack for {}", phantom);
    }
}

#[test]
fn ack_ranges_property_sweep_seeded() {
    let mut lcg: u64 = 0x9E3779B97F4A7C15;
    let mut next = move || {
        lcg ^= lcg << 13;
        lcg ^= lcg >> 7;
        lcg ^= lcg << 17;
        lcg
    };

    for _case in 0..64 {
        let mut tracker = AckTracker::new();
        let t0 = MonotonicTime::from_micros(1_000_000);
        let mut detector = LossDetector::new();
        let mut received = Vec::new();

        let total: u64 = 30 + next() % 90;
        for pn in 1..=total {
            detector.on_packet_sent(record(pn));
            let roll = next() % 100;
            let delivered = roll < 82 || next() % 3 == 0;
            if delivered {
                tracker.on_packet_received(PacketNumber(pn), true, 0, t0);
                received.push(pn);
            }
        }

        if let Some(frame) = tracker.generate_ack_frame(t0) {
            let (ack_ev, _, _) =
                detector.on_ack_received(frame.largest_acked, 0, &frame.ranges, frame.range_count as usize, t0);
            let acked: HashSet<u64> = ack_ev.acked_packets.iter().map(|r| r.packet_number.as_u64()).collect();
            let expect: HashSet<u64> = received.iter().copied().collect();

            assert!(acked.is_subset(&expect), "phantom ack detected in seeded ACK property case");
            if tracker.interval_count() <= 32 {
                assert_eq!(acked, expect, "round-trip mismatch in seeded ACK property case");
            }
        }
    }
}

#[test]
fn optimistic_ack_rejected() {
    let mut detector = LossDetector::new();
    let now = MonotonicTime::from_micros(1_000_000);
    detector.on_packet_sent(record(1));

    let ranges = [AckRange { gap: 0, length: 1000 }];
    let (ack_ev, loss_ev, _) = detector.on_ack_received(PacketNumber(5000), 0, &ranges, 1, now);

    assert!(ack_ev.acked_packets.is_empty());
    assert!(loss_ev.lost_packets.is_empty());
    assert_eq!(detector.inflight_bytes(), 100); // untouched
}

#[test]
fn oversized_ack_ranges_capped() {
    let mut detector = LossDetector::new();
    let now = MonotonicTime::from_micros(1_000_000);
    detector.on_packet_sent(record(1));

    let ranges = [AckRange { gap: 0, length: u32::MAX }];
    let (ack_ev, _, _) = detector.on_ack_received(PacketNumber(1), 0, &ranges, 1, now);
    assert!(ack_ev.acked_packets.len() as u64 <= MAX_ACKED_PER_FRAME);
}

#[test]
fn ack_only_packets_never_declared_lost() {
    let mut detector = LossDetector::new();
    let now = MonotonicTime::from_micros(1_000_000);

    let mut ack_only = record(1);
    ack_only.in_flight = false;
    ack_only.ack_eliciting = false;
    detector.on_packet_sent(ack_only);

    for pn in 2..=6 {
        detector.on_packet_sent(record(pn));
    }

    let ranges = [AckRange { gap: 0, length: 0 }];
    let (ack_ev, loss_ev, _) =
        detector.on_ack_received(PacketNumber(6), 0, &ranges, 1, now + Duration::from_millis(20));

    assert!(!loss_ev.lost_packets.iter().any(|r| r.packet_number == PacketNumber(1)));
    assert!(!ack_ev.acked_packets.iter().any(|r| r.packet_number == PacketNumber(1)));
    assert_eq!(loss_ev.lost_packets.len(), 2);
    assert_eq!(ack_ev.bytes_acked, 100);
    assert_eq!(detector.inflight_bytes(), 200); // PNs 4,5 still in flight
}

#[test]
fn pto_burst_capped_and_drains_records() {
    let mut detector = LossDetector::new();
    let now = MonotonicTime::from_micros(1_000_000);
    for pn in 1..=10 {
        detector.on_packet_sent(record(pn));
    }

    let ev1 = detector.on_timeout(now);
    assert_eq!(ev1.retransmittable.len(), 2); // burst cap
    assert_eq!(detector.outstanding_count(), 8); // records removed

    let ev2 = detector.on_timeout(now);
    assert_eq!(ev2.retransmittable.len(), 2);
    assert_eq!(detector.outstanding_count(), 6);

    let base = detector.rtt_stats.pto_duration();
    let max_pto = Duration::from_millis(10_000);
    let b1 = detector.pto_duration_with_backoff(max_pto);
    assert!(b1 > base);
    for _ in 0..40 {
        detector.on_timeout(now);
    }
    assert!(detector.pto_count >= MAX_PTO_BACKOFF_EXPONENT);
    let capped = detector.pto_duration_with_backoff(Duration::from_millis(500));
    assert_eq!(capped, Duration::from_millis(500));
}

#[test]
fn pto_drain_reports_bytes_for_congestion_settlement() {
    let mut detector = LossDetector::new();
    let now = MonotonicTime::from_micros(1_000_000);

    for pn in 1..=2u64 {
        detector.on_packet_sent(SentPacketRecord {
            packet_number: PacketNumber(pn),
            send_time: now,
            bytes: 100,
            ack_eliciting: true,
            in_flight: true,
            retransmittable_frames: Vec::new(),
        });
    }
    assert_eq!(detector.inflight_bytes(), 200);

    let ev = detector.on_timeout(now);
    assert_eq!(ev.bytes_lost, 200, "drained bytes must be reported to the controller");
    assert!(ev.lost_packets.is_empty(), "a PTO is a probe, not a loss declaration");
    assert_eq!(detector.inflight_bytes(), 0);
}

#[test]
fn inflight_is_a_single_source_and_pto_drain_sheds_it() {
    let mut detector = LossDetector::new();
    let now = MonotonicTime::from_micros(1_000_000);

    for pn in 1..=5 {
        detector.on_packet_sent(record(pn));
    }
    assert_eq!(detector.inflight_bytes(), 500);

    detector.on_timeout(now);
    assert_eq!(
        detector.inflight_bytes(),
        500 - (MAX_PTO_RETRANSMIT_BURST as u64) * 100,
        "drained records must leave the single in-flight source"
    );

    let ranges = [AckRange { gap: 0, length: 4 }];
    let _ = detector.on_ack_received(PacketNumber(5), 0, &ranges, 1, now);
    assert_eq!(detector.inflight_bytes(), 0);
}

// The oldest in-flight packets are the ones a probe timeout drains, and
// their frames come back in packet-number order.
#[test]
fn pto_drains_the_oldest_in_flight_first() {
    let mut detector = LossDetector::new();
    let now = MonotonicTime::from_micros(1_000_000);
    let mut ack_only = record(1);
    ack_only.in_flight = false;
    detector.on_packet_sent(ack_only);
    for pn in [7u64, 3, 5] {
        detector.on_packet_sent(record(pn));
    }
    let ev = detector.on_timeout(now);
    let ids: Vec<u64> = ev.retransmittable.iter().map(|f| f.message_id.0).collect();
    assert_eq!(ids, vec![3, 5]);
    assert_eq!(ev.bytes_lost, 200);
    assert_eq!(detector.outstanding_count(), 2);
    assert_eq!(detector.inflight_bytes(), 100);
}

// Lost packets come out in increasing packet-number order, by time
// threshold too.
#[test]
fn time_threshold_declares_old_packets_lost_in_order() {
    let mut detector = LossDetector::new();
    let t0 = MonotonicTime::from_micros(1_000_000);
    for pn in 1..=2 {
        detector.on_packet_sent(record(pn));
    }
    let mut third = record(3);
    third.send_time = t0 + Duration::from_millis(900);
    detector.on_packet_sent(third);
    // ACK 3 at 1 s: an RTT of 100 ms, so 1 and 2 (sent 1 s ago) are far past
    // 9/8 of it although within the packet threshold.
    let ranges = [AckRange { gap: 0, length: 0 }];
    let (ack_ev, loss_ev, _) =
        detector.on_ack_received(PacketNumber(3), 0, &ranges, 1, t0 + Duration::from_millis(1_000));
    assert_eq!(ack_ev.acked_packets.len(), 1);
    assert_eq!(ack_ev.rtt_sample, Some(Duration::from_millis(100)));
    let lost: Vec<u64> = loss_ev.lost_packets.iter().map(|r| r.packet_number.0).collect();
    assert_eq!(lost, vec![1, 2]);
    assert_eq!(loss_ev.bytes_lost, 200);
    assert!(detector.has_received_ack());
}

#[test]
fn parse_ack_ranges_walks_gaps_exactly() {
    // largest 10: [10, 9], skip 2 (8, 7), then [6]; a malformed third range stops the walk.
    let ranges = [
        AckRange { gap: 0, length: 1 },
        AckRange { gap: 2, length: 0 },
        AckRange { gap: 100, length: 0 },
    ];
    assert_eq!(parse_ack_ranges(10, &ranges, 3), vec![10, 9, 6]);
    assert_eq!(parse_ack_ranges(10, &ranges, 1), vec![10, 9]);
    assert_eq!(parse_ack_ranges(10, &ranges, 0), Vec::<u64>::new());
}

#[test]
fn delivery_sample_after_a_millisecond() {
    let mut detector = LossDetector::new();
    let t0 = MonotonicTime::from_micros(1_000_000);
    for pn in 1..=2 {
        detector.on_packet_sent(record(pn));
    }
    let r = [AckRange { gap: 0, length: 0 }];
    let (_, _, first) = detector.on_ack_received(PacketNumber(1), 0, &r, 1, t0);
    assert!(first.is_none(), "the first ACK only starts the clock");
    let (_, _, second) = detector.on_ack_received(PacketNumber(2), 0, &r, 1, t0 + Duration::from_millis(2));
    let s = second.unwrap();
    assert_eq!(s.delivered_bytes, 100);
    assert_eq!(s.interval, Duration::from_millis(2));
}

#[test]
fn ack_splits_outstanding_packets_three_ways() {
    let mut detector = LossDetector::new();
    let now = MonotonicTime::from_micros(1_000_000);
    for pn in 1..=12 {
        detector.on_packet_sent(record(pn));
    }
    let ranges = [AckRange { gap: 0, length: 1 }, AckRange { gap: 2, length: 0 }];
    let covered: HashSet<u64> = parse_ack_ranges(12, &ranges, 2).into_iter().collect();
    let (ack_ev, loss_ev, _) = detector.on_ack_received(PacketNumber(12), 0, &ranges, 2, now);
    let acked: HashSet<u64> = ack_ev.acked_packets.iter().map(|r| r.packet_number.0).collect();
    let lost: HashSet<u64> = loss_ev.lost_packets.iter().map(|r| r.packet_number.0).collect();
    assert_eq!(acked.len(), ack_ev.acked_packets.len(), "each acknowledged once");
    assert_eq!(acked, covered, "nothing acknowledged that the frame does not cover");
    assert!(acked.is_disjoint(&lost));
    assert_eq!(acked.len() + lost.len() + detector.outstanding_count(), 12);
    assert!(lost.iter().all(|&pn| pn <= 12));
    assert_eq!(ack_ev.bytes_acked, 100 * acked.len());
    assert_eq!(detector.inflight_bytes(), 100 * detector.outstanding_count() as u64);
    assert_eq!(detector.pto_count(), 0);
    assert_eq!(detector.rtt_stats().latest(), detector.rtt_stats.latest_rtt);
}
