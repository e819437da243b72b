use gtp::decision_log::DecisionTracker;
use gtp::select::SelectionReason;
use gtp::switch::{SwitchController, SwitchDecision, SwitchPolicy};
use gtp::types::{Duration, MonotonicTime};

fn ms(m: u64) -> Duration {
    Duration::from_millis(m)
}

#[test]
fn tracker_counts_switches_holds_and_reverts() {
    let mut t: DecisionTracker<(u64, Option<u32>)> = DecisionTracker::new(8);
    let id1 = t.record(Some(7), Some(1_000_000), (0, Some(7)));
    assert_eq!(id1, 0);
    assert_eq!(t.switch_count, 0, "no previous path: not a switch");
    t.record(Some(7), Some(2_000_000), (1, Some(7)));
    // A hold records too, and changes nothing.
    t.record(None, Some(2_500_000), (2, None));
    t.record(Some(2), Some(3_000_000), (3, Some(2)));
    assert_eq!(t.switch_count, 1);
    assert_eq!(t.decisions, 4, "holds record too");
    assert_eq!(t.previous_path(), Some(2));
    assert_eq!(t.last_dwell_us, None, "one switch: no dwell yet");
    t.record(Some(7), Some(4_000_000), (4, Some(7)));
    assert_eq!(t.switch_count, 2);
    assert_eq!(t.last_dwell_us, Some(1_000_000), "second switch measures dwell");
    assert_eq!(t.revert_count, 1, "straight back to the path before is a revert");
    assert_eq!(t.next_decision_id(), 5);
}

#[test]
fn tracker_ring_is_bounded_and_drops_are_counted() {
    let mut t: DecisionTracker<u64> = DecisionTracker::new(2);
    for i in 0..5u32 {
        let id = t.next_decision_id();
        t.record(Some(i), None, id);
    }
    assert_eq!(t.decisions, 5);
    assert_eq!(t.dropped_records, 3, "shed the oldest beyond capacity");
    let ids: Vec<u64> = t.records().iter().copied().collect();
    assert_eq!(ids, vec![3, 4], "the newest records survive");
}

#[test]
fn tracker_without_capacity_drops_everything() {
    let mut t: DecisionTracker<u64> = DecisionTracker::new(0);
    t.record(Some(1), None, 0);
    assert_eq!(t.dropped_records, 1);
    assert!(t.records().is_empty());
}

#[test]
fn first_selection_is_adopted_without_a_switch() {
    let mut sc = SwitchController::new(SwitchPolicy::Enforce);
    let now = MonotonicTime::from_micros(1_000_000);
    let d = sc.decide(Some(1), SelectionReason::ClearWinner, now);
    assert_eq!(d, SwitchDecision::Hold { current: 1, reason: SelectionReason::ClearWinner });
    assert_eq!(sc.selected(), Some(1));
}

#[test]
fn switch_waits_for_the_dwell_floor() {
    let mut sc = SwitchController::new(SwitchPolicy::Enforce);
    let t0 = MonotonicTime::from_micros(1_000_000);
    sc.decide(Some(1), SelectionReason::ClearWinner, t0);
    let d = sc.decide(Some(2), SelectionReason::ClearWinner, t0 + ms(100));
    assert_eq!(d, SwitchDecision::Hold { current: 1, reason: SelectionReason::TieBreakLowerId });
    let d = sc.decide(Some(2), SelectionReason::ClearWinner, t0 + ms(300));
    assert_eq!(d, SwitchDecision::Switch { from: 1, to: 2, reason: SelectionReason::ClearWinner });
    assert_eq!(sc.selected(), Some(2));
}

#[test]
fn recovery_inside_the_revert_window_switches_back() {
    let mut sc = SwitchController::new(SwitchPolicy::Enforce);
    let t0 = MonotonicTime::from_micros(1_000_000);
    sc.decide(Some(1), SelectionReason::ClearWinner, t0);
    sc.decide(Some(2), SelectionReason::ClearWinner, t0 + ms(300));
    assert_eq!(sc.selected(), Some(2));
    let d = sc.decide(Some(1), SelectionReason::ClearWinner, t0 + ms(400));
    assert_eq!(d, SwitchDecision::Revert { from: 2, to: 1 });
    assert_eq!(sc.selected(), Some(1));
}

#[test]
fn shadow_controller_never_switches() {
    let mut sc = SwitchController::new(SwitchPolicy::Shadow);
    let t0 = MonotonicTime::from_micros(1_000_000);
    sc.decide(Some(1), SelectionReason::ClearWinner, t0);
    let d = sc.decide(Some(2), SelectionReason::ClearWinner, t0 + ms(300));
    assert_eq!(d, SwitchDecision::Hold { current: 1, reason: SelectionReason::ClearWinner });
    assert_eq!(sc.selected(), Some(1));
    assert_eq!(sc.evaluation_count(), 2);
}

#[test]
fn no_winner_holds_the_current_path() {
    let mut sc = SwitchController::new(SwitchPolicy::Enforce);
    let t0 = MonotonicTime::from_micros(1_000_000);
    let d = sc.decide(None, SelectionReason::NoCandidates, t0);
    assert_eq!(d, SwitchDecision::Hold { current: 0, reason: SelectionReason::NoCandidates });
    sc.decide(Some(4), SelectionReason::SingleCandidate, t0);
    let d = sc.decide(None, SelectionReason::StaleEvidenceHold, t0 + ms(1000));
    assert_eq!(d, SwitchDecision::Hold { current: 4, reason: SelectionReason::StaleEvidenceHold });
}

#[test]
fn tracker_ids_run_consecutively_and_counters_read_back() {
    let mut t: DecisionTracker<u64> = DecisionTracker::new(2);
    for expected in 0..6u64 {
        let id = t.record(Some((expected % 2) as u32), Some(expected * 1_000), expected);
        assert_eq!(id, expected);
    }
    assert_eq!(t.decisions(), 6);
    assert_eq!(t.dropped_records(), 4);
    assert_eq!(t.switch_count(), 5);
    assert_eq!(t.revert_count(), 4);
    assert_eq!(t.last_dwell_us(), Some(1_000));
    assert_eq!(t.decisions(), t.decisions);
    assert_eq!(t.dropped_records() + t.records().len() as u64, t.decisions());
}
