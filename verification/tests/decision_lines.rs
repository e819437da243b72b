use gtp::decision_line::{encode_decision_line, parse_candidate, parse_decision_line, CandidateFields, DecisionHeader};
use gtp::decision_log::PolicyClass;
use gtp::select::SelectionReason;

fn chars(s: &str) -> Vec<char> {
    s.chars().collect()
}

fn header() -> DecisionHeader {
    DecisionHeader {
        decision_id: 4,
        connection_id: 0xAC92,
        policy_class: PolicyClass::Shadow,
        measurement_window_us: Some(10_000),
        previous_path: None,
        selected_path: Some(7),
        runner_up: Some(2),
        reason: SelectionReason::ClearWinner,
    }
}

fn candidate(path_id: u32, score: Option<&str>, conf: &str, age: Option<u64>) -> CandidateFields {
    CandidateFields {
        path_id,
        score: score.map(chars),
        confidence: chars(conf),
        freshness: chars("1.0000"),
        effective: score.map(chars),
        age_us: age,
    }
}

#[test]
fn header_line_encodes_with_upper_hex_connection() {
    let line = encode_decision_line(&header(), &[]);
    assert_eq!(line, "GTPDL1|4|AC92|SHADOW|10000|-|7|2|CLEAR_WINNER");
}

#[test]
fn decision_line_roundtrips_with_candidates() {
    let cands = vec![
        candidate(7, Some("0.9812"), "1.0000", Some(0)),
        candidate(2, None, "0.5000", None),
    ];
    let line = encode_decision_line(&header(), &cands);
    assert_eq!(
        line,
        "GTPDL1|4|AC92|SHADOW|10000|-|7|2|CLEAR_WINNER|7:0.9812:1.0000:1.0000:0.9812:0|2:-:0.5000:1.0000:-:-"
    );
    let (h, parsed) = parse_decision_line(&line).expect("valid line must parse");
    assert_eq!(h, header());
    assert_eq!(parsed, cands);
    assert_eq!(encode_decision_line(&h, &parsed), line);
}

#[test]
fn lower_case_and_plus_signed_hex_are_accepted() {
    let (h, c) = parse_decision_line("GTPDL1|+4|ac92|FAILOVER|-|1|-|-|NO_CANDIDATES").unwrap();
    assert_eq!(h.decision_id, 4);
    assert_eq!(h.connection_id, 0xAC92);
    assert_eq!(h.policy_class, PolicyClass::Failover);
    assert_eq!(h.measurement_window_us, None);
    assert_eq!(h.previous_path, Some(1));
    assert_eq!(h.reason, SelectionReason::NoCandidates);
    assert!(c.is_empty());
}

#[test]
fn malformed_decision_lines_are_rejected_whole() {
    assert!(parse_decision_line("").is_none());
    assert!(parse_decision_line("GTPDL2|1|1|SHADOW|1|-|1|-|NO_CANDIDATES").is_none());
    assert!(parse_decision_line("GTPDL1|x|1|SHADOW|1|-|1|-|NO_CANDIDATES").is_none());
    assert!(parse_decision_line("GTPDL1|0|1|BOGUS|1|-|1|-|NO_CANDIDATES").is_none());
    // A missing header field, a connection id that overflows, a bad reason.
    assert!(parse_decision_line("GTPDL1|0|1|SHADOW|1|-|1|-").is_none());
    assert!(parse_decision_line("GTPDL1|0|10000000000000000|SHADOW|1|-|1|-|NO_CANDIDATES").is_none());
    assert!(parse_decision_line("GTPDL1|0|1|SHADOW|1|-|1|-|MAYBE").is_none());
    // One bad candidate rejects the whole line, even after good ones.
    assert!(parse_decision_line("GTPDL1|0|1|SHADOW|1|-|1|-|CLEAR_WINNER|1:-:1:1:-:-|").is_none());
    assert!(parse_decision_line("GTPDL1|0|1|SHADOW|1|-|1|-|CLEAR_WINNER|1:-:1:1:-:-|2:-:1:1:-").is_none());
}

#[test]
fn candidate_entries_need_exactly_six_fields() {
    let c = parse_candidate(&chars("7:0.9:1:1:0.9:250")).unwrap();
    assert_eq!(c.path_id, 7);
    assert_eq!(c.score, Some(chars("0.9")));
    assert_eq!(c.age_us, Some(250));
    assert!(parse_candidate(&chars("7:0.9:1:1:0.9")).is_none());
    assert!(parse_candidate(&chars("7:0.9:1:1:0.9:-:x")).is_none());
    assert!(parse_candidate(&chars("x:0.9:1:1:0.9:-")).is_none());
    assert!(parse_candidate(&chars("7:0.9:1:1:0.9:abc")).is_none());
}
