//! Selection reason codes and single-path health.
//!
//! The scoring and ranking of candidates is continuous (real-valued) and
//! lives outside this library; what is kept here is the exact, integer part:
//! the machine-readable reason codes of a selection, and the health verdict,
//! which compares each axis against its threshold and names the axis that
//! exceeds its threshold by the largest ratio.
use vstd::prelude::*;
use crate::route::PathStats;
use crate::text::chars_of;

verus! {

/// Why a selection came out the way it did — the machine-readable reason code.
#[derive(Clone, Copy, Debug, PartialEq, Eq, Structural)]
pub enum SelectionReason {
    /// The candidate list was empty.
    NoCandidates,
    /// The best candidate has no measured axis at all.
    InsufficientData,
    /// Every candidate sits below the confidence floor: confirmable, never
    /// fast-pickable. No winner is declared.
    ConfidenceFloorHold,
    /// The best candidate's evidence is stale. No winner is declared.
    StaleEvidenceHold,
    /// Exactly one candidate with usable data — trivially selected.
    SingleCandidate,
    /// The winner cleared the margin over the runner-up.
    ClearWinner,
    /// Top two within the margin — broken deterministically by lower id.
    TieBreakLowerId,
}

/// The stable code of each reason.
pub open spec fn reason_code(r: SelectionReason) -> Seq<char> {
    match r {
        SelectionReason::NoCandidates => "NO_CANDIDATES"@,
        SelectionReason::InsufficientData => "INSUFFICIENT_DATA"@,
        SelectionReason::ConfidenceFloorHold => "CONFIDENCE_FLOOR_HOLD"@,
        SelectionReason::StaleEvidenceHold => "STALE_EVIDENCE_HOLD"@,
        SelectionReason::SingleCandidate => "SINGLE_CANDIDATE"@,
        SelectionReason::ClearWinner => "CLEAR_WINNER"@,
        SelectionReason::TieBreakLowerId => "TIE_BREAK_LOWER_ID"@,
    }
}

/// The reason whose code is `s`, if any.
pub open spec fn reason_from_code(s: Seq<char>) -> Option<SelectionReason> {
    if s == "NO_CANDIDATES"@ {
        Some(SelectionReason::NoCandidates)
    } else if s == "INSUFFICIENT_DATA"@ {
        Some(SelectionReason::InsufficientData)
    } else if s == "CONFIDENCE_FLOOR_HOLD"@ {
        Some(SelectionReason::ConfidenceFloorHold)
    } else if s == "STALE_EVIDENCE_HOLD"@ {
        Some(SelectionReason::StaleEvidenceHold)
    } else if s == "SINGLE_CANDIDATE"@ {
        Some(SelectionReason::SingleCandidate)
    } else if s == "CLEAR_WINNER"@ {
        Some(SelectionReason::ClearWinner)
    } else if s == "TIE_BREAK_LOWER_ID"@ {
        Some(SelectionReason::TieBreakLowerId)
    } else {
        None
    }
}

/// Whether the characters `s` spell the literal `lit`.
pub fn chars_equal(s: &[char], lit: &str) -> (b: bool)
    ensures
        b == (s@ == lit@),
{
    let l = chars_of(lit);
    if s.len() != l.len() {
        return false;
    }
    let mut i: usize = 0;
    while i < s.len()
        invariant
            s@.len() == l@.len(),
            l@ == lit@,
            i <= s.len(),
            forall|k: int| 0 <= k < i ==> s@[k] == l@[k],
        decreases s.len() - i,
    {
        if s[i] != l[i] {
            return false;
        }
        i = i + 1;
    }
    assert(s@ =~= l@);
    true
}

impl SelectionReason {
    /// Stable machine-readable code for the decision log.
    pub fn code(&self) -> (c: &'static str)
        ensures
            c@ == reason_code(*self),
    {
        match self {
            SelectionReason::NoCandidates => "NO_CANDIDATES",
            SelectionReason::InsufficientData => "INSUFFICIENT_DATA",
            SelectionReason::ConfidenceFloorHold => "CONFIDENCE_FLOOR_HOLD",
            SelectionReason::StaleEvidenceHold => "STALE_EVIDENCE_HOLD",
            SelectionReason::SingleCandidate => "SINGLE_CANDIDATE",
            SelectionReason::ClearWinner => "CLEAR_WINNER",
            SelectionReason::TieBreakLowerId => "TIE_BREAK_LOWER_ID",
        }
    }

    /// Inverse of [`SelectionReason::code`].
    pub fn from_code(code: &str) -> (r: Option<SelectionReason>)
        ensures
            r == reason_from_code(code@),
    {
        let s = chars_of(code);
        SelectionReason::from_code_chars(s.as_slice())
    }

    /// Inverse of [`SelectionReason::code`], on the code's characters.
    pub fn from_code_chars(s: &[char]) -> (r: Option<SelectionReason>)
        ensures
            r == reason_from_code(s@),
    {
        if chars_equal(s, "NO_CANDIDATES") {
            Some(SelectionReason::NoCandidates)
        } else if chars_equal(s, "INSUFFICIENT_DATA") {
            Some(SelectionReason::InsufficientData)
        } else if chars_equal(s, "CONFIDENCE_FLOOR_HOLD") {
            Some(SelectionReason::ConfidenceFloorHold)
        } else if chars_equal(s, "STALE_EVIDENCE_HOLD") {
            Some(SelectionReason::StaleEvidenceHold)
        } else if chars_equal(s, "SINGLE_CANDIDATE") {
            Some(SelectionReason::SingleCandidate)
        } else if chars_equal(s, "CLEAR_WINNER") {
            Some(SelectionReason::ClearWinner)
        } else if chars_equal(s, "TIE_BREAK_LOWER_ID") {
            Some(SelectionReason::TieBreakLowerId)
        } else {
            None
        }
    }
}

/// Every reason code parses back to its reason.
pub proof fn lemma_reason_code_roundtrip(r: SelectionReason)
    ensures
        reason_from_code(reason_code(r)) == Some(r),
{
    reveal_strlit("NO_CANDIDATES");
    reveal_strlit("INSUFFICIENT_DATA");
    reveal_strlit("CONFIDENCE_FLOOR_HOLD");
    reveal_strlit("STALE_EVIDENCE_HOLD");
    reveal_strlit("SINGLE_CANDIDATE");
    reveal_strlit("CLEAR_WINNER");
    reveal_strlit("TIE_BREAK_LOWER_ID");
    // The seven codes have pairwise distinct lengths.
    assert("NO_CANDIDATES"@.len() == 13);
    assert("INSUFFICIENT_DATA"@.len() == 17);
    assert("CONFIDENCE_FLOOR_HOLD"@.len() == 21);
    assert("STALE_EVIDENCE_HOLD"@.len() == 19);
    assert("SINGLE_CANDIDATE"@.len() == 16);
    assert("CLEAR_WINNER"@.len() == 12);
    assert("TIE_BREAK_LOWER_ID"@.len() == 18);
}

/// Single-path health verdict for probe tooling.
#[derive(Clone, Copy, Debug, PartialEq, Eq)]
pub enum HealthVerdict {
    /// All measured axes inside the degradation thresholds.
    Healthy,
    /// The worst axis exceeded its threshold; carries the axis name.
    Degraded(&'static str),
    /// No axis measured.
    InsufficientData,
}

/// Variance threshold for [`health`], µs (half the saturation point).
pub const HEALTH_VAR_THRESHOLD_US: u32 = 25_000;
/// Jitter threshold for [`health`], µs.
pub const HEALTH_JITTER_THRESHOLD_US: u32 = 10_000;
/// RTT threshold for [`health`], µs.
pub const HEALTH_RTT_THRESHOLD_US: u32 = 150_000;

/// The worst offender so far: (axis index, value, threshold).
pub open spec fn consider(
    worst: Option<(int, int, int)>,
    idx: int,
    value: Option<u32>,
    threshold: int,
) -> Option<(int, int, int)> {
    match value {
        Some(v) => if v > threshold {
            match worst {
                None => Some((idx, v as int, threshold)),
                // v / threshold > w / u, compared exactly.
                Some((i, w, u)) => if v * u > w * threshold {
                    Some((idx, v as int, threshold))
                } else {
                    worst
                },
            }
        } else {
            worst
        },
        None => worst,
    }
}

/// The axis exceeding its threshold by the largest ratio; on equal ratios the
/// earlier axis in the order fwd_owd_var, rev_owd_var, fwd_jitter,
/// rev_jitter, rtt wins.
pub open spec fn worst_axis(s: PathStats) -> Option<(int, int, int)> {
    let w0 = consider(None, 0, s.fwd_owd_var_us, HEALTH_VAR_THRESHOLD_US as int);
    let w1 = consider(w0, 1, s.rev_owd_var_us, HEALTH_VAR_THRESHOLD_US as int);
    let w2 = consider(w1, 2, s.fwd_jitter_us, HEALTH_JITTER_THRESHOLD_US as int);
    let w3 = consider(w2, 3, s.rev_jitter_us, HEALTH_JITTER_THRESHOLD_US as int);
    consider(w3, 4, s.rtt_us, HEALTH_RTT_THRESHOLD_US as int)
}

/// The name of axis `i`.
pub open spec fn axis_name(i: int) -> Seq<char> {
    if i == 0 {
        "fwd_owd_var"@
    } else if i == 1 {
        "rev_owd_var"@
    } else if i == 2 {
        "fwd_jitter"@
    } else if i == 3 {
        "rev_jitter"@
    } else {
        "rtt"@
    }
}

/// Whether any axis is measured.
pub open spec fn any_axis(s: PathStats) -> bool {
    s.fwd_owd_var_us is Some || s.fwd_jitter_us is Some || s.rev_owd_var_us is Some
        || s.rev_jitter_us is Some || s.rtt_us is Some
}

proof fn lemma_u32_product_fits(a: u32, b: u32)
    ensures
        (a as int) * (b as int) <= u64::MAX,
{
    assert((a as int) * (b as int) <= (u32::MAX as int) * (u32::MAX as int)) by (nonlinear_arith)
        requires
            a <= u32::MAX,
            b <= u32::MAX,
            0 <= a,
            0 <= b,
    ;
}

fn consider_exec(
    worst: Option<(u8, u32, u32)>,
    idx: u8,
    value: Option<u32>,
    threshold: u32,
) -> (r: Option<(u8, u32, u32)>)
    ensures
        match (r, consider(
            match worst {
                Some((i, w, u)) => Some((i as int, w as int, u as int)),
                None => None,
            },
            idx as int,
            value,
            threshold as int,
        )) {
            (Some((i, w, u)), Some((i2, w2, u2))) => i == i2 && w == w2 && u == u2,
            (None, None) => true,
            _ => false,
        },
{
    match value {
        Some(v) => if v > threshold {
            match worst {
                None => Some((idx, v, threshold)),
                Some((i, w, u)) => {
                    proof {
                        lemma_u32_product_fits(v, u);
                        lemma_u32_product_fits(w, threshold);
                    }
                    if (v as u64) * (u as u64) > (w as u64) * (threshold as u64) {
                        Some((idx, v, threshold))
                    } else {
                        worst
                    }
                },
            }
        } else {
            worst
        },
        None => worst,
    }
}

/// Judges one path's health from its measured axes (worst offender wins).
pub fn health(stats: &PathStats) -> (v: HealthVerdict)
    ensures
        match worst_axis(*stats) {
            Some((i, _, _)) => v matches HealthVerdict::Degraded(a) && a@ == axis_name(i),
            None => if any_axis(*stats) {
                v == HealthVerdict::Healthy
            } else {
                v == HealthVerdict::InsufficientData
            },
        },
{
    let w0 = consider_exec(None, 0, stats.fwd_owd_var_us, HEALTH_VAR_THRESHOLD_US);
    let w1 = consider_exec(w0, 1, stats.rev_owd_var_us, HEALTH_VAR_THRESHOLD_US);
    let w2 = consider_exec(w1, 2, stats.fwd_jitter_us, HEALTH_JITTER_THRESHOLD_US);
    let w3 = consider_exec(w2, 3, stats.rev_jitter_us, HEALTH_JITTER_THRESHOLD_US);
    let w4 = consider_exec(w3, 4, stats.rtt_us, HEALTH_RTT_THRESHOLD_US);
    match w4 {
        Some((i, _, _)) => {
            if i == 0 {
                HealthVerdict::Degraded("fwd_owd_var")
            } else if i == 1 {
                HealthVerdict::Degraded("rev_owd_var")
            } else if i == 2 {
                HealthVerdict::Degraded("fwd_jitter")
            } else if i == 3 {
                HealthVerdict::Degraded("rev_jitter")
            } else {
                HealthVerdict::Degraded("rtt")
            }
        },
        None => {
            let any = stats.fwd_owd_var_us.is_some() || stats.fwd_jitter_us.is_some()
                || stats.rev_owd_var_us.is_some() || stats.rev_jitter_us.is_some()
                || stats.rtt_us.is_some();
            if any {
                HealthVerdict::Healthy
            } else {
                HealthVerdict::InsufficientData
            }
        },
    }
}

/// A path whose every measured axis is within its threshold is healthy, and
/// one with no measured axis is never called healthy or degraded.
pub proof fn lemma_health_degraded_iff_some_axis_exceeds(s: PathStats)
    ensures
        worst_axis(s) is Some <==> (s.fwd_owd_var_us matches Some(v) && v
            > HEALTH_VAR_THRESHOLD_US) || (s.rev_owd_var_us matches Some(v) && v
            > HEALTH_VAR_THRESHOLD_US) || (s.fwd_jitter_us matches Some(v) && v
            > HEALTH_JITTER_THRESHOLD_US) || (s.rev_jitter_us matches Some(v) && v
            > HEALTH_JITTER_THRESHOLD_US) || (s.rtt_us matches Some(v) && v > HEALTH_RTT_THRESHOLD_US),
{
}

/// The reading of axis `j`, in the order fwd_owd_var, rev_owd_var,
/// fwd_jitter, rev_jitter, rtt.
pub open spec fn axis_reading(s: PathStats, j: int) -> Option<u32> {
    if j == 0 {
        s.fwd_owd_var_us
    } else if j == 1 {
        s.rev_owd_var_us
    } else if j == 2 {
        s.fwd_jitter_us
    } else if j == 3 {
        s.rev_jitter_us
    } else {
        s.rtt_us
    }
}

/// The health threshold of axis `j`.
pub open spec fn axis_limit(j: int) -> int {
    if j < 2 {
        HEALTH_VAR_THRESHOLD_US as int
    } else if j < 4 {
        HEALTH_JITTER_THRESHOLD_US as int
    } else {
        HEALTH_RTT_THRESHOLD_US as int
    }
}

/// The reading of axis `j` as a number (0 when not measured).
pub open spec fn reading(s: PathStats, j: int) -> int {
    match axis_reading(s, j) {
        Some(v) => v as int,
        None => 0,
    }
}

/// Whether axis `j` is measured and above its threshold.
pub open spec fn over_limit(s: PathStats, j: int) -> bool {
    0 <= j < 5 && axis_reading(s, j) is Some && reading(s, j) > axis_limit(j)
}

/// `a/b <= c/d < e/f` gives `a/b < e/f`, for positive denominators.
proof fn lemma_ratio_chain(a: int, b: int, c: int, d: int, e: int, f: int)
    requires
        b > 0,
        d > 0,
        f > 0,
        a * d <= c * b,
        c * f < e * d,
    ensures
        a * f < e * b,
{
    assert(a * d * f <= c * b * f) by (nonlinear_arith)
        requires
            a * d <= c * b,
            f > 0,
    ;
    assert(c * f * b < e * d * b) by (nonlinear_arith)
        requires
            c * f < e * d,
            b > 0,
    ;
    assert(a * f * d < e * b * d) by (nonlinear_arith)
        requires
            a * d * f <= c * b * f,
            c * f * b < e * d * b,
    ;
    assert(a * f < e * b) by (nonlinear_arith)
        requires
            a * f * d < e * b * d,
            d > 0,
    ;
}

/// After the first `k` axes: the worst offender so far is an axis above its
/// threshold, with the largest ratio among those seen, ahead of every
/// earlier one with an equal ratio.
spec fn worst_so_far(s: PathStats, w: Option<(int, int, int)>, k: int) -> bool {
    match w {
        None => forall|j: int| 0 <= j < k ==> !#[trigger] over_limit(s, j),
        Some((i, v, t)) => {
            &&& 0 <= i < k
            &&& over_limit(s, i)
            &&& v == reading(s, i)
            &&& t == axis_limit(i)
            &&& forall|j: int| 0 <= j < k && #[trigger] over_limit(s, j) ==> reading(s, j) * t <= v * axis_limit(j)
            &&& forall|j: int| 0 <= j < i && #[trigger] over_limit(s, j) ==> reading(s, j) * t < v * axis_limit(j)
        },
    }
}

proof fn lemma_consider_step(s: PathStats, w: Option<(int, int, int)>, k: int)
    requires
        0 <= k < 5,
        worst_so_far(s, w, k),
    ensures
        worst_so_far(s, consider(w, k, axis_reading(s, k), axis_limit(k)), k + 1),
{
    let n = consider(w, k, axis_reading(s, k), axis_limit(k));
    let lk = axis_limit(k);
    assert(lk > 0);
    if over_limit(s, k) {
        let vk = reading(s, k);
        match w {
            None => {
                assert(n == Some((k, vk, lk)));
                assert forall|j: int| 0 <= j < k + 1 && #[trigger] over_limit(s, j) implies reading(s, j) * lk
                    <= vk * axis_limit(j) by {
                    assert(j == k);
                }
            },
            Some((i, v, t)) => {
                assert(t > 0);
                if vk * t > v * lk {
                    assert(n == Some((k, vk, lk)));
                    assert forall|j: int| 0 <= j < k + 1 && #[trigger] over_limit(s, j) implies reading(s, j) * lk
                        <= vk * axis_limit(j) by {
                        if j < k {
                            lemma_ratio_chain(reading(s, j), axis_limit(j), v, t, vk, lk);
                        }
                    }
                    assert forall|j: int| 0 <= j < k && #[trigger] over_limit(s, j) implies reading(s, j) * lk
                        < vk * axis_limit(j) by {
                        lemma_ratio_chain(reading(s, j), axis_limit(j), v, t, vk, lk);
                    }
                } else {
                    assert(n == w);
                    assert forall|j: int| 0 <= j < k + 1 && #[trigger] over_limit(s, j) implies reading(s, j) * t
                        <= v * axis_limit(j) by {
                        if j == k {
                            assert(vk * t <= v * lk);
                        }
                    }
                }
            },
        }
    } else {
        assert(n == w);
    }
}

/// The health verdict names the worst axis: `worst_axis` picks an axis
/// exactly when some measured axis is above its threshold, and then one
/// above its threshold whose value/threshold ratio is the largest of all
/// such axes, strictly larger than that of any earlier axis in the order
/// fwd_owd_var, rev_owd_var, fwd_jitter, rev_jitter, rtt.
pub proof fn lemma_health_names_largest_ratio(s: PathStats)
    ensures
        worst_axis(s) is Some <==> exists|j: int| #[trigger] over_limit(s, j),
        worst_axis(s) matches Some((i, v, t)) ==> {
            &&& over_limit(s, i)
            &&& v == reading(s, i)
            &&& t == axis_limit(i)
            &&& forall|j: int| #[trigger] over_limit(s, j) ==> reading(s, j) * t <= v * axis_limit(j)
            &&& forall|j: int| j < i && #[trigger] over_limit(s, j) ==> reading(s, j) * t < v * axis_limit(j)
        },
{
    let w0 = consider(None, 0, axis_reading(s, 0), axis_limit(0));
    let w1 = consider(w0, 1, axis_reading(s, 1), axis_limit(1));
    let w2 = consider(w1, 2, axis_reading(s, 2), axis_limit(2));
    let w3 = consider(w2, 3, axis_reading(s, 3), axis_limit(3));
    let w4 = consider(w3, 4, axis_reading(s, 4), axis_limit(4));
    assert(worst_so_far(s, None, 0));
    lemma_consider_step(s, None, 0);
    lemma_consider_step(s, w0, 1);
    lemma_consider_step(s, w1, 2);
    lemma_consider_step(s, w2, 3);
    lemma_consider_step(s, w3, 4);
    assert(worst_axis(s) == w4);
    if worst_axis(s) is None {
        assert forall|j: int| !#[trigger] over_limit(s, j) by {
            if 0 <= j < 5 {
                assert(!over_limit(s, j));
            }
        }
    }
}

} // verus!
