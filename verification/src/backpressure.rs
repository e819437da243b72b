//! Congestion-induced backpressure signalled to the game engine.
use vstd::prelude::*;
use crate::types::Duration;

verus! {

/// Backpressure state, from normal operation to critical overload.
#[derive(Copy, Clone, Eq, PartialEq, Debug, Default, Structural)]
pub enum BackpressureLevel {
    /// Normal operation: schedule all message tiers normally.
    #[default]
    Low,
    /// Mild congestion: expire obsolete state snapshots sooner.
    Medium,
    /// High congestion: drop stale world state and cosmetic traffic.
    High,
    /// Critical: only control, input and critical reliable gameplay events.
    Critical,
}

/// The window the queue is measured against: `cwnd`, at least 1200 bytes.
pub open spec fn queue_window(cwnd: u64) -> int {
    if cwnd >= 1200 { cwnd as int } else { 1200 }
}

/// Whether `a / b > num / den`, exactly, for positive `b` and `den`.
pub open spec fn ratio_above(a: int, b: int, num: int, den: int) -> bool {
    a * den > num * b
}

/// The level for a queue of `queued` bytes against the window and an RTT
/// of `current` µs against the floor `min` µs (`None`, or zero: neutral).
/// Thresholds: queue ratio above 3 / 1.5 / 0.8, RTT inflation above
/// 2.5 / 1.8 / 1.3.
pub open spec fn backpressure_level(queued: int, cwnd: u64, current: u64, min: Option<u64>) -> BackpressureLevel {
    let w = queue_window(cwnd);
    let (c, m): (int, int) = match min {
        Some(mn) => if mn > 0 { (current as int, mn as int) } else { (1, 1) },
        None => (1, 1),
    };
    if ratio_above(queued, w, 3, 1) || ratio_above(c, m, 5, 2) {
        BackpressureLevel::Critical
    } else if ratio_above(queued, w, 3, 2) || ratio_above(c, m, 9, 5) {
        BackpressureLevel::High
    } else if ratio_above(queued, w, 4, 5) || ratio_above(c, m, 13, 10) {
        BackpressureLevel::Medium
    } else {
        BackpressureLevel::Low
    }
}

/// Classifies congestion from the send queue and RTT inflation (the larger
/// of the two signals decides). The ratios are compared exactly.
pub fn calculate_backpressure(queued_bytes: usize, cwnd: u64, current_rtt: Duration, min_rtt: Option<Duration>) -> (l: BackpressureLevel)
    ensures
        l == backpressure_level(
            queued_bytes as int,
            cwnd,
            current_rtt.micros,
            match min_rtt {
                Some(d) => Some(d.micros),
                None => None,
            },
        ),
{
    let w: u128 = if cwnd >= 1200 { cwnd as u128 } else { 1200 };
    let q: u128 = queued_bytes as u128;
    let (c, m): (u128, u128) = match min_rtt {
        Some(mn) => if mn.micros > 0 { (current_rtt.micros as u128, mn.micros as u128) } else { (1, 1) },
        None => (1, 1),
    };
    assert(q < 0x1_0000_0000_0000_0000 && w < 0x1_0000_0000_0000_0000 && c < 0x1_0000_0000_0000_0000 && m
        < 0x1_0000_0000_0000_0000);
    if q > 3 * w || c * 2 > 5 * m {
        BackpressureLevel::Critical
    } else if q * 2 > 3 * w || c * 5 > 9 * m {
        BackpressureLevel::High
    } else if q * 5 > 4 * w || c * 10 > 13 * m {
        BackpressureLevel::Medium
    } else {
        BackpressureLevel::Low
    }
}

/// A larger queue never lowers the level.
pub proof fn lemma_backpressure_monotone_in_queue(q1: int, q2: int, cwnd: u64, current: u64, min: Option<u64>)
    requires
        0 <= q1 <= q2,
    ensures
        level_rank(backpressure_level(q1, cwnd, current, min)) <= level_rank(backpressure_level(q2, cwnd, current, min)),
{
    let w = queue_window(cwnd);
    assert(q1 * 1 <= q2 * 1);
    assert(q1 * 2 <= q2 * 2);
    assert(q1 * 5 <= q2 * 5);
}

/// The level's position, `Low` = 0 … `Critical` = 3.
pub open spec fn level_rank(l: BackpressureLevel) -> int {
    match l {
        BackpressureLevel::Low => 0,
        BackpressureLevel::Medium => 1,
        BackpressureLevel::High => 2,
        BackpressureLevel::Critical => 3,
    }
}

/// The thresholds, stated on the inputs: with `w` the window (`cwnd`, at
/// least 1200 bytes) and, when a positive minimum RTT is known, the RTT
/// inflation `current / min`, the level is at least `Critical` exactly when
/// the queue exceeds 3 windows or the inflation exceeds 2.5; at least `High`
/// exactly when the queue exceeds 1.5 windows or the inflation 1.8; and at
/// least `Medium` exactly when the queue exceeds 0.8 windows or the inflation
/// 1.3. Without a positive minimum the RTT axis never raises the level.
pub proof fn lemma_backpressure_thresholds(queued: int, cwnd: u64, current: u64, min: Option<u64>)
    requires
        0 <= queued,
    ensures
        ({
            let rank = level_rank(backpressure_level(queued, cwnd, current, min));
            let w: int = if cwnd >= 1200 { cwnd as int } else { 1200 };
            let rtt_known = min is Some && min->0 > 0;
            let c = current as int;
            let m: int = if rtt_known { min->0 as int } else { 0 };
            &&& (rank >= 3) == (queued > 3 * w || (rtt_known && 2 * c > 5 * m))
            &&& (rank >= 2) == (2 * queued > 3 * w || (rtt_known && 5 * c > 9 * m))
            &&& (rank >= 1) == (5 * queued > 4 * w || (rtt_known && 10 * c > 13 * m))
        }),
{
}

} // verus!
