//! Round-trip time estimation (RFC 9002 §5).
use vstd::prelude::*;
use crate::types::Duration;

verus! {

/// RTT assumed before the first sample, µs.
pub const INITIAL_RTT_US: u64 = 100_000;
/// Default peer `max_ack_delay`, µs.
pub const DEFAULT_MAX_ACK_DELAY_US: u64 = 25_000;
/// Timer granularity: the smallest PTO, µs.
pub const TIMER_GRANULARITY_US: u64 = 1_000;

/// The smaller of two values.
pub open spec fn min_u64(a: u64, b: u64) -> u64 {
    if a <= b { a } else { b }
}

/// `a + b` saturating at `u64::MAX`.
pub open spec fn sat_add_u64(a: int, b: int) -> u64 {
    if a + b > u64::MAX { u64::MAX } else { (a + b) as u64 }
}

/// The RTT estimator's state, in microseconds.
pub struct RttModel {
    pub latest: u64,
    pub smoothed: u64,
    pub rttvar: u64,
    pub min: u64,
    pub max_ack_delay: u64,
    pub first_sample: bool,
}

/// The state after one sample: `raw` is the send-to-ack time, `ack_delay`
/// the delay the peer reported.
pub open spec fn rtt_after_sample(m: RttModel, raw: u64, ack_delay: u64) -> RttModel {
    // min_rtt tracks the *unadjusted* sample (RFC 9002 §5.2).
    let min = min_u64(m.min, raw);
    // ack_delay is subtracted only when the sample exceeds min_rtt + ack_delay,
    // and never on the first sample (RFC 9002 §5.3).
    let adjusted = if m.first_sample {
        raw
    } else {
        let ad = min_u64(ack_delay, m.max_ack_delay);
        if raw > sat_add_u64(min as int, ad as int) {
            (raw - ad) as u64
        } else {
            raw
        }
    };
    if m.first_sample {
        RttModel {
            latest: adjusted,
            smoothed: adjusted,
            rttvar: adjusted / 2,
            min,
            max_ack_delay: m.max_ack_delay,
            first_sample: false,
        }
    } else {
        let diff = if m.smoothed >= adjusted {
            m.smoothed - adjusted
        } else {
            adjusted - m.smoothed
        };
        RttModel {
            latest: adjusted,
            smoothed: ((m.smoothed * 7 + adjusted) / 8) as u64,
            rttvar: ((m.rttvar * 3 + diff) / 4) as u64,
            min,
            max_ack_delay: m.max_ack_delay,
            first_sample: false,
        }
    }
}

/// The estimator's state before any sample: 100 ms assumed, no minimum yet.
pub open spec fn rtt_initial() -> RttModel {
    RttModel {
        latest: INITIAL_RTT_US,
        smoothed: INITIAL_RTT_US,
        rttvar: INITIAL_RTT_US / 2,
        min: u64::MAX,
        max_ack_delay: DEFAULT_MAX_ACK_DELAY_US,
        first_sample: true,
    }
}

/// PTO = smoothed_rtt + 4·rttvar + max_ack_delay, never below the timer
/// granularity (saturating).
pub open spec fn spec_pto_us(m: RttModel) -> u64 {
    let p = sat_add_u64(m.smoothed as int + 4 * m.rttvar, m.max_ack_delay as int);
    if p >= TIMER_GRANULARITY_US { p } else { TIMER_GRANULARITY_US }
}

/// RFC-aligned RTT estimation statistics.
#[derive(Copy, Clone, Eq, PartialEq, Debug)]
pub struct RttStats {
    pub latest_rtt: Duration,
    pub smoothed_rtt: Duration,
    pub rttvar: Duration,
    pub min_rtt: Duration,
    pub max_ack_delay: Duration,
    first_sample: bool,
}

impl RttStats {
    /// The estimator's state in microseconds.
    pub closed spec fn model(&self) -> RttModel {
        RttModel {
            latest: self.latest_rtt.micros,
            smoothed: self.smoothed_rtt.micros,
            rttvar: self.rttvar.micros,
            min: self.min_rtt.micros,
            max_ack_delay: self.max_ack_delay.micros,
            first_sample: self.first_sample,
        }
    }

    /// Fresh statistics: 100 ms assumed, no minimum yet.
    pub fn new() -> (s: RttStats)
        ensures
            s.model() == rtt_initial(),
    {
        RttStats {
            latest_rtt: Duration::from_micros(INITIAL_RTT_US),
            smoothed_rtt: Duration::from_micros(INITIAL_RTT_US),
            rttvar: Duration::from_micros(INITIAL_RTT_US / 2),
            min_rtt: Duration::from_micros(u64::MAX),
            max_ack_delay: Duration::from_micros(DEFAULT_MAX_ACK_DELAY_US),
            first_sample: true,
        }
    }

    /// The observed minimum RTT, or `None` before the first sample (the
    /// internal `u64::MAX` placeholder never leaks out).
    pub fn min_rtt_sample(&self) -> (m: Option<Duration>)
        ensures
            m == if self.model().first_sample {
                None
            } else {
                Some(Duration { micros: self.model().min })
            },
    {
        if self.first_sample {
            None
        } else {
            Some(self.min_rtt)
        }
    }

    /// Resets the estimator when the connection migrates to a validated new
    /// path: every path property returns to its initial value, while
    /// `max_ack_delay` — a property of the peer — survives.
    pub fn reset_for_new_path(&mut self)
        ensures
            final(self).model() == (RttModel {
                latest: INITIAL_RTT_US,
                smoothed: INITIAL_RTT_US,
                rttvar: INITIAL_RTT_US / 2,
                min: u64::MAX,
                max_ack_delay: old(self).model().max_ack_delay,
                first_sample: true,
            }),
    {
        let max_ack_delay = self.max_ack_delay;
        *self = RttStats::new();
        self.max_ack_delay = max_ack_delay;
    }

    /// Feeds one RTT sample: `send_to_ack_duration` is the raw time from send
    /// to acknowledgement, `ack_delay` the delay the peer reported.
    pub fn update(&mut self, send_to_ack_duration: Duration, ack_delay: Duration)
        ensures
            final(self).model() == rtt_after_sample(
                old(self).model(),
                send_to_ack_duration.micros,
                ack_delay.micros,
            ),
    {
        let raw = send_to_ack_duration.micros;
        if raw < self.min_rtt.micros {
            self.min_rtt = Duration::from_micros(raw);
        }
        let adjusted = if self.first_sample {
            raw
        } else {
            let ad = if ack_delay.micros <= self.max_ack_delay.micros {
                ack_delay.micros
            } else {
                self.max_ack_delay.micros
            };
            if raw > self.min_rtt.micros.saturating_add(ad) {
                raw - ad
            } else {
                raw
            }
        };
        self.latest_rtt = Duration::from_micros(adjusted);
        if self.first_sample {
            self.first_sample = false;
            self.smoothed_rtt = Duration::from_micros(adjusted);
            self.rttvar = Duration::from_micros(adjusted / 2);
        } else {
            let s = self.smoothed_rtt.micros;
            let diff = if s >= adjusted {
                s - adjusted
            } else {
                adjusted - s
            };
            let v = ((self.rttvar.micros as u128) * 3 + (diff as u128)) / 4;
            let sm = ((s as u128) * 7 + (adjusted as u128)) / 8;
            self.rttvar = Duration::from_micros(v as u64);
            self.smoothed_rtt = Duration::from_micros(sm as u64);
        }
    }

    /// Whether no sample arrived since creation or the last path reset.
    pub fn awaiting_first_sample(&self) -> (b: bool)
        ensures
            b == self.model().first_sample,
    {
        self.first_sample
    }

    /// The latest RTT sample (after ack-delay adjustment).
    pub fn latest(&self) -> (d: Duration)
        ensures
            d.micros == self.model().latest,
    {
        self.latest_rtt
    }

    /// The smoothed RTT.
    pub fn smoothed(&self) -> (d: Duration)
        ensures
            d.micros == self.model().smoothed,
    {
        self.smoothed_rtt
    }

    /// The RTT variation.
    pub fn rttvar(&self) -> (d: Duration)
        ensures
            d.micros == self.model().rttvar,
    {
        self.rttvar
    }

    /// The raw minimum RTT (`u64::MAX` microseconds before the first sample;
    /// `min_rtt_sample` hides that placeholder).
    pub fn min_rtt(&self) -> (d: Duration)
        ensures
            d.micros == self.model().min,
    {
        self.min_rtt
    }

    /// The peer's maximum ack delay.
    pub fn max_ack_delay(&self) -> (d: Duration)
        ensures
            d.micros == self.model().max_ack_delay,
    {
        self.max_ack_delay
    }

    /// Probe timeout (RFC 9002 §6.2.1), never below the timer granularity.
    pub fn pto_duration(&self) -> (d: Duration)
        ensures
            d.micros == spec_pto_us(self.model()),
    {
        let total = (self.smoothed_rtt.micros as u128) + (self.rttvar.micros as u128) * 4
            + (self.max_ack_delay.micros as u128);
        let p: u64 = if total > u64::MAX as u128 {
            u64::MAX
        } else {
            total as u64
        };
        if p >= TIMER_GRANULARITY_US {
            Duration::from_micros(p)
        } else {
            Duration::from_micros(TIMER_GRANULARITY_US)
        }
    }
}

/// min_rtt only ever decreases, and never exceeds the latest raw sample.
pub proof fn lemma_min_rtt_monotone(m: RttModel, raw: u64, ack_delay: u64)
    ensures
        rtt_after_sample(m, raw, ack_delay).min <= m.min,
        rtt_after_sample(m, raw, ack_delay).min <= raw,
{
}

/// An over-reported ack delay cannot drag the RTT estimate below the path's
/// floor: after any sample the latest RTT is at least min_rtt.
pub proof fn lemma_latest_never_below_min(m: RttModel, raw: u64, ack_delay: u64)
    ensures
        rtt_after_sample(m, raw, ack_delay).latest >= rtt_after_sample(m, raw, ack_delay).min,
{
}

/// The first sample after a reset replaces the estimate outright.
pub proof fn lemma_first_sample_seeds(m: RttModel, raw: u64, ack_delay: u64)
    requires
        m.first_sample,
        m.min == u64::MAX,
    ensures
        rtt_after_sample(m, raw, ack_delay).smoothed == raw,
        rtt_after_sample(m, raw, ack_delay).min == raw,
        rtt_after_sample(m, raw, ack_delay).latest == raw,
        2 * rtt_after_sample(m, raw, ack_delay).rttvar <= raw < 2 * rtt_after_sample(m, raw, ack_delay).rttvar + 2,
{
}

/// The PTO is never below the timer granularity.
pub proof fn lemma_pto_floor(m: RttModel)
    ensures
        spec_pto_us(m) >= TIMER_GRANULARITY_US,
{
}

/// After the first sample the estimate moves gradually (RFC 9002 §5.3):
/// the smoothed RTT moves one eighth of the way from its old value toward
/// the new (adjusted) sample, and the variation one quarter of the way from
/// its old value toward the sample's deviation from the old smoothed RTT,
/// both rounded down. The adjusted sample is the raw one, less at most the
/// reported ack delay and at most `max_ack_delay`, never below min_rtt, and
/// less the delay (capped at `max_ack_delay`) exactly when the raw sample
/// exceeds min_rtt by more than that.
pub proof fn lemma_smoothing_moves_gradually(m: RttModel, raw: u64, ack_delay: u64)
    requires
        !m.first_sample,
    ensures
        ({
            let r = rtt_after_sample(m, raw, ack_delay);
            let gap = r.latest - m.smoothed;
            let step = r.smoothed - m.smoothed;
            let dev = if m.smoothed >= r.latest { m.smoothed - r.latest } else { r.latest - m.smoothed };
            let var_gap = dev - m.rttvar;
            let var_step = r.rttvar - m.rttvar;
            let cap: int = if ack_delay <= m.max_ack_delay { ack_delay as int } else { m.max_ack_delay as int };
            &&& 8 * step <= gap < 8 * step + 8
            &&& 4 * var_step <= var_gap < 4 * var_step + 4
            &&& r.latest <= raw
            &&& raw - r.latest <= ack_delay
            &&& raw - r.latest <= m.max_ack_delay
            &&& r.latest >= r.min
            &&& (raw > r.min + cap ==> r.latest == raw - cap)
            &&& (raw <= r.min + cap ==> r.latest == raw)
        }),
{
    let r = rtt_after_sample(m, raw, ack_delay);
    let a = r.latest as int;
    let o = m.smoothed as int;
    let v = m.rttvar as int;
    let dev = if o >= a { o - a } else { a - o };
    assert(0 <= (o * 7 + a) / 8 <= u64::MAX) by {
        assert(o * 7 + a <= 8 * u64::MAX);
    }
    assert(r.smoothed == (o * 7 + a) / 8);
    assert(0 <= (v * 3 + dev) / 4 <= u64::MAX) by {
        assert(v * 3 + dev <= 4 * u64::MAX);
    }
    assert(r.rttvar == (v * 3 + dev) / 4);
}

} // verus!
