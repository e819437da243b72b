//! The integer window of the CUBIC congestion controller: slow start, the
//! once-per-RTT reduction guard, fast convergence and the timeout collapse.
//! The cubic and TCP-friendly targets, and the products with the backoff
//! factor, are real-valued; the caller computes them and hands in the
//! rounded results.
use vstd::prelude::*;
use crate::types::{Duration, MonotonicTime, spec_elapsed, spec_saturating_add};

verus! {

/// Default sender maximum segment size, bytes.
pub const DEFAULT_SMSS: u64 = 1200;
/// Initial window, in segments.
pub const INITIAL_CWND_PACKETS: u64 = 10;
/// Window floor, in segments.
pub const MIN_CWND_PACKETS: u64 = 2;
/// RTT assumed before the first sample, µs.
pub const INITIAL_RTT_US: u64 = 50_000;

/// Everything the window logic reads and writes, as plain values.
pub struct CubicView {
    pub smss: u64,
    pub initial_cwnd: u64,
    pub min_cwnd: u64,
    pub cwnd: u64,
    pub ssthresh: u64,
    pub w_max: u64,
    pub w_last_max: u64,
    pub origin_point: u64,
    pub epoch_start: Option<MonotonicTime>,
    pub smoothed_rtt: u64,
    pub min_rtt: u64,
    pub last_loss: Option<MonotonicTime>,
}

pub open spec fn at_least_one(x: u64) -> u64 {
    if x < 1 { 1 } else { x }
}

pub open spec fn max_u64(a: u64, b: u64) -> u64 {
    if a < b { b } else { a }
}

/// A fresh window: `initial_packets` segments, a floor of `min_packets`
/// segments (each count and the segment size taken as at least one), no
/// slow-start threshold yet, and a 50 ms RTT guess.
pub open spec fn initial_window(smss: u64, initial_packets: u64, min_packets: u64) -> CubicView {
    let s = at_least_one(smss);
    let init = (at_least_one(initial_packets) * s) as u64;
    CubicView {
        smss: s,
        initial_cwnd: init,
        min_cwnd: (at_least_one(min_packets) * s) as u64,
        cwnd: init,
        ssthresh: u64::MAX,
        w_max: init,
        w_last_max: init,
        origin_point: init,
        epoch_start: None,
        smoothed_rtt: INITIAL_RTT_US,
        min_rtt: INITIAL_RTT_US,
        last_loss: None,
    }
}

/// An RTT sample enters the 7/8 moving average and the minimum.
pub open spec fn after_rtt_sample(v: CubicView, sample: u64) -> CubicView {
    CubicView {
        smoothed_rtt: ((v.smoothed_rtt * 7 + sample) / 8) as u64,
        min_rtt: if sample < v.min_rtt { sample } else { v.min_rtt },
        ..v
    }
}

/// Growth on newly acknowledged bytes: one segment per ACK in slow start,
/// else the larger of the window and the target (floored at the minimum).
pub open spec fn after_growth(v: CubicView, target: u64) -> CubicView {
    CubicView {
        cwnd: if v.cwnd < v.ssthresh {
            spec_saturating_add(v.cwnd, v.smss)
        } else {
            max_u64(v.cwnd, max_u64(target, v.min_cwnd))
        },
        ..v
    }
}

/// A reduction is refused within one smoothed RTT of the previous one.
pub open spec fn reduction_allowed(v: CubicView, now: MonotonicTime) -> bool {
    match v.last_loss {
        Some(t) => !(spec_elapsed(t, now) < v.smoothed_rtt),
        None => true,
    }
}

/// A reduction: fast convergence lowers the remembered maximum when the
/// window never regained it; the threshold becomes the backed-off window
/// (never below the floor) and the window drops to it; a new epoch starts.
/// `fast_conv_w_max` is the window times `(1 + beta) / 2`, `beta_cwnd` the
/// window times `beta`, both rounded down.
pub open spec fn after_reduction(
    v: CubicView,
    now: MonotonicTime,
    fast_conv_w_max: u64,
    beta_cwnd: u64,
) -> CubicView {
    let w_max = if v.cwnd < v.w_last_max { max_u64(fast_conv_w_max, v.min_cwnd) } else { v.cwnd };
    let ssthresh = max_u64(beta_cwnd, v.min_cwnd);
    CubicView {
        w_last_max: v.cwnd,
        w_max,
        ssthresh,
        cwnd: ssthresh,
        origin_point: w_max,
        epoch_start: Some(now),
        last_loss: Some(now),
        ..v
    }
}

/// A timeout: the window collapses to the floor, the threshold becomes the
/// backed-off window and the epoch restarts from it.
pub open spec fn after_timeout(v: CubicView, now: MonotonicTime, beta_cwnd: u64) -> CubicView {
    let ssthresh = max_u64(beta_cwnd, v.min_cwnd);
    CubicView {
        ssthresh,
        cwnd: v.min_cwnd,
        w_max: ssthresh,
        w_last_max: ssthresh,
        origin_point: ssthresh,
        epoch_start: Some(now),
        ..v
    }
}

/// Two reductions less than one smoothed RTT apart: the second is refused.
pub proof fn lemma_one_reduction_per_rtt(
    v: CubicView,
    now: MonotonicTime,
    later: MonotonicTime,
    fast_conv_w_max: u64,
    beta_cwnd: u64,
)
    requires
        spec_elapsed(now, later) < v.smoothed_rtt,
    ensures
        !reduction_allowed(after_reduction(v, now, fast_conv_w_max, beta_cwnd), later),
{
}

/// After a reduction the window equals the threshold and is never below
/// the floor; after a timeout it is the floor itself.
pub proof fn lemma_reductions_respect_the_floor(
    v: CubicView,
    now: MonotonicTime,
    fast_conv_w_max: u64,
    beta_cwnd: u64,
)
    ensures
        after_reduction(v, now, fast_conv_w_max, beta_cwnd).cwnd >= v.min_cwnd,
        after_reduction(v, now, fast_conv_w_max, beta_cwnd).cwnd == after_reduction(
            v,
            now,
            fast_conv_w_max,
            beta_cwnd,
        ).ssthresh,
        after_reduction(v, now, fast_conv_w_max, beta_cwnd).w_max >= v.min_cwnd || v.cwnd
            >= v.w_last_max,
        after_timeout(v, now, beta_cwnd).cwnd == v.min_cwnd,
        after_timeout(v, now, beta_cwnd).ssthresh >= v.min_cwnd,
{
}

/// Growth never shrinks the window; in slow start it adds exactly one
/// segment whatever the cubic target says, so the stale trajectory cannot
/// restore an old window after a timeout.
pub proof fn lemma_growth(v: CubicView, target: u64)
    ensures
        after_growth(v, target).cwnd >= v.cwnd,
        v.cwnd < v.ssthresh ==> after_growth(v, target).cwnd == spec_saturating_add(v.cwnd, v.smss),
        v.cwnd < v.ssthresh ==> forall|other: u64|
            #[trigger] after_growth(v, other).cwnd == after_growth(v, target).cwnd,
{
}

/// The integer state of a CUBIC controller.
#[derive(Clone, Debug)]
pub struct CubicWindow {
    smss: u64,
    initial_cwnd: u64,
    min_cwnd_bytes: u64,
    cwnd: u64,
    ssthresh: u64,
    w_max: u64,
    w_last_max: u64,
    origin_point: u64,
    epoch_start: Option<MonotonicTime>,
    smoothed_rtt: Duration,
    min_rtt: Duration,
    last_loss_time: Option<MonotonicTime>,
}

impl View for CubicWindow {
    type V = CubicView;

    closed spec fn view(&self) -> CubicView {
        CubicView {
            smss: self.smss,
            initial_cwnd: self.initial_cwnd,
            min_cwnd: self.min_cwnd_bytes,
            cwnd: self.cwnd,
            ssthresh: self.ssthresh,
            w_max: self.w_max,
            w_last_max: self.w_last_max,
            origin_point: self.origin_point,
            epoch_start: self.epoch_start,
            smoothed_rtt: self.smoothed_rtt.micros,
            min_rtt: self.min_rtt.micros,
            last_loss: self.last_loss_time,
        }
    }
}

impl Default for CubicWindow {
    fn default() -> (w: CubicWindow)
        ensures
            w@ == initial_window(DEFAULT_SMSS, INITIAL_CWND_PACKETS, MIN_CWND_PACKETS),
    {
        assert(at_least_one(DEFAULT_SMSS) == 1200);
        CubicWindow::new(DEFAULT_SMSS)
    }
}

impl CubicWindow {
    /// A fresh window with the default segment counts.
    pub fn new(smss: u64) -> (w: CubicWindow)
        requires
            INITIAL_CWND_PACKETS * at_least_one(smss) <= u64::MAX,
        ensures
            w@ == initial_window(smss, INITIAL_CWND_PACKETS, MIN_CWND_PACKETS),
    {
        assert(at_least_one(INITIAL_CWND_PACKETS) == 10 && at_least_one(MIN_CWND_PACKETS) == 2);
        CubicWindow::with_params(smss, INITIAL_CWND_PACKETS, MIN_CWND_PACKETS)
    }

    /// A fresh window of `initial_cwnd_packets` segments with a floor of
    /// `min_cwnd_packets` segments.
    pub fn with_params(smss: u64, initial_cwnd_packets: u64, min_cwnd_packets: u64) -> (w: CubicWindow)
        requires
            at_least_one(initial_cwnd_packets) * at_least_one(smss) <= u64::MAX,
            at_least_one(min_cwnd_packets) * at_least_one(smss) <= u64::MAX,
        ensures
            w@ == initial_window(smss, initial_cwnd_packets, min_cwnd_packets),
    {
        let s: u64 = if smss < 1 { 1 } else { smss };
        let ip: u64 = if initial_cwnd_packets < 1 { 1 } else { initial_cwnd_packets };
        let mp: u64 = if min_cwnd_packets < 1 { 1 } else { min_cwnd_packets };
        let initial_cwnd: u64 = ip * s;
        let min_cwnd_bytes: u64 = mp * s;
        CubicWindow {
            smss: s,
            initial_cwnd,
            min_cwnd_bytes,
            cwnd: initial_cwnd,
            ssthresh: u64::MAX,
            w_max: initial_cwnd,
            w_last_max: initial_cwnd,
            origin_point: initial_cwnd,
            epoch_start: None,
            smoothed_rtt: Duration::from_micros(INITIAL_RTT_US),
            min_rtt: Duration::from_micros(INITIAL_RTT_US),
            last_loss_time: None,
        }
    }

    pub fn cwnd(&self) -> (c: u64)
        ensures
            c == self@.cwnd,
    {
        self.cwnd
    }

    pub fn smss(&self) -> (s: u64)
        ensures
            s == self@.smss,
    {
        self.smss
    }

    pub fn min_cwnd(&self) -> (m: u64)
        ensures
            m == self@.min_cwnd,
    {
        self.min_cwnd_bytes
    }

    pub fn ssthresh(&self) -> (s: u64)
        ensures
            s == self@.ssthresh,
    {
        self.ssthresh
    }

    pub fn w_max(&self) -> (w: u64)
        ensures
            w == self@.w_max,
    {
        self.w_max
    }

    pub fn origin_point(&self) -> (o: u64)
        ensures
            o == self@.origin_point,
    {
        self.origin_point
    }

    pub fn smoothed_rtt(&self) -> (d: Duration)
        ensures
            d.micros == self@.smoothed_rtt,
    {
        self.smoothed_rtt
    }

    pub fn min_rtt(&self) -> (d: Duration)
        ensures
            d.micros == self@.min_rtt,
    {
        self.min_rtt
    }

    /// Folds an RTT sample into the moving average and the minimum.
    pub fn on_rtt(&mut self, sample: Duration)
        requires
            old(self)@.smoothed_rtt * 7 + sample.micros <= u64::MAX,
        ensures
            final(self)@ == after_rtt_sample(old(self)@, sample.micros),
    {
        let s = self.smoothed_rtt.micros;
        self.smoothed_rtt = Duration::from_micros((s * 7 + sample.micros) / 8);
        if sample.micros < self.min_rtt.micros {
            self.min_rtt = sample;
        }
    }

    /// An acknowledgement: its RTT sample, if any, is folded in; when it
    /// acknowledged new bytes the growth epoch starts (if it has not) and
    /// the time since the epoch start is returned, for the caller to work
    /// out the cubic target and call `grow`. An acknowledgement of no new
    /// bytes returns `None` and leaves the window alone.
    pub fn on_ack(&mut self, bytes_acked: u64, rtt_sample: Option<Duration>, now: MonotonicTime) -> (t: Option<Duration>)
        requires
            match rtt_sample {
                Some(r) => old(self)@.smoothed_rtt * 7 + r.micros <= u64::MAX,
                None => true,
            },
        ensures
            ({
                let sampled = match rtt_sample {
                    Some(r) => after_rtt_sample(old(self)@, r.micros),
                    None => old(self)@,
                };
                if bytes_acked == 0 {
                    t is None && final(self)@ == sampled
                } else {
                    let start = match sampled.epoch_start {
                        Some(e) => e,
                        None => now,
                    };
                    &&& final(self)@ == (CubicView { epoch_start: Some(start), ..sampled })
                    &&& t == Some(Duration { micros: spec_elapsed(start, now) as u64 })
                }
            }),
    {
        match rtt_sample {
            Some(r) => self.on_rtt(r),
            None => {},
        }
        if bytes_acked == 0 {
            return None;
        }
        let start = match self.epoch_start {
            Some(e) => e,
            None => {
                self.epoch_start = Some(now);
                now
            },
        };
        Some(now.duration_since(start))
    }

    /// Applies the growth rule with the caller's cubic target (the larger of
    /// the cubic and TCP-friendly windows, rounded down).
    pub fn grow(&mut self, target: u64)
        ensures
            final(self)@ == after_growth(old(self)@, target),
    {
        if self.cwnd < self.ssthresh {
            self.cwnd = self.cwnd.saturating_add(self.smss);
        } else {
            let floor: u64 = if target < self.min_cwnd_bytes { self.min_cwnd_bytes } else { target };
            if self.cwnd < floor {
                self.cwnd = floor;
            }
        }
    }

    /// A congestion signal (loss or ECN mark) at `now`: refused, with no
    /// change, within one smoothed RTT of the previous reduction; else the
    /// window is reduced and true returned. `fast_conv_w_max` and
    /// `beta_cwnd` are the current window times `(1 + beta) / 2` and times
    /// `beta`, rounded down.
    pub fn on_congestion_event(&mut self, now: MonotonicTime, fast_conv_w_max: u64, beta_cwnd: u64) -> (reduced: bool)
        ensures
            reduced == reduction_allowed(old(self)@, now),
            reduced ==> final(self)@ == after_reduction(old(self)@, now, fast_conv_w_max, beta_cwnd),
            !reduced ==> final(self)@ == old(self)@,
    {
        match self.last_loss_time {
            Some(last) => {
                if now.duration_since(last).micros < self.smoothed_rtt.micros {
                    return false;
                }
            },
            None => {},
        }
        self.last_loss_time = Some(now);
        if self.cwnd < self.w_last_max {
            self.w_last_max = self.cwnd;
            self.w_max = if fast_conv_w_max < self.min_cwnd_bytes { self.min_cwnd_bytes } else { fast_conv_w_max };
        } else {
            self.w_last_max = self.cwnd;
            self.w_max = self.cwnd;
        }
        self.ssthresh = if beta_cwnd < self.min_cwnd_bytes { self.min_cwnd_bytes } else { beta_cwnd };
        self.cwnd = self.ssthresh;
        self.origin_point = self.w_max;
        self.epoch_start = Some(now);
        true
    }

    /// A retransmission timeout at `now`; `beta_cwnd` is the current window
    /// times `beta`, rounded down.
    pub fn on_timeout(&mut self, now: MonotonicTime, beta_cwnd: u64)
        ensures
            final(self)@ == after_timeout(old(self)@, now, beta_cwnd),
    {
        self.ssthresh = if beta_cwnd < self.min_cwnd_bytes { self.min_cwnd_bytes } else { beta_cwnd };
        self.cwnd = self.min_cwnd_bytes;
        self.w_max = self.ssthresh;
        self.w_last_max = self.ssthresh;
        self.origin_point = self.w_max;
        self.epoch_start = Some(now);
    }
}

} // verus!
