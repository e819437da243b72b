//! One-way-delay variance estimation from the wire timestamp.
//!
//! Every packet carries the sender's local clock at transmission (µs,
//! wrapping at 2^32). `d = local_rx − peer_tx` is a constant clock offset plus
//! the one-way delay; the offset cancels against a sliding floor, leaving
//! `owd_var` — the delay above the floor — plus an RFC 3550 §6.4.1
//! inter-arrival jitter estimate. All arithmetic wraps across the u32 rollover.
use vstd::prelude::*;
use crate::types::{MonotonicTime, spec_elapsed};

verus! {

/// How long a floor may serve before it is re-anchored, µs (30 s).
pub const FLOOR_REANCHOR_WINDOW_US: u64 = 30_000_000;

/// A single OWD observation handed to the control plane.
#[derive(Copy, Clone, Eq, PartialEq, Debug, Structural)]
pub struct OwdSample {
    /// One-way delay variance above the sliding floor, µs.
    pub owd_var_us: u32,
    /// RFC 3550 §6.4.1 inter-arrival jitter, µs.
    pub jitter_us: u32,
    /// Measurement epoch: constant 0 until path-epoch tagging.
    pub epoch: u8,
}

/// Integer division truncating toward zero (Rust's `/` on signed values).
pub open spec fn trunc_div(a: int, b: int) -> int
    recommends
        b > 0,
{
    if a >= 0 {
        a / b
    } else {
        -((-a) / b)
    }
}

/// The estimator's state.
pub struct OwdModel {
    pub base_d: u32,
    pub prev_owd_var: u32,
    pub jitter: u32,
    pub floor_time: MonotonicTime,
    pub has_sample: bool,
}

/// The state after a packet stamped `ts_peer` arrives at `now`.
pub open spec fn owd_after_packet(m: OwdModel, ts_peer: u32, now: MonotonicTime) -> OwdModel {
    let d = (now.micros as u32).wrapping_sub(ts_peer);
    if !m.has_sample {
        OwdModel { base_d: d, prev_owd_var: 0, jitter: m.jitter, floor_time: now, has_sample: true }
    } else {
        // Re-anchor an aged floor.
        let aged = spec_elapsed(m.floor_time, now) > FLOOR_REANCHOR_WINDOW_US;
        let base = if aged { d } else { m.base_d };
        let floor_time = if aged { now } else { m.floor_time };
        let delta = (d.wrapping_sub(base)) as i32;
        // Queueing delay cannot be negative: a lower `d` is a better floor.
        let base2 = if delta < 0 { d } else { base };
        let floor2 = if delta < 0 { now } else { floor_time };
        let owd_var: int = if delta < 0 { 0 } else { delta as int };
        let diff: int = if owd_var >= m.prev_owd_var { owd_var - m.prev_owd_var } else { m.prev_owd_var - owd_var };
        let j = m.jitter + trunc_div(diff - m.jitter, 16);
        OwdModel {
            base_d: base2,
            prev_owd_var: owd_var as u32,
            jitter: (if j < 0 { 0 } else { j }) as u32,
            floor_time: floor2,
            has_sample: true,
        }
    }
}

/// Sliding-floor one-way-delay variance estimator.
#[derive(Copy, Clone, Eq, PartialEq, Debug)]
pub struct OwdEstimator {
    base_d: u32,
    prev_owd_var: u32,
    jitter: u32,
    floor_time: MonotonicTime,
    has_sample: bool,
}

impl OwdEstimator {
    pub closed spec fn model(&self) -> OwdModel {
        OwdModel {
            base_d: self.base_d,
            prev_owd_var: self.prev_owd_var,
            jitter: self.jitter,
            floor_time: self.floor_time,
            has_sample: self.has_sample,
        }
    }

    pub fn new() -> (e: OwdEstimator)
        ensures
            e.model() == (OwdModel {
                base_d: 0,
                prev_owd_var: 0,
                jitter: 0,
                floor_time: MonotonicTime { micros: 0 },
                has_sample: false,
            }),
    {
        OwdEstimator {
            base_d: 0,
            prev_owd_var: 0,
            jitter: 0,
            floor_time: MonotonicTime::from_micros(0),
            has_sample: false,
        }
    }

    /// Feeds one authenticated packet's timestamp and derives the sample.
    pub fn on_packet(&mut self, ts_peer: u32, now: MonotonicTime) -> (s: OwdSample)
        ensures
            final(self).model() == owd_after_packet(old(self).model(), ts_peer, now),
            s == (OwdSample {
                owd_var_us: final(self).model().prev_owd_var,
                jitter_us: final(self).model().jitter,
                epoch: 0,
            }),
    {
        #[verifier::truncate]
        let ts_local = now.micros as u32;
        let d = ts_local.wrapping_sub(ts_peer);
        if !self.has_sample {
            self.has_sample = true;
            self.base_d = d;
            self.floor_time = now;
            self.prev_owd_var = 0;
            return self.sample();
        }
        let elapsed = now.duration_since(self.floor_time);
        if elapsed.micros > FLOOR_REANCHOR_WINDOW_US {
            self.base_d = d;
            self.floor_time = now;
        }
        #[verifier::truncate]
        let delta = d.wrapping_sub(self.base_d) as i32;
        if delta < 0 {
            self.base_d = d;
            self.floor_time = now;
        }
        let owd_var: u32 = if delta < 0 {
            0
        } else {
            delta as u32
        };
        let ov = owd_var as i64;
        let pv = self.prev_owd_var as i64;
        let diff: i64 = if ov >= pv {
            ov - pv
        } else {
            pv - ov
        };
        let adjustment = (diff - self.jitter as i64) / 16;
        let j = self.jitter as i64 + adjustment;
        self.jitter = if j < 0 {
            0
        } else {
            j as u32
        };
        self.prev_owd_var = owd_var;
        self.sample()
    }

    /// The current sample without feeding a packet (zeros until the first one).
    pub fn sample(&self) -> (s: OwdSample)
        ensures
            s == (OwdSample { owd_var_us: self.model().prev_owd_var, jitter_us: self.model().jitter, epoch: 0 }),
    {
        OwdSample { owd_var_us: self.prev_owd_var, jitter_us: self.jitter, epoch: 0 }
    }

    /// Whether at least one authenticated packet has been fed.
    pub fn is_ready(&self) -> (b: bool)
        ensures
            b == self.model().has_sample,
    {
        self.has_sample
    }

    /// Re-seeds on a validated path migration: nothing from the old path survives.
    pub fn reset_for_new_path(&mut self)
        ensures
            final(self).model() == (OwdModel {
                base_d: 0,
                prev_owd_var: 0,
                jitter: 0,
                floor_time: MonotonicTime { micros: 0 },
                has_sample: false,
            }),
    {
        *self = OwdEstimator::new();
    }
}

/// The first sample on a fresh (or reset) estimator reads zero variance,
/// whatever the absolute delay — the floor is the sample.
pub proof fn lemma_first_sample_is_zero_variance(m: OwdModel, ts_peer: u32, now: MonotonicTime)
    requires
        !m.has_sample,
    ensures
        owd_after_packet(m, ts_peer, now).prev_owd_var == 0,
        owd_after_packet(m, ts_peer, now).has_sample,
{
}

/// A constant one-way delay reads zero variance: if the packet's offset `d`
/// equals the floor, the variance sample is 0 and the floor stays.
pub proof fn lemma_constant_delay_zero_variance(m: OwdModel, ts_peer: u32, now: MonotonicTime)
    requires
        m.has_sample,
        (now.micros as u32).wrapping_sub(ts_peer) == m.base_d,
    ensures
        owd_after_packet(m, ts_peer, now).prev_owd_var == 0,
        owd_after_packet(m, ts_peer, now).base_d == m.base_d,
{
    let d = (now.micros as u32).wrapping_sub(ts_peer);
    assert(d.wrapping_sub(d) == 0);
    assert((0u32 as i32) == 0i32);
}

} // verus!
