//! Token-bucket pacing for smooth inter-packet transmit timing.
use vstd::prelude::*;
use crate::types::{Duration, MonotonicTime, spec_elapsed};

verus! {

/// The default burst allowance, bytes.
pub const DEFAULT_MAX_BURST_BYTES: u64 = 12_000;

/// Token-bucket pacing engine: sending spends tokens, elapsed time at the
/// pacing rate earns them back, up to the burst allowance.
#[derive(Clone, Debug)]
pub struct PacingEngine {
    tokens_bytes: u64,
    last_update_time: MonotonicTime,
    max_burst_bytes: u64,
}

impl Default for PacingEngine {
    fn default() -> (p: PacingEngine)
        ensures
            p.tokens() == DEFAULT_MAX_BURST_BYTES,
            p.max_burst() == DEFAULT_MAX_BURST_BYTES,
            p.last_update().micros == 0,
    {
        PacingEngine::new(DEFAULT_MAX_BURST_BYTES)
    }
}

impl PacingEngine {
    pub closed spec fn tokens(&self) -> u64 {
        self.tokens_bytes
    }

    pub closed spec fn last_update(&self) -> MonotonicTime {
        self.last_update_time
    }

    pub closed spec fn max_burst(&self) -> u64 {
        self.max_burst_bytes
    }

    /// A full bucket of `max_burst_bytes`, never updated.
    pub fn new(max_burst_bytes: u64) -> (p: PacingEngine)
        ensures
            p.tokens() == max_burst_bytes,
            p.max_burst() == max_burst_bytes,
            p.last_update().micros == 0,
    {
        PacingEngine { tokens_bytes: max_burst_bytes, last_update_time: MonotonicTime::zero(), max_burst_bytes }
    }

    /// The tokens in the bucket, bytes.
    pub fn tokens_bytes(&self) -> (t: u64)
        ensures
            t == self.tokens(),
    {
        self.tokens_bytes
    }

    /// When the tokens were last updated (the clock's origin before the first update).
    pub fn last_update_time(&self) -> (t: MonotonicTime)
        ensures
            t == self.last_update(),
    {
        self.last_update_time
    }

    /// Time since the last token update.
    pub fn elapsed_since_update(&self, now: MonotonicTime) -> (d: Duration)
        ensures
            d.micros == spec_elapsed(self.last_update(), now),
    {
        now.duration_since(self.last_update_time)
    }

    /// Credits `credit_bytes` earned at the pacing rate over the elapsed time
    /// (capped at the burst allowance). The first update only starts the
    /// clock with a full bucket; an update with no time elapsed changes
    /// nothing.
    pub fn update_tokens(&mut self, credit_bytes: u64, now: MonotonicTime)
        requires
            old(self).last_update().micros != 0 && spec_elapsed(old(self).last_update(), now) > 0 ==> old(
                self,
            ).tokens() + credit_bytes <= u64::MAX,
        ensures
            final(self).max_burst() == old(self).max_burst(),
            old(self).last_update().micros == 0 ==> final(self).tokens() == old(self).max_burst()
                && final(self).last_update() == now,
            old(self).last_update().micros != 0 && spec_elapsed(old(self).last_update(), now) > 0 ==> {
                &&& final(self).tokens() == if old(self).tokens() + credit_bytes <= old(self).max_burst() {
                    (old(self).tokens() + credit_bytes) as u64
                } else {
                    old(self).max_burst()
                }
                &&& final(self).last_update() == now
            },
            old(self).last_update().micros != 0 && spec_elapsed(old(self).last_update(), now) == 0 ==> final(self).tokens()
                == old(self).tokens() && final(self).last_update() == old(self).last_update(),
    {
        if self.last_update_time.as_micros() == 0 {
            self.last_update_time = now;
            self.tokens_bytes = self.max_burst_bytes;
            return;
        }
        let elapsed = now.duration_since(self.last_update_time);
        if elapsed.as_micros() > 0 {
            let filled = self.tokens_bytes + credit_bytes;
            self.tokens_bytes = if filled <= self.max_burst_bytes { filled } else { self.max_burst_bytes };
            self.last_update_time = now;
        }
    }

    /// Both the congestion window and the token bucket admit `bytes` more.
    pub fn can_send(&self, bytes: usize, cwnd: u64, inflight: u64) -> (b: bool)
        ensures
            b == (inflight + bytes <= cwnd && self.tokens() >= bytes),
    {
        let b = bytes as u64;
        let cwnd_allows = inflight <= cwnd && b <= cwnd - inflight;
        let tokens_allow = self.tokens_bytes >= b;
        cwnd_allows && tokens_allow
    }

    /// Spends tokens for `bytes` sent (never below zero).
    pub fn consume(&mut self, bytes: usize)
        ensures
            final(self).tokens() == if old(self).tokens() >= bytes { (old(self).tokens() - bytes) as u64 } else { 0 },
            final(self).max_burst() == old(self).max_burst(),
            final(self).last_update() == old(self).last_update(),
    {
        self.tokens_bytes = self.tokens_bytes.saturating_sub(bytes as u64);
    }

    /// How many bytes may go out now: the smaller of the window's room and
    /// the tokens.
    pub fn send_budget(&self, cwnd: u64, inflight: u64) -> (n: usize)
        ensures
            n == ({
                let room: u64 = if cwnd >= inflight { (cwnd - inflight) as u64 } else { 0 };
                let m: u64 = if room <= self.tokens() { room } else { self.tokens() };
                m as usize
            }),
    {
        let cwnd_budget = cwnd.saturating_sub(inflight);
        let pacing_budget = self.tokens_bytes;
        let m = if cwnd_budget <= pacing_budget { cwnd_budget } else { pacing_budget };
        #[verifier::truncate]
        let n = m as usize;
        n
    }
}

} // verus!
