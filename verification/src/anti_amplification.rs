//! Anti-amplification limit for unvalidated peers (the RFC 9000 3x rule).
//!
//! Until a path is validated, an endpoint may send at most `factor` times the
//! bytes it has received (and authenticated) from that path. The factor
//! defaults to 3 and is floored at 1: a factor of 0 would deadlock the
//! handshake, since nothing could ever be answered before validation.
use vstd::prelude::*;

verus! {

/// `a * b`, saturating at `u64::MAX`.
pub open spec fn sat_mul(a: u64, b: u64) -> u64 {
    if a * b > u64::MAX { u64::MAX } else { (a * b) as u64 }
}

/// `a + b`, saturating at `u64::MAX`.
pub open spec fn sat_add(a: u64, b: u64) -> u64 {
    if a + b > u64::MAX { u64::MAX } else { (a + b) as u64 }
}

/// Anti-amplification byte accounting for one path.
#[derive(Clone, Debug)]
pub struct AntiAmplificationLimiter {
    bytes_received: u64,
    bytes_sent: u64,
    factor: u64,
    validated: bool,
}

impl AntiAmplificationLimiter {
    /// Authenticated bytes received from the peer.
    pub closed spec fn received(&self) -> u64 {
        self.bytes_received
    }

    /// Bytes sent while the path was still unvalidated.
    pub closed spec fn sent(&self) -> u64 {
        self.bytes_sent
    }

    /// The amplification factor in force.
    pub closed spec fn amplification_factor(&self) -> u64 {
        self.factor
    }

    /// Whether the path has been validated (no limit applies any more).
    pub closed spec fn validated(&self) -> bool {
        self.validated
    }

    /// The most bytes that may have been sent before validation.
    pub open spec fn budget(&self) -> u64 {
        sat_mul(self.received(), self.amplification_factor())
    }

    /// Whether `bytes` more bytes fit the limit.
    pub open spec fn spec_can_send(&self, bytes: usize) -> bool {
        self.validated() || sat_add(self.sent(), bytes as u64) <= self.budget()
    }

    /// A limiter with the default factor of 3 and nothing received or sent.
    pub fn new() -> (l: AntiAmplificationLimiter)
        ensures
            l.received() == 0,
            l.sent() == 0,
            l.amplification_factor() == 3,
            !l.validated(),
    {
        AntiAmplificationLimiter { bytes_received: 0, bytes_sent: 0, factor: 3, validated: false }
    }

    /// A limiter with the configured factor, floored at 1.
    pub fn with_factor(factor: u64) -> (l: AntiAmplificationLimiter)
        ensures
            l.received() == 0,
            l.sent() == 0,
            l.amplification_factor() == if factor >= 1 { factor } else { 1 },
            !l.validated(),
    {
        let f = if factor >= 1 { factor } else { 1 };
        AntiAmplificationLimiter { bytes_received: 0, bytes_sent: 0, factor: f, validated: false }
    }

    /// The factor in force.
    pub fn factor(&self) -> (f: u64)
        ensures
            f == self.amplification_factor(),
    {
        self.factor
    }

    /// Re-seeds the factor, floored at 1; nothing else changes.
    pub fn set_factor(&mut self, factor: u64)
        ensures
            final(self).amplification_factor() == if factor >= 1 { factor } else { 1 },
            final(self).received() == old(self).received(),
            final(self).sent() == old(self).sent(),
            final(self).validated() == old(self).validated(),
    {
        self.factor = if factor >= 1 { factor } else { 1 };
    }

    /// Counts `bytes` authenticated bytes received from the peer (saturating).
    pub fn on_bytes_received(&mut self, bytes: usize)
        ensures
            final(self).received() == sat_add(old(self).received(), bytes as u64),
            final(self).sent() == old(self).sent(),
            final(self).amplification_factor() == old(self).amplification_factor(),
            final(self).validated() == old(self).validated(),
    {
        self.bytes_received = self.bytes_received.saturating_add(bytes as u64);
    }

    /// Authenticated bytes received so far.
    pub fn bytes_received(&self) -> (b: u64)
        ensures
            b == self.received(),
    {
        self.bytes_received
    }

    /// Whether `bytes` more bytes may be sent now.
    pub fn can_send(&self, bytes: usize) -> (ok: bool)
        ensures
            ok == self.spec_can_send(bytes),
    {
        if self.validated {
            return true;
        }
        let max_allowed = match self.bytes_received.checked_mul(self.factor) {
            Some(v) => v,
            None => u64::MAX,
        };
        self.bytes_sent.saturating_add(bytes as u64) <= max_allowed
    }

    /// Charges `bytes` sent bytes to the budget; a no-op once validated.
    pub fn on_bytes_sent(&mut self, bytes: usize)
        ensures
            final(self).sent() == if old(self).validated() { old(self).sent() } else {
                sat_add(old(self).sent(), bytes as u64)
            },
            final(self).received() == old(self).received(),
            final(self).amplification_factor() == old(self).amplification_factor(),
            final(self).validated() == old(self).validated(),
    {
        if !self.validated {
            self.bytes_sent = self.bytes_sent.saturating_add(bytes as u64);
        }
    }

    /// Lifts the limit for good.
    pub fn mark_validated(&mut self)
        ensures
            final(self).validated(),
            final(self).received() == old(self).received(),
            final(self).sent() == old(self).sent(),
            final(self).amplification_factor() == old(self).amplification_factor(),
    {
        self.validated = true;
    }

    /// Whether the path has been validated.
    pub fn is_validated(&self) -> (v: bool)
        ensures
            v == self.validated(),
    {
        self.validated
    }
}

/// Sending only what `can_send` admits keeps an unvalidated path within its
/// budget: if the limiter was within budget and `bytes` were admitted, then
/// after they are charged the bytes sent still do not exceed `factor` times
/// the bytes received.
pub proof fn lemma_admitted_send_stays_within_budget(
    before: AntiAmplificationLimiter,
    after: AntiAmplificationLimiter,
    bytes: usize,
)
    requires
        !before.validated(),
        before.sent() <= before.budget(),
        before.spec_can_send(bytes),
        after.sent() == sat_add(before.sent(), bytes as u64),
        after.received() == before.received(),
        after.amplification_factor() == before.amplification_factor(),
    ensures
        after.sent() <= after.budget(),
{
}

/// Receiving more authenticated bytes never shrinks the budget.
pub proof fn lemma_receiving_never_shrinks_budget(
    before: AntiAmplificationLimiter,
    after: AntiAmplificationLimiter,
    bytes: usize,
)
    requires
        after.received() == sat_add(before.received(), bytes as u64),
        after.amplification_factor() == before.amplification_factor(),
    ensures
        before.budget() <= after.budget(),
{
    let r0 = before.received() as int;
    let r1 = after.received() as int;
    let f = before.amplification_factor() as int;
    assert(r0 <= r1);
    assert(r0 * f <= r1 * f) by (nonlinear_arith)
        requires
            r0 <= r1,
            0 <= f,
    ;
}

} // verus!
