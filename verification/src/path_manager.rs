//! The path policy of a connection: which address is in use, which
//! anti-amplification budget an authenticated datagram earns, which path
//! challenges are answered, and when a successful path response moves the
//! connection to a new address.
//!
//! Amplification budget belongs to a path, not to the connection: the active
//! path has one limiter, the one address under challenge has its own probe
//! limiter, and every other address earns nothing.
use vstd::prelude::*;
use crate::anti_amplification::{AntiAmplificationLimiter, sat_add};
use crate::path_validator::{PathValidator, PeerAddr, ChallengeView, PATH_CHALLENGE_TIMEOUT_US};
use crate::types::{MonotonicTime, spec_elapsed};

verus! {

/// The most path responses one inbound datagram may provoke.
pub const MAX_PATH_RESPONSES_PER_DATAGRAM: usize = 1;

/// The most path responses that may wait in the send queue at once.
pub const MAX_PENDING_PATH_RESPONSES: usize = 2;

/// A limiter's state as plain values: bytes received, bytes sent, factor,
/// validated.
pub type LimiterView = (u64, u64, u64, bool);

pub open spec fn limiter_view(l: AntiAmplificationLimiter) -> LimiterView {
    (l.received(), l.sent(), l.amplification_factor(), l.validated())
}

/// The state of a fresh limiter with the default factor.
pub open spec fn fresh_probe() -> LimiterView {
    (0, 0, 3, false)
}

/// Whether a response from `src` echoing `data` at `now` answers the pending
/// challenge.
pub open spec fn answers(challenge: Option<ChallengeView>, src: Seq<u8>, data: Seq<u8>, now: MonotonicTime) -> bool {
    match challenge {
        Some(c) => src == c.0 && data == c.1 && spec_elapsed(MonotonicTime { micros: c.2 }, now)
            <= PATH_CHALLENGE_TIMEOUT_US,
        None => false,
    }
}

/// The address a pending challenge was sent to.
pub open spec fn challenged_addr(challenge: Option<ChallengeView>) -> Option<Seq<u8>> {
    match challenge {
        Some(c) => Some(c.0),
        None => None,
    }
}

/// The active path, its limiter, the probe slot and the pending challenge.
pub struct PathManager {
    active: PeerAddr,
    limiter: AntiAmplificationLimiter,
    probe: Option<(PeerAddr, AntiAmplificationLimiter)>,
    validator: PathValidator,
}

impl PathManager {
    /// The address in use.
    pub closed spec fn active_addr(&self) -> Seq<u8> {
        self.active@
    }

    /// The active path's budget.
    pub closed spec fn active_budget(&self) -> LimiterView {
        limiter_view(self.limiter)
    }

    /// The address under challenge and its budget, if a probe is open.
    pub closed spec fn probe_state(&self) -> Option<(Seq<u8>, LimiterView)> {
        match self.probe {
            Some((a, l)) => Some((a@, limiter_view(l))),
            None => None,
        }
    }

    /// The outstanding challenge.
    pub closed spec fn challenge(&self) -> Option<ChallengeView> {
        self.validator.pending()
    }

    /// A connection on `active` whose budget multiplies received bytes by
    /// `factor` (at least 1); `pre_validated` when reachability is already
    /// proven (a handshake that passed a stateless cookie).
    pub fn new(active: PeerAddr, factor: u64, pre_validated: bool) -> (m: PathManager)
        ensures
            m.active_addr() == active@,
            m.active_budget() == (0u64, 0u64, if factor >= 1 { factor } else { 1 }, pre_validated),
            m.probe_state() is None,
            m.challenge() is None,
    {
        let mut limiter = AntiAmplificationLimiter::with_factor(factor);
        if pre_validated {
            limiter.mark_validated();
        }
        PathManager { active, limiter, probe: None, validator: PathValidator::new() }
    }

    /// The address in use.
    pub fn active_path(&self) -> (a: PeerAddr)
        ensures
            a@ == self.active_addr(),
    {
        self.active.duplicate()
    }

    /// The active path's limiter.
    pub fn active_limiter(&self) -> (l: &AntiAmplificationLimiter)
        ensures
            limiter_view(*l) == self.active_budget(),
    {
        &self.limiter
    }

    /// The probe's address and limiter, if a probe is open.
    pub fn probe(&self) -> (p: Option<(&PeerAddr, &AntiAmplificationLimiter)>)
        ensures
            match (self.probe_state(), p) {
                (Some((a, l)), Some((pa, pl))) => pa@ == a && limiter_view(*pl) == l,
                (None, None) => true,
                _ => false,
            },
    {
        match &self.probe {
            Some((a, l)) => Some((a, l)),
            None => None,
        }
    }

    /// Starts validating `new_addr` with `nonce`: the challenge replaces any
    /// earlier one, and the address gets a fresh, unvalidated probe budget —
    /// whatever is known of any other path does not carry over. The caller
    /// sends the challenge frame to `new_addr`.
    pub fn trigger_path_challenge(&mut self, new_addr: PeerAddr, nonce: [u8; 8], now: MonotonicTime)
        ensures
            final(self).challenge() == Some((new_addr@, nonce@, now.micros)),
            final(self).probe_state() == Some((new_addr@, fresh_probe())),
            final(self).active_addr() == old(self).active_addr(),
            final(self).active_budget() == old(self).active_budget(),
    {
        self.validator.start_challenge(new_addr.duplicate(), nonce, now);
        self.probe = Some((new_addr, AntiAmplificationLimiter::new()));
    }

    /// Drops the challenge once its timeout has passed.
    pub fn expire(&mut self, now: MonotonicTime)
        ensures
            final(self).challenge() == match old(self).challenge() {
                Some(c) => if spec_elapsed(MonotonicTime { micros: c.2 }, now) > PATH_CHALLENGE_TIMEOUT_US {
                    None
                } else {
                    Some(c)
                },
                None => None,
            },
            final(self).active_addr() == old(self).active_addr(),
            final(self).active_budget() == old(self).active_budget(),
            final(self).probe_state() == old(self).probe_state(),
    {
        self.validator.expire(now);
    }

    /// Credits an authenticated datagram of `len` bytes from `src`. From the
    /// active path it earns budget and proves reachability; from the address
    /// under a still-pending challenge it earns probe budget only; from any
    /// other address it earns nothing.
    pub fn on_authenticated_datagram(&mut self, src: &PeerAddr, len: usize)
        ensures
            final(self).active_addr() == old(self).active_addr(),
            final(self).challenge() == old(self).challenge(),
            src@ == old(self).active_addr() ==> {
                &&& final(self).active_budget() == (
                    sat_add(old(self).active_budget().0, len as u64),
                    old(self).active_budget().1,
                    old(self).active_budget().2,
                    true,
                )
                &&& final(self).probe_state() == old(self).probe_state()
            },
            src@ != old(self).active_addr() ==> final(self).active_budget() == old(self).active_budget(),
            src@ != old(self).active_addr() ==> match old(self).probe_state() {
                Some((a, l)) => if a == src@ && challenged_addr(old(self).challenge()) == Some(src@) {
                    final(self).probe_state() == Some((a, (sat_add(l.0, len as u64), l.1, l.2, l.3)))
                } else {
                    final(self).probe_state() == old(self).probe_state()
                },
                None => final(self).probe_state() is None,
            },
    {
        if src.same_as(&self.active) {
            self.limiter.on_bytes_received(len);
            self.limiter.mark_validated();
            return;
        }
        let pending = self.validator.pending_addr();
        let challenged = match &pending {
            Some(p) => p.same_as(src),
            None => false,
        };
        match &mut self.probe {
            Some((probe_addr, probe)) => {
                if probe_addr.same_as(src) && challenged {
                    probe.on_bytes_received(len);
                }
            },
            None => {},
        }
    }

    /// Whether a path challenge from `src` is answered: only from the active
    /// path, at most once per inbound datagram, and only while fewer than
    /// the cap of responses wait to be sent. Anything else is dropped, as if
    /// lost on the wire.
    pub fn may_answer_challenge(&self, src: &PeerAddr, responses_from_this_datagram: usize, queued_responses: usize) -> (ok: bool)
        ensures
            ok == (src@ == self.active_addr() && responses_from_this_datagram < MAX_PATH_RESPONSES_PER_DATAGRAM
                && queued_responses < MAX_PENDING_PATH_RESPONSES),
    {
        src.same_as(&self.active) && responses_from_this_datagram < MAX_PATH_RESPONSES_PER_DATAGRAM
            && queued_responses < MAX_PENDING_PATH_RESPONSES
    }

    /// A path response from `src` echoing `data`. When it answers the pending
    /// challenge the challenge is consumed; if `src` is not the active path
    /// the connection moves there: the probe budget of that address (or a
    /// fresh one) becomes the active budget, validated, and the probe slot
    /// closes. Returns the former address on a move.
    pub fn on_path_response(&mut self, src: &PeerAddr, data: &[u8; 8], now: MonotonicTime) -> (moved_from: Option<PeerAddr>)
        ensures
            !answers(old(self).challenge(), src@, data@, now) ==> {
                &&& moved_from is None
                &&& final(self).challenge() == old(self).challenge()
                &&& final(self).active_addr() == old(self).active_addr()
                &&& final(self).active_budget() == old(self).active_budget()
                &&& final(self).probe_state() == old(self).probe_state()
            },
            answers(old(self).challenge(), src@, data@, now) ==> final(self).challenge() is None,
            answers(old(self).challenge(), src@, data@, now) && src@ == old(self).active_addr() ==> {
                &&& moved_from is None
                &&& final(self).active_addr() == old(self).active_addr()
                &&& final(self).active_budget() == old(self).active_budget()
                &&& final(self).probe_state() == old(self).probe_state()
            },
            answers(old(self).challenge(), src@, data@, now) && src@ != old(self).active_addr() ==> {
                &&& moved_from is Some && moved_from->0@ == old(self).active_addr()
                &&& final(self).active_addr() == src@
                &&& final(self).probe_state() is None
                &&& final(self).active_budget() == match old(self).probe_state() {
                    Some((a, l)) => if a == src@ {
                        (l.0, l.1, l.2, true)
                    } else {
                        (0u64, 0u64, 3u64, true)
                    },
                    None => (0u64, 0u64, 3u64, true),
                }
            },
    {
        if !self.validator.validate_response(src, data, now) {
            return None;
        }
        if src.same_as(&self.active) {
            return None;
        }
        let old_addr = self.active.duplicate();
        self.active = src.duplicate();
        let taken = self.probe.take();
        let mut promoted = match taken {
            Some((probe_addr, probe)) => {
                if probe_addr.same_as(src) {
                    probe
                } else {
                    AntiAmplificationLimiter::new()
                }
            },
            None => AntiAmplificationLimiter::new(),
        };
        promoted.mark_validated();
        self.limiter = promoted;
        Some(old_addr)
    }

    /// Whether the active path's budget admits `bytes` more.
    pub fn can_send(&self, bytes: usize) -> (ok: bool)
        ensures
            ok == self.limiter_can_send(bytes),
    {
        self.limiter.can_send(bytes)
    }

    pub closed spec fn limiter_can_send(&self, bytes: usize) -> bool {
        self.limiter.spec_can_send(bytes)
    }

    /// Charges `bytes` sent to the active path's budget.
    pub fn on_bytes_sent(&mut self, bytes: usize)
        ensures
            final(self).active_budget() == (
                old(self).active_budget().0,
                if old(self).active_budget().3 {
                    old(self).active_budget().1
                } else {
                    sat_add(old(self).active_budget().1, bytes as u64)
                },
                old(self).active_budget().2,
                old(self).active_budget().3,
            ),
            final(self).active_addr() == old(self).active_addr(),
            final(self).probe_state() == old(self).probe_state(),
            final(self).challenge() == old(self).challenge(),
    {
        self.limiter.on_bytes_sent(bytes);
    }
}

} // verus!
