//! Path validation for connection migration (NAT rebinding): a challenge to
//! a new address is answered only from that address, with the challenge's
//! nonce, within the timeout.
use vstd::prelude::*;
use crate::types::{MonotonicTime, spec_elapsed};

verus! {

/// How long a path challenge stays answerable, µs.
pub const PATH_CHALLENGE_TIMEOUT_US: u64 = 3_000_000;

/// A peer's network address, identified by its canonical text form
/// (`ip:port`).
pub struct PeerAddr {
    text: Vec<u8>,
}

impl View for PeerAddr {
    type V = Seq<u8>;

    closed spec fn view(&self) -> Seq<u8> {
        self.text@
    }
}

impl PeerAddr {
    /// The address whose canonical text is `text`.
    pub fn new(text: Vec<u8>) -> (a: PeerAddr)
        ensures
            a@ == text@,
    {
        PeerAddr { text }
    }

    /// The canonical text's bytes.
    pub fn as_bytes(&self) -> (b: &[u8])
        ensures
            b@ == self@,
    {
        self.text.as_slice()
    }

    /// The same address.
    pub fn duplicate(&self) -> (a: PeerAddr)
        ensures
            a@ == self@,
    {
        let text = self.text.clone();
        assert(text@ =~= self.text@);
        PeerAddr { text }
    }

    /// Whether both name the same address.
    pub fn same_as(&self, other: &PeerAddr) -> (b: bool)
        ensures
            b == (self@ == other@),
    {
        let a = &self.text;
        let c = &other.text;
        if a.len() != c.len() {
            assert(a@.len() != c@.len());
            return false;
        }
        let mut i: usize = 0;
        while i < a.len()
            invariant
                a.len() == c.len(),
                a@ == self@,
                c@ == other@,
                i <= a.len(),
                forall|j: int| 0 <= j < i ==> a@[j] == c@[j],
            decreases a.len() - i,
        {
            if a[i] != c[i] {
                assert(a@[i as int] != c@[i as int]);
                return false;
            }
            i = i + 1;
        }
        assert(a@ =~= c@);
        true
    }
}

/// The pending challenge, as plain values: address, nonce and start time.
pub type ChallengeView = (Seq<u8>, Seq<u8>, u64);

/// Tracks at most one outstanding path challenge.
pub struct PathValidator {
    pending_challenge: Option<(PeerAddr, [u8; 8], MonotonicTime)>,
}

impl PathValidator {
    pub closed spec fn pending(&self) -> Option<ChallengeView> {
        match self.pending_challenge {
            Some((a, n, t)) => Some((a@, n@, t.micros)),
            None => None,
        }
    }

    pub fn new() -> (v: PathValidator)
        ensures
            v.pending() is None,
    {
        PathValidator { pending_challenge: None }
    }

    /// Challenges `new_addr` with `nonce`, replacing any earlier challenge.
    pub fn start_challenge(&mut self, new_addr: PeerAddr, nonce: [u8; 8], now: MonotonicTime)
        ensures
            final(self).pending() == Some((new_addr@, nonce@, now.micros)),
    {
        self.pending_challenge = Some((new_addr, nonce, now));
    }

    /// Drops the challenge once its timeout has passed.
    pub fn expire(&mut self, now: MonotonicTime)
        ensures
            final(self).pending() == match old(self).pending() {
                Some(c) => if spec_elapsed(MonotonicTime { micros: c.2 }, now) > PATH_CHALLENGE_TIMEOUT_US {
                    None
                } else {
                    Some(c)
                },
                None => None,
            },
    {
        let expired = match &self.pending_challenge {
            Some((_, _, start_time)) => now.duration_since(*start_time).micros > PATH_CHALLENGE_TIMEOUT_US,
            None => false,
        };
        if expired {
            self.pending_challenge = None;
        }
    }

    /// The challenged address, if a challenge is pending.
    pub fn pending_addr(&self) -> (a: Option<PeerAddr>)
        ensures
            match self.pending() {
                Some(c) => a is Some && a->0@ == c.0,
                None => a is None,
            },
    {
        match &self.pending_challenge {
            Some((addr, _, _)) => Some(addr.duplicate()),
            None => None,
        }
    }

    /// Accepts a response exactly when it comes from the challenged address,
    /// echoes the challenge's nonce, and arrives within the timeout; an
    /// accepted challenge is consumed, so it cannot be answered twice.
    pub fn validate_response(&mut self, addr: &PeerAddr, response_data: &[u8; 8], now: MonotonicTime) -> (ok: bool)
        ensures
            ok == match old(self).pending() {
                Some(c) => addr@ == c.0 && response_data@ == c.1 && spec_elapsed(MonotonicTime { micros: c.2 }, now)
                    <= PATH_CHALLENGE_TIMEOUT_US,
                None => false,
            },
            final(self).pending() == if ok { None } else { old(self).pending() },
    {
        let accepted = match &self.pending_challenge {
            Some((pending_addr, expected_nonce, start_time)) => {
                let same_addr = addr.same_as(pending_addr);
                let mut same_nonce = true;
                let mut i: usize = 0;
                while i < 8
                    invariant
                        i <= 8,
                        same_nonce == (forall|j: int| 0 <= j < i ==> response_data@[j] == expected_nonce@[j]),
                    decreases 8 - i,
                {
                    if response_data[i] != expected_nonce[i] {
                        same_nonce = false;
                    }
                    i = i + 1;
                }
                assert(same_nonce == (response_data@ == expected_nonce@)) by {
                    if same_nonce {
                        assert(response_data@ =~= expected_nonce@);
                    }
                }
                same_addr && same_nonce && now.duration_since(*start_time).micros <= PATH_CHALLENGE_TIMEOUT_US
            },
            None => false,
        };
        if accepted {
            self.pending_challenge = None;
        }
        accepted
    }
}

} // verus!
