//! Stateless retry cookies: a server proves a client owns its address
//! without keeping per-client state.
use vstd::prelude::*;
use crate::types::{MonotonicTime, be_bytes, be_u64, u64_to_be_bytes, u64_from_be_bytes, lemma_be_roundtrip};
use crate::primitives::{ascii, ascii_bytes, hmac_sha256, hmac_sha256_tag, ct_eq_bytes};
use crate::path_validator::PeerAddr;
use crate::text::push_str;

verus! {

/// How long a cookie stays valid, µs.
pub const TOKEN_LIFETIME_US: u64 = 10_000_000;

/// The cookie MAC of `addr` at `ts` under `secret`.
pub open spec fn cookie_mac(secret: Seq<u8>, addr: Seq<u8>, ts: u64) -> Seq<u8> {
    hmac_sha256(secret, ascii("GTP-COOKIE-V1"@) + addr + be_bytes(ts))
}

/// The cookie issued to `addr` at `ts`: the timestamp, then 24 MAC bytes.
pub open spec fn cookie_for(secret: Seq<u8>, addr: Seq<u8>, ts: u64) -> Seq<u8> {
    be_bytes(ts) + cookie_mac(secret, addr, ts).take(24)
}

/// Whether `cookie` is valid for `addr` at `now`: not dated in the future,
/// at most `TOKEN_LIFETIME_US` old, and carrying the MAC of its own
/// timestamp and the address.
pub open spec fn cookie_valid(secret: Seq<u8>, addr: Seq<u8>, cookie: Seq<u8>, now: u64) -> bool {
    let ts = be_u64(cookie.take(8));
    &&& ts <= now
    &&& now - ts <= TOKEN_LIFETIME_US
    &&& cookie.skip(8) == cookie_mac(secret, addr, ts).take(24)
}

/// Issues and checks retry cookies under a server secret.
#[derive(Clone)]
pub struct StatelessTokenManager {
    secret: [u8; 32],
}

impl StatelessTokenManager {
    pub closed spec fn secret_bytes(&self) -> Seq<u8> {
        self.secret@
    }

    pub fn new(secret: [u8; 32]) -> (m: StatelessTokenManager)
        ensures
            m.secret_bytes() == secret@,
    {
        StatelessTokenManager { secret }
    }

    fn mac(&self, addr: &PeerAddr, ts_bytes: &[u8; 8]) -> (block: [u8; 32])
        ensures
            block@ == hmac_sha256(self.secret@, ascii("GTP-COOKIE-V1"@) + addr@ + ts_bytes@),
    {
        let mut msg = ascii_bytes("GTP-COOKIE-V1");
        let a = addr.as_bytes();
        let ghost m0 = msg@;
        let mut i: usize = 0;
        while i < a.len()
            invariant
                i <= a.len(),
                msg@ == m0 + a@.take(i as int),
            decreases a.len() - i,
        {
            msg.push(a[i]);
            i = i + 1;
            assert(msg@ =~= m0 + a@.take(i as int));
        }
        assert(a@.take(a@.len() as int) =~= a@);
        let ghost m1 = msg@;
        let mut j: usize = 0;
        while j < 8
            invariant
                j <= 8,
                msg@ == m1 + ts_bytes@.take(j as int),
            decreases 8 - j,
        {
            msg.push(ts_bytes[j]);
            j = j + 1;
            assert(msg@ =~= m1 + ts_bytes@.take(j as int));
        }
        assert(ts_bytes@.take(8) =~= ts_bytes@);
        hmac_sha256_tag(&self.secret, msg.as_slice())
    }

    /// The cookie for `addr` at `now`.
    pub fn generate_cookie(&self, addr: &PeerAddr, now: MonotonicTime) -> (cookie: [u8; 32])
        ensures
            cookie@ == cookie_for(self.secret_bytes(), addr@, now.micros),
    {
        let ts_bytes = u64_to_be_bytes(now.as_micros());
        let mac_block = self.mac(addr, &ts_bytes);
        let mut cookie = [0u8; 32];
        let mut i: usize = 0;
        while i < 8
            invariant
                i <= 8,
                forall|j: int| 0 <= j < i ==> cookie@[j] == ts_bytes@[j],
            decreases 8 - i,
        {
            cookie[i] = ts_bytes[i];
            i = i + 1;
        }
        let mut k: usize = 0;
        while k < 24
            invariant
                k <= 24,
                forall|j: int| 0 <= j < 8 ==> cookie@[j] == ts_bytes@[j],
                forall|j: int| 0 <= j < k ==> cookie@[8 + j] == mac_block@[j],
            decreases 24 - k,
        {
            cookie[8 + k] = mac_block[k];
            k = k + 1;
        }
        assert(cookie@ =~= cookie_for(self.secret_bytes(), addr@, now.micros));
        cookie
    }

    /// Whether `cookie` proves `addr` at `now`.
    pub fn verify_cookie(&self, addr: &PeerAddr, cookie: &[u8; 32], now: MonotonicTime) -> (ok: bool)
        ensures
            ok == cookie_valid(self.secret_bytes(), addr@, cookie@, now.micros),
    {
        let mut ts_bytes = [0u8; 8];
        let mut i: usize = 0;
        while i < 8
            invariant
                i <= 8,
                forall|j: int| 0 <= j < i ==> ts_bytes@[j] == cookie@[j],
            decreases 8 - i,
        {
            ts_bytes[i] = cookie[i];
            i = i + 1;
        }
        assert(ts_bytes@ =~= cookie@.take(8));
        let token_time = u64_from_be_bytes(ts_bytes);
        if token_time > now.as_micros() {
            return false;
        }
        if now.as_micros() - token_time > TOKEN_LIFETIME_US {
            return false;
        }
        let expected_block = self.mac(addr, &ts_bytes);
        let mut expected: Vec<u8> = Vec::new();
        let mut candidate: Vec<u8> = Vec::new();
        let mut k: usize = 0;
        while k < 24
            invariant
                k <= 24,
                expected@ == expected_block@.take(k as int),
                candidate@ == cookie@.skip(8).take(k as int),
            decreases 24 - k,
        {
            expected.push(expected_block[k]);
            candidate.push(cookie[8 + k]);
            k = k + 1;
            assert(expected@ =~= expected_block@.take(k as int));
            assert(candidate@ =~= cookie@.skip(8).take(k as int));
        }
        assert(cookie@.skip(8).take(24) =~= cookie@.skip(8));
        ct_eq_bytes(candidate.as_slice(), expected.as_slice())
    }

    /// The manager rendered for logs, the secret redacted.
    pub fn debug_string(&self) -> (s: String)
        ensures
            s@ == "StatelessTokenManager { secret: \"[REDACTED]\" }"@,
    {
        let mut s = String::new();
        push_str(&mut s, "StatelessTokenManager { secret: \"[REDACTED]\" }");
        s
    }
}

/// A cookie issued at `t` is accepted for the same address exactly from `t`
/// until `TOKEN_LIFETIME_US` later.
pub proof fn lemma_cookie_roundtrip(secret: Seq<u8>, addr: Seq<u8>, t: u64, now: u64)
    ensures
        cookie_valid(secret, addr, cookie_for(secret, addr, t), now) <==> (t <= now && now - t <= TOKEN_LIFETIME_US),
{
    let c = cookie_for(secret, addr, t);
    assert(c.take(8) =~= be_bytes(t));
    lemma_be_roundtrip(t);
    assert(c.skip(8) =~= cookie_mac(secret, addr, t).take(24));
}

} // verus!
