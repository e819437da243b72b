//! Session key derivation (HKDF-SHA256): per-connection, per-direction AEAD
//! keys and base IVs from a master secret and the 64-bit connection id.
use vstd::prelude::*;
use crate::types::{ConnectionId, be_bytes, u64_to_be_bytes};
use crate::primitives::{ascii, ascii_bytes, hkdf_sha256, hkdf_expand, wipe};
use crate::text::push_str;

verus! {

pub const KEY_LEN: usize = 32;
pub const IV_LEN: usize = 12;

/// The HKDF `info` of one derived value: an 8-byte label, an 8-byte suffix
/// and the connection id's big-endian bytes.
pub open spec fn kdf_info(label: Seq<char>, suffix: Seq<char>, cid: u64) -> Seq<u8> {
    ascii(label) + ascii(suffix) + be_bytes(cid)
}

/// `label ‖ suffix ‖ cid` as bytes.
pub fn build_info(label: &str, suffix: &str, cid: u64) -> (info: Vec<u8>)
    ensures
        info@ == kdf_info(label@, suffix@, cid),
{
    let mut info = ascii_bytes(label);
    let mut s = ascii_bytes(suffix);
    info.append(&mut s);
    let c = u64_to_be_bytes(cid);
    let mut i: usize = 0;
    let ghost base = info@;
    while i < 8
        invariant
            i <= 8,
            c@ == be_bytes(cid),
            info@ == base + c@.take(i as int),
        decreases 8 - i,
    {
        info.push(c[i]);
        i = i + 1;
        assert(info@ =~= base + c@.take(i as int));
    }
    assert(c@.take(8) =~= c@);
    info
}

/// Handshake master secret container. Its rendering never shows the bytes.
pub struct HandshakeSecret {
    secret: Vec<u8>,
}

impl HandshakeSecret {
    pub closed spec fn bytes(&self) -> Seq<u8> {
        self.secret@
    }

    pub fn new(secret: Vec<u8>) -> (s: HandshakeSecret)
        ensures
            s.bytes() == secret@,
    {
        HandshakeSecret { secret }
    }

    pub fn as_bytes(&self) -> (b: &[u8])
        ensures
            b@ == self.bytes(),
    {
        self.secret.as_slice()
    }

    /// Zeroes the secret in place.
    pub fn wipe(&mut self)
        ensures
            final(self).bytes() == Seq::new(old(self).bytes().len(), |i: int| 0u8),
    {
        wipe(self.secret.as_mut_slice());
    }

    /// The container rendered for logs, the secret redacted.
    pub fn debug_string(&self) -> (s: String)
        ensures
            s@ == "HandshakeSecret { secret: \"[REDACTED]\" }"@,
    {
        let mut s = String::new();
        push_str(&mut s, "HandshakeSecret { secret: \"[REDACTED]\" }");
        s
    }
}

/// One key and one base IV with no direction label (the legacy single-pair
/// derivation): info `"gtp_key_" ‖ cid` for the key, `"gtp__iv_" ‖ cid` for
/// the IV. Using the pair for both directions makes client and server
/// packets collide on one (key, nonce); `derive_directional_session_keys`
/// is the safe derivation.
pub fn derive_session_keys(shared_secret: &[u8], cid: ConnectionId) -> (r: ([u8; 32], [u8; 12]))
    ensures
        r.0@ == hkdf_sha256(None, shared_secret@, ascii("gtp_key_"@) + be_bytes(cid.0), 32),
        r.1@ == hkdf_sha256(None, shared_secret@, ascii("gtp__iv_"@) + be_bytes(cid.0), 12),
{
    let cid_bytes = u64_to_be_bytes(cid.0);
    let mut info_key = ascii_bytes("gtp_key_");
    let mut info_iv = ascii_bytes("gtp__iv_");
    let ghost k0 = info_key@;
    let ghost v0 = info_iv@;
    let mut i: usize = 0;
    while i < 8
        invariant
            i <= 8,
            cid_bytes@ == be_bytes(cid.0),
            info_key@ == k0 + cid_bytes@.take(i as int),
            info_iv@ == v0 + cid_bytes@.take(i as int),
        decreases 8 - i,
    {
        info_key.push(cid_bytes[i]);
        info_iv.push(cid_bytes[i]);
        i = i + 1;
        assert(info_key@ =~= k0 + cid_bytes@.take(i as int));
        assert(info_iv@ =~= v0 + cid_bytes@.take(i as int));
    }
    assert(cid_bytes@.take(8) =~= cid_bytes@);
    let mut key = [0u8; 32];
    hkdf_expand(None, shared_secret, info_key.as_slice(), &mut key);
    let mut iv = [0u8; 12];
    hkdf_expand(None, shared_secret, info_iv.as_slice(), &mut iv);
    (key, iv)
}

/// Directional key material for a session.
pub struct SessionDirectionalKeys {
    pub client_tx_key: [u8; 32],
    pub client_tx_iv: [u8; 12],
    pub server_tx_key: [u8; 32],
    pub server_tx_iv: [u8; 12],
}

impl SessionDirectionalKeys {
    /// Zeroes all key material in place.
    pub fn wipe(&mut self)
        ensures
            final(self).client_tx_key@ == Seq::new(32, |i: int| 0u8),
            final(self).client_tx_iv@ == Seq::new(12, |i: int| 0u8),
            final(self).server_tx_key@ == Seq::new(32, |i: int| 0u8),
            final(self).server_tx_iv@ == Seq::new(12, |i: int| 0u8),
    {
        wipe(&mut self.client_tx_key);
        wipe(&mut self.client_tx_iv);
        wipe(&mut self.server_tx_key);
        wipe(&mut self.server_tx_iv);
    }

    /// The keys rendered for logs, every field redacted.
    pub fn debug_string(&self) -> (s: String)
        ensures
            s@ == "SessionDirectionalKeys { client_tx_key: \"[REDACTED]\", client_tx_iv: \"[REDACTED]\", server_tx_key: \"[REDACTED]\", server_tx_iv: \"[REDACTED]\" }"@,
    {
        let mut s = String::new();
        push_str(
            &mut s,
            "SessionDirectionalKeys { client_tx_key: \"[REDACTED]\", client_tx_iv: \"[REDACTED]\", server_tx_key: \"[REDACTED]\", server_tx_iv: \"[REDACTED]\" }",
        );
        s
    }
}

/// Derives per-direction AEAD keys and IVs from a master secret and the
/// connection id (unsalted HKDF-SHA256, info `label ‖ "gtp/v1  " ‖ cid`).
pub fn derive_directional_session_keys(master_secret: &[u8], cid: ConnectionId) -> (k: SessionDirectionalKeys)
    ensures
        k.client_tx_key@ == hkdf_sha256(None, master_secret@, kdf_info("c2s key "@, "gtp/v1  "@, cid.0), 32),
        k.client_tx_iv@ == hkdf_sha256(None, master_secret@, kdf_info("c2s iv  "@, "gtp/v1  "@, cid.0), 12),
        k.server_tx_key@ == hkdf_sha256(None, master_secret@, kdf_info("s2c key "@, "gtp/v1  "@, cid.0), 32),
        k.server_tx_iv@ == hkdf_sha256(None, master_secret@, kdf_info("s2c iv  "@, "gtp/v1  "@, cid.0), 12),
{
    let mut out = SessionDirectionalKeys {
        client_tx_key: [0u8; 32],
        client_tx_iv: [0u8; 12],
        server_tx_key: [0u8; 32],
        server_tx_iv: [0u8; 12],
    };
    let info = build_info("c2s key ", "gtp/v1  ", cid.0);
    hkdf_expand(None, master_secret, info.as_slice(), &mut out.client_tx_key);
    let info = build_info("c2s iv  ", "gtp/v1  ", cid.0);
    hkdf_expand(None, master_secret, info.as_slice(), &mut out.client_tx_iv);
    let info = build_info("s2c key ", "gtp/v1  ", cid.0);
    hkdf_expand(None, master_secret, info.as_slice(), &mut out.server_tx_key);
    let info = build_info("s2c iv  ", "gtp/v1  ", cid.0);
    hkdf_expand(None, master_secret, info.as_slice(), &mut out.server_tx_iv);
    out
}

/// The two directions, and distinct connections, derive from distinct HKDF
/// inputs: no key or IV is shared between them by construction.
pub proof fn lemma_direction_infos_distinct(cid1: u64, cid2: u64)
    ensures
        kdf_info("c2s key "@, "gtp/v1  "@, cid1) != kdf_info("s2c key "@, "gtp/v1  "@, cid2),
        kdf_info("c2s iv  "@, "gtp/v1  "@, cid1) != kdf_info("s2c iv  "@, "gtp/v1  "@, cid2),
        cid1 != cid2 ==> kdf_info("c2s key "@, "gtp/v1  "@, cid1) != kdf_info("c2s key "@, "gtp/v1  "@, cid2),
{
    reveal_strlit("c2s key ");
    reveal_strlit("s2c key ");
    reveal_strlit("c2s iv  ");
    reveal_strlit("s2c iv  ");
    reveal_strlit("gtp/v1  ");
    assert(kdf_info("c2s key "@, "gtp/v1  "@, cid1)[0] != kdf_info("s2c key "@, "gtp/v1  "@, cid2)[0]);
    assert(kdf_info("c2s iv  "@, "gtp/v1  "@, cid1)[0] != kdf_info("s2c iv  "@, "gtp/v1  "@, cid2)[0]);
    if cid1 != cid2 {
        let a = kdf_info("c2s key "@, "gtp/v1  "@, cid1);
        let b = kdf_info("c2s key "@, "gtp/v1  "@, cid2);
        if a == b {
            assert(a.skip(16) =~= be_bytes(cid1));
            assert(b.skip(16) =~= be_bytes(cid2));
            crate::types::lemma_be_bytes_injective(cid1, cid2);
        }
    }
}

} // verus!
