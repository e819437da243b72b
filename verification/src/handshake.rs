//! The X25519 handshake: ephemeral key pairs, the shared secret, per-direction
//! traffic keys, key ratcheting and the client's key-confirmation proof.
use vstd::prelude::*;
use rand::rngs::OsRng;
use rand::RngCore;
use x25519_dalek::{PublicKey, StaticSecret};
use crate::types::{ConnectionId, be_bytes, u64_to_be_bytes};
use crate::primitives::{ascii, ascii_bytes, hkdf_sha256, hkdf_expand, hmac_sha256, hmac_sha256_tag, ct_eq_bytes, wipe};
use crate::kdf::{kdf_info, build_info};
use crate::text::push_str;

verus! {

/// The X25519 function of RFC 7748 (`x25519_dalek::x25519`): the
/// u-coordinate `u` multiplied by the clamped scalar `k`, as 32 bytes.
pub uninterp spec fn x25519(k: Seq<u8>, u: Seq<u8>) -> Seq<u8>;

/// The X25519 base point, u = 9.
pub open spec fn x25519_basepoint() -> Seq<u8> {
    Seq::new(32, |i: int| if i == 0 { 9u8 } else { 0u8 })
}

/// Thirty-two zero bytes: the shared secret of a non-contributory exchange.
pub open spec fn zero_secret() -> Seq<u8> {
    Seq::new(32, |i: int| 0u8)
}

/// `StaticSecret::random_from_rng(OsRng)`, as its 32 bytes: a fresh secret
/// from the operating system's generator (nothing is stated of its value).
#[verifier::external_body]
fn random_secret_bytes() -> [u8; 32] {
    StaticSecret::random_from_rng(OsRng).to_bytes()
}

/// `PublicKey::from(&StaticSecret::from(secret))`: the public key of
/// `secret`, which RFC 7748 defines as X25519(secret, 9).
#[verifier::external_body]
fn x25519_public_key(secret: &[u8; 32]) -> (public: [u8; 32])
    ensures
        public@ == x25519(secret@, x25519_basepoint()),
{
    *PublicKey::from(&StaticSecret::from(*secret)).as_bytes()
}

/// `StaticSecret::from(secret).diffie_hellman(&PublicKey::from(peer))`, as
/// the shared secret's bytes and `SharedSecret::was_contributory`. The bytes
/// are X25519(secret, peer), the same multiplication `x25519_dalek::x25519`
/// performs; they are the canonical encoding, so the exchange is
/// contributory exactly when they are not all zero. As the crate documents,
/// both sides of an exchange agree: against the public key of `other`, the
/// secret equals what `other` computes against this secret's public key.
#[verifier::external_body]
fn x25519_exchange(secret: &[u8; 32], peer: &[u8; 32]) -> (r: ([u8; 32], bool))
    ensures
        r.0@ == x25519(secret@, peer@),
        r.1 == (r.0@ != zero_secret()),
        forall|other: Seq<u8>|
            other.len() == 32 && peer@ == #[trigger] x25519(other, x25519_basepoint()) ==> r.0@ == x25519(
                other,
                x25519(secret@, x25519_basepoint()),
            ),
{
    let shared = StaticSecret::from(*secret).diffie_hellman(&PublicKey::from(*peer));
    (*shared.as_bytes(), shared.was_contributory())
}

/// `RngCore::fill_bytes` on `OsRng`: 32 random bytes.
#[verifier::external_body]
fn random_bytes32() -> [u8; 32] {
    let mut out = [0u8; 32];
    OsRng.fill_bytes(&mut out);
    out
}

/// Container for the ephemeral Diffie-Hellman shared secret.
pub struct HandshakeSharedSecret {
    secret: [u8; 32],
}

impl HandshakeSharedSecret {
    pub closed spec fn bytes(&self) -> Seq<u8> {
        self.secret@
    }

    pub fn new(secret: [u8; 32]) -> (s: HandshakeSharedSecret)
        ensures
            s.bytes() == secret@,
    {
        HandshakeSharedSecret { secret }
    }

    pub fn as_bytes(&self) -> (b: &[u8; 32])
        ensures
            b@ == self.bytes(),
    {
        &self.secret
    }

    /// Zeroes the secret in place.
    pub fn wipe(&mut self)
        ensures
            final(self).bytes() == Seq::new(32, |i: int| 0u8),
    {
        wipe(&mut self.secret);
    }
}

/// The handshake's verdict on a Diffie-Hellman output: a non-contributory
/// (low-order or all-zero peer key) output is refused, so key material is
/// never derived from a degenerate secret.
pub fn accept_shared_secret(contributory: bool, bytes: [u8; 32]) -> (r: Result<HandshakeSharedSecret, &'static str>)
    ensures
        contributory ==> r is Ok && r->Ok_0.bytes() == bytes@,
        !contributory ==> r is Err && r->Err_0@ == "non-contributory X25519 public key rejected"@,
{
    if !contributory {
        return Err("non-contributory X25519 public key rejected");
    }
    Ok(HandshakeSharedSecret::new(bytes))
}

/// Ephemeral X25519 key pair and random 32-byte nonce for one handshake.
/// The secret is wiped once the exchange has used it.
pub struct EphemeralKeyPair {
    secret: [u8; 32],
    pub public_key: [u8; 32],
    pub nonce: [u8; 32],
}

impl EphemeralKeyPair {
    /// The secret scalar.
    pub closed spec fn secret_bytes(&self) -> Seq<u8> {
        self.secret@
    }

    /// The public key field.
    pub closed spec fn public_bytes(&self) -> Seq<u8> {
        self.public_key@
    }

    /// A fresh key pair and nonce from the operating system's generator;
    /// the public key is X25519(secret, 9).
    pub fn generate() -> (p: EphemeralKeyPair)
        ensures
            p.public_bytes() == x25519(p.secret_bytes(), x25519_basepoint()),
    {
        let secret = random_secret_bytes();
        let public_key = x25519_public_key(&secret);
        let nonce = random_bytes32();
        EphemeralKeyPair { secret, public_key, nonce }
    }

    /// Diffie-Hellman against the peer's public key: the shared secret is
    /// X25519(secret, peer), and it is refused when all zero (a
    /// non-contributory, low-order peer key). Both ends agree: if the peer's
    /// key is the public key of `other`, the secret is what `other` computes
    /// against this pair's public key. The secret is wiped after use.
    pub fn compute_shared_secret(self, peer_public_key: &[u8; 32]) -> (r: Result<HandshakeSharedSecret, &'static str>)
        ensures
            match r {
                Ok(s) => {
                    &&& s.bytes() == x25519(self.secret_bytes(), peer_public_key@)
                    &&& s.bytes() != zero_secret()
                    &&& forall|other: Seq<u8>|
                        other.len() == 32 && peer_public_key@ == #[trigger] x25519(other, x25519_basepoint())
                            ==> s.bytes() == x25519(other, x25519(self.secret_bytes(), x25519_basepoint()))
                },
                Err(e) => x25519(self.secret_bytes(), peer_public_key@) == zero_secret() && e@
                    == "non-contributory X25519 public key rejected"@,
            },
    {
        let (bytes, contributory) = x25519_exchange(&self.secret, peer_public_key);
        let mut secret = self.secret;
        wipe(&mut secret);
        accept_shared_secret(contributory, bytes)
    }
}

/// A (key, base IV) pair for one traffic direction.
pub type KeyMaterial = ([u8; 32], [u8; 12]);

/// Per-direction AEAD traffic keys derived from the handshake: the client
/// seals with `client_tx` and opens with `server_tx`, the server the other
/// way round.
#[derive(Clone, Copy)]
pub struct DirectionalKeys {
    pub client_tx_key: [u8; 32],
    pub client_tx_iv: [u8; 12],
    pub server_tx_key: [u8; 32],
    pub server_tx_iv: [u8; 12],
}

/// The (seal, open) key material of an endpoint in the given role.
pub open spec fn role_keys(k: DirectionalKeys, as_client: bool) -> (KeyMaterial, KeyMaterial) {
    if as_client {
        ((k.client_tx_key, k.client_tx_iv), (k.server_tx_key, k.server_tx_iv))
    } else {
        ((k.server_tx_key, k.server_tx_iv), (k.client_tx_key, k.client_tx_iv))
    }
}

impl DirectionalKeys {
    /// Returns the (seal, open) key material for an endpoint in the given role.
    pub fn for_role(&self, as_client: bool) -> (r: (KeyMaterial, KeyMaterial))
        ensures
            r == role_keys(*self, as_client),
    {
        if as_client {
            ((self.client_tx_key, self.client_tx_iv), (self.server_tx_key, self.server_tx_iv))
        } else {
            ((self.server_tx_key, self.server_tx_iv), (self.client_tx_key, self.client_tx_iv))
        }
    }

    /// The keys rendered for logs, every field redacted.
    pub fn debug_string(&self) -> (s: String)
        ensures
            s@ == "DirectionalKeys { client_tx_key: \"[REDACTED]\", client_tx_iv: \"[REDACTED]\", server_tx_key: \"[REDACTED]\", server_tx_iv: \"[REDACTED]\" }"@,
    {
        let mut s = String::new();
        push_str(
            &mut s,
            "DirectionalKeys { client_tx_key: \"[REDACTED]\", client_tx_iv: \"[REDACTED]\", server_tx_key: \"[REDACTED]\", server_tx_iv: \"[REDACTED]\" }",
        );
        s
    }
}

/// What one endpoint seals with, the other opens with.
pub proof fn lemma_roles_mirror(k: DirectionalKeys)
    ensures
        role_keys(k, true).0 == role_keys(k, false).1,
        role_keys(k, true).1 == role_keys(k, false).0,
{
}

/// The input key material of the handshake key schedule: the shared secret
/// and both parties' nonces.
pub open spec fn handshake_ikm(shared: Seq<u8>, client_nonce: Seq<u8>, server_nonce: Seq<u8>) -> Seq<u8> {
    shared + client_nonce + server_nonce
}

/// Derives per-direction AEAD keys and base IVs from the X25519 shared
/// secret and the session nonces (HKDF-SHA256 salted with the protocol
/// label, info `label ‖ "gtp/v1  " ‖ cid`).
pub fn derive_directional_handshake_session_keys(
    shared_secret: &HandshakeSharedSecret,
    client_nonce: &[u8; 32],
    server_nonce: &[u8; 32],
    connection_id: ConnectionId,
) -> (k: DirectionalKeys)
    ensures
        ({
            let salt = Some(ascii("GTP_V1_1_X25519_SESSION_KEY_EXCHANGE"@));
            let ikm = handshake_ikm(shared_secret.bytes(), client_nonce@, server_nonce@);
            let cid = connection_id.0;
            &&& k.client_tx_key@ == hkdf_sha256(salt, ikm, kdf_info("c2s key "@, "gtp/v1  "@, cid), 32)
            &&& k.client_tx_iv@ == hkdf_sha256(salt, ikm, kdf_info("c2s iv  "@, "gtp/v1  "@, cid), 12)
            &&& k.server_tx_key@ == hkdf_sha256(salt, ikm, kdf_info("s2c key "@, "gtp/v1  "@, cid), 32)
            &&& k.server_tx_iv@ == hkdf_sha256(salt, ikm, kdf_info("s2c iv  "@, "gtp/v1  "@, cid), 12)
        }),
{
    let mut ikm: Vec<u8> = Vec::new();
    let mut i: usize = 0;
    let s = shared_secret.as_bytes();
    while i < 32
        invariant
            i <= 32,
            ikm@ == s@.take(i as int),
        decreases 32 - i,
    {
        ikm.push(s[i]);
        i = i + 1;
        assert(ikm@ =~= s@.take(i as int));
    }
    let mut j: usize = 0;
    while j < 32
        invariant
            j <= 32,
            ikm@ == s@ + client_nonce@.take(j as int),
        decreases 32 - j,
    {
        assert(s@.take(32) =~= s@);
        ikm.push(client_nonce[j]);
        j = j + 1;
        assert(ikm@ =~= s@ + client_nonce@.take(j as int));
    }
    let mut k: usize = 0;
    while k < 32
        invariant
            k <= 32,
            ikm@ == s@ + client_nonce@ + server_nonce@.take(k as int),
        decreases 32 - k,
    {
        assert(client_nonce@.take(32) =~= client_nonce@);
        ikm.push(server_nonce[k]);
        k = k + 1;
        assert(ikm@ =~= s@ + client_nonce@ + server_nonce@.take(k as int));
    }
    assert(server_nonce@.take(32) =~= server_nonce@);
    assert(s@.take(32) =~= s@);
    assert(client_nonce@.take(32) =~= client_nonce@);
    let salt = ascii_bytes("GTP_V1_1_X25519_SESSION_KEY_EXCHANGE");
    let mut master_key = [0u8; 32];
    let mut client_tx_key = [0u8; 32];
    let mut client_tx_iv = [0u8; 12];
    let mut server_tx_key = [0u8; 32];
    let mut server_tx_iv = [0u8; 12];
    let info = build_info("master  ", "key     ", connection_id.0);
    hkdf_expand(Some(salt.as_slice()), ikm.as_slice(), info.as_slice(), &mut master_key);
    let info = build_info("c2s key ", "gtp/v1  ", connection_id.0);
    hkdf_expand(Some(salt.as_slice()), ikm.as_slice(), info.as_slice(), &mut client_tx_key);
    let info = build_info("c2s iv  ", "gtp/v1  ", connection_id.0);
    hkdf_expand(Some(salt.as_slice()), ikm.as_slice(), info.as_slice(), &mut client_tx_iv);
    let info = build_info("s2c key ", "gtp/v1  ", connection_id.0);
    hkdf_expand(Some(salt.as_slice()), ikm.as_slice(), info.as_slice(), &mut server_tx_key);
    let info = build_info("s2c iv  ", "gtp/v1  ", connection_id.0);
    hkdf_expand(Some(salt.as_slice()), ikm.as_slice(), info.as_slice(), &mut server_tx_iv);
    wipe(&mut master_key);
    wipe(ikm.as_mut_slice());
    DirectionalKeys { client_tx_key, client_tx_iv, server_tx_key, server_tx_iv }
}

/// Appends the bytes of `b` to `v`.
fn append_bytes(v: &mut Vec<u8>, b: &[u8])
    ensures
        final(v)@ == old(v)@ + b@,
{
    let ghost v0 = v@;
    let mut i: usize = 0;
    while i < b.len()
        invariant
            i <= b@.len(),
            v@ == v0 + b@.take(i as int),
        decreases b@.len() - i,
    {
        v.push(b[i]);
        i = i + 1;
        assert(v@ =~= v0 + b@.take(i as int));
    }
    assert(b@.take(b@.len() as int) =~= b@);
}

/// The HKDF info of a ratchet output: `cid ‖ label ‖ phase`, each number
/// as 8 big-endian bytes.
pub open spec fn ratchet_info(connection_id: u64, label: Seq<char>, phase: u64) -> Seq<u8> {
    be_bytes(connection_id) + ascii(label) + be_bytes(phase)
}

fn build_ratchet_info(connection_id: u64, label: &str, phase: u64) -> (info: Vec<u8>)
    ensures
        info@ == ratchet_info(connection_id, label@, phase),
{
    let mut info: Vec<u8> = Vec::new();
    let c = u64_to_be_bytes(connection_id);
    append_bytes(&mut info, &c);
    let l = ascii_bytes(label);
    append_bytes(&mut info, l.as_slice());
    let p = u64_to_be_bytes(phase);
    append_bytes(&mut info, &p);
    info
}

/// The key and base IV of key phase `phase`: HKDF-SHA256 salted with the
/// ratchet label over the current key, info `cid ‖ "KEYPHASE" ‖ phase` for
/// the key and `cid ‖ "PHASE IV" ‖ phase` for the IV, so the phase is bound
/// into both and the IV rotates with the key.
pub fn ratchet_key(current_key: &[u8; 32], connection_id: ConnectionId, phase: u64) -> (next: ([u8; 32], [u8; 12]))
    ensures
        next.0@ == hkdf_sha256(
            Some(ascii("GTP_V1_1_KEY_RATCHET_SALT"@)),
            current_key@,
            ratchet_info(connection_id.0, "KEYPHASE"@, phase),
            32,
        ),
        next.1@ == hkdf_sha256(
            Some(ascii("GTP_V1_1_KEY_RATCHET_SALT"@)),
            current_key@,
            ratchet_info(connection_id.0, "PHASE IV"@, phase),
            12,
        ),
{
    let salt = ascii_bytes("GTP_V1_1_KEY_RATCHET_SALT");
    let key_info = build_ratchet_info(connection_id.0, "KEYPHASE", phase);
    let iv_info = build_ratchet_info(connection_id.0, "PHASE IV", phase);
    let mut next_key = [0u8; 32];
    let mut next_iv = [0u8; 12];
    hkdf_expand(Some(salt.as_slice()), current_key, key_info.as_slice(), &mut next_key);
    hkdf_expand(Some(salt.as_slice()), current_key, iv_info.as_slice(), &mut next_iv);
    (next_key, next_iv)
}

/// What the client's key-confirmation proof covers: both public keys, both
/// nonces and the connection id.
pub struct HandshakeTranscript {
    pub client_pk: [u8; 32],
    pub server_pk: [u8; 32],
    pub client_nonce: [u8; 32],
    pub server_nonce: [u8; 32],
    pub connection_id: ConnectionId,
}

/// The transcript's bytes: `client_pk ‖ server_pk ‖ client_nonce ‖
/// server_nonce ‖ cid` (the id as 8 big-endian bytes).
pub open spec fn transcript_bytes(t: HandshakeTranscript) -> Seq<u8> {
    t.client_pk@ + t.server_pk@ + t.client_nonce@ + t.server_nonce@ + be_bytes(t.connection_id.0)
}

/// The dedicated handshake-confirmation key, derived from the shared secret
/// (separate from the AEAD keys).
pub open spec fn confirmation_key(shared: Seq<u8>) -> Seq<u8> {
    hkdf_sha256(Some(ascii("GTP_V1_1_CONFIRM_SALT"@)), shared, ascii("gtp/v1 handshake finished key"@), 32)
}

/// The client's key-confirmation proof: HMAC-SHA256 under the confirmation
/// key over `"gtp-handshake-finish" ‖ transcript`.
pub open spec fn client_proof(shared: Seq<u8>, t: HandshakeTranscript) -> Seq<u8> {
    hmac_sha256(confirmation_key(shared), ascii("gtp-handshake-finish"@) + transcript_bytes(t))
}

fn derive_confirmation_key(shared: &[u8; 32]) -> (k: [u8; 32])
    ensures
        k@ == confirmation_key(shared@),
{
    let salt = ascii_bytes("GTP_V1_1_CONFIRM_SALT");
    let info = ascii_bytes("gtp/v1 handshake finished key");
    let mut finished = [0u8; 32];
    hkdf_expand(Some(salt.as_slice()), shared, info.as_slice(), &mut finished);
    finished
}

/// Computes the client's key-confirmation proof over the handshake
/// transcript, keyed by the confirmation key of the shared secret.
pub fn compute_client_proof(shared: &HandshakeSharedSecret, transcript: &HandshakeTranscript) -> (proof: [u8; 32])
    ensures
        proof@ == client_proof(shared.bytes(), *transcript),
{
    let finished_key = derive_confirmation_key(shared.as_bytes());
    let mut msg = ascii_bytes("gtp-handshake-finish");
    let ghost m0 = msg@;
    append_bytes(&mut msg, &transcript.client_pk);
    append_bytes(&mut msg, &transcript.server_pk);
    append_bytes(&mut msg, &transcript.client_nonce);
    append_bytes(&mut msg, &transcript.server_nonce);
    let c = u64_to_be_bytes(transcript.connection_id.0);
    append_bytes(&mut msg, &c);
    assert(msg@ =~= m0 + transcript_bytes(*transcript));
    hmac_sha256_tag(&finished_key, msg.as_slice())
}

/// Checks a client key-confirmation proof in constant time: true exactly
/// for the proof `compute_client_proof` gives for the same secret and
/// transcript.
pub fn verify_client_proof(
    shared: &HandshakeSharedSecret,
    transcript: &HandshakeTranscript,
    candidate_proof: &[u8; 32],
) -> (ok: bool)
    ensures
        ok == (candidate_proof@ == client_proof(shared.bytes(), *transcript)),
{
    let expected = compute_client_proof(shared, transcript);
    ct_eq_bytes(&expected, candidate_proof)
}

} // verus!
