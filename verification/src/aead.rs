//! ChaCha20-Poly1305 packet protection with deterministic 96-bit nonces.
use vstd::prelude::*;
use chacha20poly1305::aead::AeadInPlace;
use chacha20poly1305::aead::KeyInit;
use chacha20poly1305::{ChaCha20Poly1305, Key, Nonce, Tag};
use crate::types::{ConnectionId, PacketNumber, TransportError, be_bytes, u64_to_be_bytes, lemma_be_bytes_injective};
use crate::primitives::wipe;
use crate::text::push_str;

verus! {

pub const AEAD_TAG_LEN: usize = 16;

/// The ChaCha20-Poly1305 (RFC 8439) sealing of `plaintext` under `key`,
/// `nonce` and associated data `aad`: the ciphertext followed by the 16-byte
/// tag.
pub uninterp spec fn chacha20poly1305_seal(key: Seq<u8>, nonce: Seq<u8>, aad: Seq<u8>, plaintext: Seq<u8>) -> Seq<u8>;

/// The crate refuses messages of `u32::MAX` or more 64-byte blocks.
pub open spec fn aead_len_ok(len: nat) -> bool {
    len / 64 < u32::MAX
}

/// `ChaCha20Poly1305::encrypt_in_place_detached` on `buf[..len]`: the first
/// `len` bytes become the ciphertext and the tag is returned, together the
/// sealing of the plaintext; `None` (buffer untouched) when the crate refuses
/// the length.
#[verifier::external_body]
fn chacha_encrypt(key: &[u8; 32], nonce: &[u8; 12], aad: &[u8], buf: &mut [u8], len: usize) -> (tag: Option<[u8; 16]>)
    requires
        len <= old(buf)@.len(),
    ensures
        final(buf)@.len() == old(buf)@.len(),
        final(buf)@.skip(len as int) == old(buf)@.skip(len as int),
        tag is Some <==> aead_len_ok(len as nat),
        match tag {
            Some(t) => final(buf)@.take(len as int) + t@ == chacha20poly1305_seal(
                key@,
                nonce@,
                aad@,
                old(buf)@.take(len as int),
            ),
            None => final(buf)@ == old(buf)@,
        },
{
    let cipher = ChaCha20Poly1305::new(Key::from_slice(key));
    match cipher.encrypt_in_place_detached(Nonce::from_slice(nonce), aad, &mut buf[..len]) {
        Ok(t) => {
            let mut out = [0u8; 16];
            out.copy_from_slice(t.as_slice());
            Some(out)
        },
        Err(_) => None,
    }
}

/// `ChaCha20Poly1305::decrypt_in_place_detached` on `buf[..len - 16]` with the
/// tag `buf[len - 16..len]`. The tag is checked before any byte changes: on
/// failure the buffer is untouched. It succeeds exactly when the `len` bytes
/// are the sealing of some plaintext of `len - 16` bytes (within the
/// crate's length limit), and then leaves that plaintext in front.
#[verifier::external_body]
fn chacha_decrypt(key: &[u8; 32], nonce: &[u8; 12], aad: &[u8], buf: &mut [u8], len: usize) -> (ok: bool)
    requires
        16 <= len <= old(buf)@.len(),
    ensures
        final(buf)@.len() == old(buf)@.len(),
        final(buf)@.skip(len - 16) == old(buf)@.skip(len - 16),
        ok == (aead_len_ok((len - 16) as nat) && exists|p: Seq<u8>|
            p.len() == len - 16 && #[trigger] chacha20poly1305_seal(key@, nonce@, aad@, p) == old(buf)@.take(len as int)),
        ok ==> chacha20poly1305_seal(key@, nonce@, aad@, final(buf)@.take(len - 16)) == old(buf)@.take(len as int),
        ok ==> forall|p: Seq<u8>|
            p.len() == len - 16 && #[trigger] chacha20poly1305_seal(key@, nonce@, aad@, p) == old(buf)@.take(len as int)
                ==> final(buf)@.take(len - 16) == p,
        ok == false ==> final(buf)@ == old(buf)@,
{
    let cipher = ChaCha20Poly1305::new(Key::from_slice(key));
    let (data, tag) = buf[..len].split_at_mut(len - 16);
    cipher.decrypt_in_place_detached(Nonce::from_slice(nonce), aad, data, Tag::from_slice(tag)).is_ok()
}

/// The nonce of packet `pn` on connection `cid`: the base IV XOR
/// (CID's top four big-endian bytes ‖ the full 64-bit packet number).
pub open spec fn packet_nonce(iv: Seq<u8>, cid: u64, pn: u64) -> Seq<u8> {
    Seq::new(12, |i: int| if i < 4 { iv[i] ^ be_bytes(cid)[i] } else { iv[i] ^ be_bytes(pn)[i - 4] })
}

/// ChaCha20-Poly1305 AEAD packet protector with deterministic nonces.
#[derive(Clone)]
pub struct GtpAeadProtector {
    key: [u8; 32],
    iv: [u8; 12],
}

impl GtpAeadProtector {
    pub closed spec fn key_bytes(&self) -> Seq<u8> {
        self.key@
    }

    pub closed spec fn iv_bytes(&self) -> Seq<u8> {
        self.iv@
    }

    pub fn new(key: [u8; 32], iv: [u8; 12]) -> (p: GtpAeadProtector)
        ensures
            p.key_bytes() == key@,
            p.iv_bytes() == iv@,
    {
        GtpAeadProtector { key, iv }
    }

    /// The 96-bit nonce: base IV XOR (CID ‖ full 64-bit packet number).
    pub fn derive_nonce(&self, cid: ConnectionId, pn: PacketNumber) -> (nonce: [u8; 12])
        ensures
            nonce@ == packet_nonce(self.iv_bytes(), cid.0, pn.0),
    {
        let mut nonce = self.iv;
        let cid_bytes = u64_to_be_bytes(cid.0);
        let pn_bytes = u64_to_be_bytes(pn.as_u64());
        let mut i: usize = 0;
        while i < 4
            invariant
                i <= 4,
                cid_bytes@ == be_bytes(cid.0),
                forall|j: int| 0 <= j < i ==> nonce@[j] == self.iv@[j] ^ cid_bytes@[j],
                forall|j: int| i <= j < 12 ==> nonce@[j] == self.iv@[j],
            decreases 4 - i,
        {
            nonce[i] = nonce[i] ^ cid_bytes[i];
            i = i + 1;
        }
        let mut k: usize = 0;
        while k < 8
            invariant
                k <= 8,
                cid_bytes@ == be_bytes(cid.0),
                pn_bytes@ == be_bytes(pn.0),
                forall|j: int| 0 <= j < 4 ==> nonce@[j] == self.iv@[j] ^ cid_bytes@[j],
                forall|j: int| 4 <= j < 4 + k ==> nonce@[j] == self.iv@[j] ^ pn_bytes@[j - 4],
                forall|j: int| 4 + k <= j < 12 ==> nonce@[j] == self.iv@[j],
            decreases 8 - k,
        {
            nonce[4 + k] = nonce[4 + k] ^ pn_bytes[k];
            k = k + 1;
        }
        assert(nonce@ =~= packet_nonce(self.iv_bytes(), cid.0, pn.0));
        nonce
    }

    /// Encrypts `payload[..payload_len]` in place and appends the 16-byte
    /// tag; the sealed length.
    pub fn seal(
        &self,
        packet_number: PacketNumber,
        connection_id: ConnectionId,
        aad: &[u8],
        payload: &mut [u8],
        payload_len: usize,
    ) -> (r: Result<usize, TransportError>)
        ensures
            final(payload)@.len() == old(payload)@.len(),
            payload_len + AEAD_TAG_LEN > old(payload)@.len() ==> r == Err::<usize, TransportError>(
                TransportError::BufferOverflow,
            ) && final(payload)@ == old(payload)@,
            payload_len + AEAD_TAG_LEN <= old(payload)@.len() && !aead_len_ok(payload_len as nat) ==> r == Err::<
                usize,
                TransportError,
            >(TransportError::CryptoFailure) && final(payload)@ == old(payload)@,
            payload_len + AEAD_TAG_LEN <= old(payload)@.len() && aead_len_ok(payload_len as nat) ==> {
                &&& r == Ok::<usize, TransportError>((payload_len + AEAD_TAG_LEN) as usize)
                &&& final(payload)@.take(payload_len + AEAD_TAG_LEN) == chacha20poly1305_seal(
                    self.key_bytes(),
                    packet_nonce(self.iv_bytes(), connection_id.0, packet_number.0),
                    aad@,
                    old(payload)@.take(payload_len as int),
                )
                &&& final(payload)@.skip(payload_len + AEAD_TAG_LEN) == old(payload)@.skip(
                    payload_len + AEAD_TAG_LEN,
                )
            },
    {
        let plen = payload.len();
        let needed = match payload_len.checked_add(AEAD_TAG_LEN) {
            Some(n) => n,
            None => {
                return Err(TransportError::BufferOverflow);
            },
        };
        if payload.len() < needed {
            return Err(TransportError::BufferOverflow);
        }
        let nonce = self.derive_nonce(connection_id, packet_number);
        let ghost before = payload@;
        match chacha_encrypt(&self.key, &nonce, aad, payload, payload_len) {
            Some(tag) => {
                let ghost mid = payload@;
                let mut i: usize = 0;
                while i < AEAD_TAG_LEN
                    invariant
                        i <= AEAD_TAG_LEN,
                        needed == payload_len + AEAD_TAG_LEN,
                        needed <= payload@.len(),
                        payload@.len() == mid.len(),
                        forall|j: int| 0 <= j < payload_len ==> payload@[j] == mid[j],
                        forall|j: int| 0 <= j < i ==> payload@[payload_len + j] == tag@[j],
                        forall|j: int| needed <= j < payload@.len() ==> payload@[j] == mid[j],
                    decreases AEAD_TAG_LEN - i,
                {
                    payload[payload_len + i] = tag[i];
                    i = i + 1;
                }
                assert(payload@.take(needed as int) =~= mid.take(payload_len as int) + tag@);
                assert(payload@.skip(needed as int) =~= mid.skip(needed as int));
                assert(mid.skip(needed as int) =~= mid.skip(payload_len as int).skip(AEAD_TAG_LEN as int));
                assert(before.skip(needed as int) =~= before.skip(payload_len as int).skip(AEAD_TAG_LEN as int));
                Ok(needed)
            },
            None => Err(TransportError::CryptoFailure),
        }
    }

    /// Authenticates and decrypts `payload[..ciphertext_len]` in place; the
    /// plaintext length. On any error the buffer is left byte-identical, so
    /// a caller may retry with another key.
    pub fn open(
        &self,
        packet_number: PacketNumber,
        connection_id: ConnectionId,
        aad: &[u8],
        payload: &mut [u8],
        ciphertext_len: usize,
    ) -> (r: Result<usize, TransportError>)
        ensures
            final(payload)@.len() == old(payload)@.len(),
            r is Err ==> final(payload)@ == old(payload)@,
            ciphertext_len < AEAD_TAG_LEN || old(payload)@.len() < ciphertext_len ==> r == Err::<
                usize,
                TransportError,
            >(TransportError::BufferTooShort),
            AEAD_TAG_LEN <= ciphertext_len <= old(payload)@.len() ==> {
                let nonce = packet_nonce(self.iv_bytes(), connection_id.0, packet_number.0);
                let sealed = old(payload)@.take(ciphertext_len as int);
                let n = (ciphertext_len - AEAD_TAG_LEN) as usize;
                &&& (r is Ok <==> aead_len_ok(n as nat) && exists|p: Seq<u8>|
                    p.len() == n && #[trigger] chacha20poly1305_seal(self.key_bytes(), nonce, aad@, p) == sealed)
                &&& r is Err ==> r == Err::<usize, TransportError>(TransportError::CryptoFailure)
                &&& r is Ok ==> r == Ok::<usize, TransportError>(n)
                    && chacha20poly1305_seal(self.key_bytes(), nonce, aad@, final(payload)@.take(n as int)) == sealed
                    && final(payload)@.skip(n as int) == old(payload)@.skip(n as int)
                // What was sealed is what is opened.
                &&& forall|p: Seq<u8>|
                    p.len() == n && aead_len_ok(n as nat) && #[trigger] chacha20poly1305_seal(self.key_bytes(), nonce, aad@, p)
                        == sealed ==> r == Ok::<usize, TransportError>(n) && final(payload)@.take(n as int) == p
            },
    {
        if ciphertext_len < AEAD_TAG_LEN || payload.len() < ciphertext_len {
            return Err(TransportError::BufferTooShort);
        }
        let plaintext_len = ciphertext_len - AEAD_TAG_LEN;
        let nonce = self.derive_nonce(connection_id, packet_number);
        let ghost pn = packet_nonce(self.iv_bytes(), connection_id.0, packet_number.0);
        let ghost sealed = payload@.take(ciphertext_len as int);
        let ok = chacha_decrypt(&self.key, &nonce, aad, payload, ciphertext_len);
        proof {
            assert(nonce@ == pn);
            assert(self.key@ == self.key_bytes());
            if exists|p: Seq<u8>| p.len() == plaintext_len && #[trigger] chacha20poly1305_seal(self.key_bytes(), pn, aad@, p) == sealed {
                let w = choose|p: Seq<u8>| p.len() == plaintext_len && #[trigger] chacha20poly1305_seal(self.key_bytes(), pn, aad@, p) == sealed;
                assert(chacha20poly1305_seal(self.key@, nonce@, aad@, w) == sealed);
            }
            if ok {
                let w = choose|p: Seq<u8>| p.len() == plaintext_len && #[trigger] chacha20poly1305_seal(self.key@, nonce@, aad@, p) == sealed;
                assert(chacha20poly1305_seal(self.key_bytes(), pn, aad@, w) == sealed);
            }
        }
        if ok {
            Ok(plaintext_len)
        } else {
            Err(TransportError::CryptoFailure)
        }
    }

    /// Authentication tag overhead in bytes.
    pub fn tag_len(&self) -> (n: usize)
        ensures
            n == AEAD_TAG_LEN,
    {
        AEAD_TAG_LEN
    }

    /// Wipes the key material (zeroes key and IV).
    pub fn wipe_keys(&mut self)
        ensures
            final(self).key_bytes() == Seq::new(32, |i: int| 0u8),
            final(self).iv_bytes() == Seq::new(12, |i: int| 0u8),
    {
        wipe(&mut self.key);
        wipe(&mut self.iv);
    }

    /// The protector rendered for logs, key material redacted.
    pub fn debug_string(&self) -> (s: String)
        ensures
            s@ == "GtpAeadProtector { key: \"[REDACTED; 32 bytes]\", iv: \"[REDACTED; 12 bytes]\" }"@,
    {
        let mut s = String::new();
        push_str(&mut s, "GtpAeadProtector { key: \"[REDACTED; 32 bytes]\", iv: \"[REDACTED; 12 bytes]\" }");
        s
    }
}

/// Distinct packet numbers of one connection never share a nonce: the full
/// 64-bit packet number enters it.
pub proof fn lemma_nonce_unique(iv: Seq<u8>, cid: u64, pn1: u64, pn2: u64)
    requires
        iv.len() == 12,
        packet_nonce(iv, cid, pn1) == packet_nonce(iv, cid, pn2),
    ensures
        pn1 == pn2,
{
    let b1 = be_bytes(pn1);
    let b2 = be_bytes(pn2);
    assert forall|k: int| 0 <= k < 8 implies b1[k] == b2[k] by {
        let a = iv[k + 4];
        assert(packet_nonce(iv, cid, pn1)[k + 4] == packet_nonce(iv, cid, pn2)[k + 4]);
        let x = b1[k];
        let y = b2[k];
        assert(packet_nonce(iv, cid, pn1)[k + 4] == a ^ x);
        assert(packet_nonce(iv, cid, pn2)[k + 4] == a ^ y);
        assert(a ^ x == a ^ y ==> x == y) by (bit_vector);
    }
    assert(b1 =~= b2);
    lemma_be_bytes_injective(pn1, pn2);
}

/// Static-dispatch packet protector.
#[derive(Clone)]
pub enum Protector {
    Aead(GtpAeadProtector),
}

impl Protector {
    /// Seals with the variant's protector.
    pub fn seal(
        &self,
        packet_number: PacketNumber,
        connection_id: ConnectionId,
        aad: &[u8],
        payload: &mut [u8],
        payload_len: usize,
    ) -> (r: Result<usize, TransportError>)
        ensures
            match self {
                Protector::Aead(p) => {
                    &&& final(payload)@.len() == old(payload)@.len()
                    &&& payload_len + AEAD_TAG_LEN > old(payload)@.len() ==> r == Err::<usize, TransportError>(
                        TransportError::BufferOverflow,
                    ) && final(payload)@ == old(payload)@
                    &&& payload_len + AEAD_TAG_LEN <= old(payload)@.len() && !aead_len_ok(payload_len as nat)
                        ==> r == Err::<usize, TransportError>(TransportError::CryptoFailure) && final(payload)@
                        == old(payload)@
                    &&& payload_len + AEAD_TAG_LEN <= old(payload)@.len() && aead_len_ok(payload_len as nat) ==> {
                        &&& r == Ok::<usize, TransportError>((payload_len + AEAD_TAG_LEN) as usize)
                        &&& final(payload)@.take(payload_len + AEAD_TAG_LEN) == chacha20poly1305_seal(
                            p.key_bytes(),
                            packet_nonce(p.iv_bytes(), connection_id.0, packet_number.0),
                            aad@,
                            old(payload)@.take(payload_len as int),
                        )
                        &&& final(payload)@.skip(payload_len + AEAD_TAG_LEN) == old(payload)@.skip(
                            payload_len + AEAD_TAG_LEN,
                        )
                    }
                },
            },
    {
        match self {
            Protector::Aead(p) => p.seal(packet_number, connection_id, aad, payload, payload_len),
        }
    }

    /// Opens with the variant's protector; the buffer is untouched on error.
    pub fn open(
        &self,
        packet_number: PacketNumber,
        connection_id: ConnectionId,
        aad: &[u8],
        payload: &mut [u8],
        ciphertext_len: usize,
    ) -> (r: Result<usize, TransportError>)
        ensures
            final(payload)@.len() == old(payload)@.len(),
            r is Err ==> final(payload)@ == old(payload)@,
            match self {
                Protector::Aead(p) => {
                    &&& ciphertext_len < AEAD_TAG_LEN || old(payload)@.len() < ciphertext_len ==> r == Err::<
                        usize,
                        TransportError,
                    >(TransportError::BufferTooShort)
                    &&& AEAD_TAG_LEN <= ciphertext_len <= old(payload)@.len() ==> {
                        let nonce = packet_nonce(p.iv_bytes(), connection_id.0, packet_number.0);
                        let sealed = old(payload)@.take(ciphertext_len as int);
                        let n = (ciphertext_len - AEAD_TAG_LEN) as usize;
                        &&& (r is Ok <==> aead_len_ok(n as nat) && exists|pt: Seq<u8>|
                            pt.len() == n && #[trigger] chacha20poly1305_seal(p.key_bytes(), nonce, aad@, pt) == sealed)
                        &&& r is Err ==> r == Err::<usize, TransportError>(TransportError::CryptoFailure)
                        &&& r is Ok ==> r == Ok::<usize, TransportError>(n) && chacha20poly1305_seal(
                            p.key_bytes(),
                            nonce,
                            aad@,
                            final(payload)@.take(n as int),
                        ) == sealed && final(payload)@.skip(n as int) == old(payload)@.skip(n as int)
                        &&& forall|pt: Seq<u8>|
                            pt.len() == n && aead_len_ok(n as nat) && #[trigger] chacha20poly1305_seal(
                                p.key_bytes(),
                                nonce,
                                aad@,
                                pt,
                            ) == sealed ==> r == Ok::<usize, TransportError>(n) && final(payload)@.take(n as int) == pt
                    }
                },
            },
    {
        match self {
            Protector::Aead(p) => p.open(packet_number, connection_id, aad, payload, ciphertext_len),
        }
    }

    /// Authentication tag overhead in bytes.
    pub fn tag_len(&self) -> (n: usize)
        ensures
            n == AEAD_TAG_LEN,
    {
        match self {
            Protector::Aead(p) => p.tag_len(),
        }
    }
}

} // verus!
