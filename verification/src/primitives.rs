//! The cryptographic primitives the key schedule and packet protection rest
//! on, each a thin call into its crate: HKDF-SHA256, HMAC-SHA256,
//! constant-time comparison and zeroization.
use vstd::prelude::*;
use hkdf::Hkdf;
use hmac::Hmac;
use hmac::Mac;
use sha2::Sha256;
use subtle::ConstantTimeEq;
use zeroize::Zeroize;

verus! {

/// The bytes of an ASCII string.
pub open spec fn ascii(s: Seq<char>) -> Seq<u8> {
    s.map_values(|c: char| (c as u32) as u8)
}

/// The bytes of the string `s` (its characters' low bytes: exact for ASCII).
pub fn ascii_bytes(s: &str) -> (v: Vec<u8>)
    ensures
        v@ == ascii(s@),
{
    let n = s.unicode_len();
    let mut v: Vec<u8> = Vec::new();
    let mut i: usize = 0;
    while i < n
        invariant
            n == s@.len(),
            i <= n,
            v@ == ascii(s@.take(i as int)),
        decreases n - i,
    {
        let c = s.get_char(i);
        #[verifier::truncate]
        let b = (c as u32) as u8;
        v.push(b);
        i = i + 1;
        assert(v@ =~= ascii(s@.take(i as int)));
    }
    assert(s@.take(n as int) =~= s@);
    v
}

/// The HKDF-SHA256 output (RFC 5869: extract with `salt`, expand with `info`)
/// of `len` bytes for input key material `ikm`.
pub uninterp spec fn hkdf_sha256(salt: Option<Seq<u8>>, ikm: Seq<u8>, info: Seq<u8>, len: nat) -> Seq<u8>;

/// `hkdf::Hkdf::<Sha256>::new(salt, ikm)` followed by `expand(info, out)`:
/// fills `out` with the HKDF-SHA256 output of its length. The crate refuses
/// lengths above 255 hash blocks, which the precondition leaves out.
#[verifier::external_body]
pub(crate) fn hkdf_expand(salt: Option<&[u8]>, ikm: &[u8], info: &[u8], out: &mut [u8])
    requires
        old(out)@.len() <= 255 * 32,
    ensures
        final(out)@ == hkdf_sha256(
            match salt {
                Some(s) => Some(s@),
                None => None,
            },
            ikm@,
            info@,
            old(out)@.len(),
        ),
{
    let hk = Hkdf::<Sha256>::new(salt, ikm);
    hk.expand(info, out).expect("output length within 255 blocks");
}

/// The HMAC-SHA256 tag of `msg` under `key`.
pub uninterp spec fn hmac_sha256(key: Seq<u8>, msg: Seq<u8>) -> Seq<u8>;

/// `hmac::Hmac::<Sha256>`: keyed with `key` (any length is accepted),
/// updated with `msg`, finalized; the 32-byte tag.
#[verifier::external_body]
pub(crate) fn hmac_sha256_tag(key: &[u8], msg: &[u8]) -> (tag: [u8; 32])
    ensures
        tag@ == hmac_sha256(key@, msg@),
{
    let mut mac = <Hmac<Sha256> as Mac>::new_from_slice(key).expect("HMAC accepts any key length");
    mac.update(msg);
    let out = mac.finalize().into_bytes();
    let mut tag = [0u8; 32];
    tag.copy_from_slice(&out);
    tag
}

/// `subtle::ConstantTimeEq::ct_eq` on byte slices: true exactly when the
/// slices have the same length and bytes, in time independent of where they
/// differ.
#[verifier::external_body]
pub(crate) fn ct_eq_bytes(a: &[u8], b: &[u8]) -> (eq: bool)
    ensures
        eq == (a@ == b@),
{
    a.ct_eq(b).into()
}

/// `zeroize::Zeroize::zeroize` on a byte slice: every byte becomes zero, in
/// a write the compiler may not elide.
#[verifier::external_body]
pub(crate) fn wipe(bytes: &mut [u8])
    ensures
        final(bytes)@ == Seq::new(old(bytes)@.len(), |i: int| 0u8),
{
    bytes.zeroize();
}

} // verus!
