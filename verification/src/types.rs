//! Plain value types shared by every layer: time, packet numbers,
//! connection identifiers and the transport error.
use vstd::prelude::*;

verus! {

/// A span of time with microsecond resolution.
#[derive(Clone, Copy, Debug, PartialEq, Eq, Structural, PartialOrd, Ord, Hash, Default)]
pub struct Duration {
    pub micros: u64,
}

impl Duration {
    /// The empty span.
    pub fn zero() -> (d: Duration)
        ensures
            d.micros == 0,
    {
        Duration { micros: 0 }
    }

    pub fn from_micros(micros: u64) -> (d: Duration)
        ensures
            d.micros == micros,
    {
        Duration { micros }
    }

    pub fn from_millis(millis: u64) -> (d: Duration)
        requires
            millis * 1000 <= u64::MAX,
        ensures
            d.micros == millis * 1000,
    {
        Duration { micros: millis * 1000 }
    }

    pub fn from_secs(secs: u64) -> (d: Duration)
        requires
            secs * 1_000_000 <= u64::MAX,
        ensures
            d.micros == secs * 1_000_000,
    {
        Duration { micros: secs * 1_000_000 }
    }

    pub fn as_micros(&self) -> (m: u64)
        ensures
            m == self.micros,
    {
        self.micros
    }

    /// Sum of two durations, saturating at the largest representable span.
    pub fn saturating_add(self, other: Duration) -> (d: Duration)
        ensures
            d.micros == spec_saturating_add(self.micros, other.micros),
    {
        Duration { micros: self.micros.saturating_add(other.micros) }
    }
}

impl vstd::std_specs::ops::AddSpecImpl for Duration {
    open spec fn obeys_add_spec() -> bool {
        true
    }

    open spec fn add_req(self, rhs: Duration) -> bool {
        true
    }

    open spec fn add_spec(self, rhs: Duration) -> Duration {
        Duration { micros: spec_saturating_add(self.micros, rhs.micros) }
    }
}

impl core::ops::Add for Duration {
    type Output = Duration;

    fn add(self, other: Duration) -> Duration {
        self.saturating_add(other)
    }
}

/// A point on the local monotonic clock, in microseconds since its origin.
#[derive(Clone, Copy, Debug, PartialEq, Eq, Structural, PartialOrd, Ord, Hash, Default)]
pub struct MonotonicTime {
    pub micros: u64,
}

impl MonotonicTime {
    /// The clock's origin.
    pub fn zero() -> (t: MonotonicTime)
        ensures
            t.micros == 0,
    {
        MonotonicTime { micros: 0 }
    }

    pub fn from_micros(micros: u64) -> (t: MonotonicTime)
        ensures
            t.micros == micros,
    {
        MonotonicTime { micros }
    }

    pub fn as_micros(&self) -> (m: u64)
        ensures
            m == self.micros,
    {
        self.micros
    }

    /// Time elapsed since `earlier`; zero when `earlier` lies in the future.
    pub fn duration_since(&self, earlier: MonotonicTime) -> (d: Duration)
        ensures
            d.micros == spec_elapsed(earlier, *self),
    {
        Duration { micros: self.micros.saturating_sub(earlier.micros) }
    }

    /// This instant moved forward by `d`, saturating at the end of the clock.
    pub fn plus(self, d: Duration) -> (t: MonotonicTime)
        ensures
            t.micros == spec_saturating_add(self.micros, d.micros),
    {
        MonotonicTime { micros: self.micros.saturating_add(d.micros) }
    }
}

impl vstd::std_specs::ops::AddSpecImpl<Duration> for MonotonicTime {
    open spec fn obeys_add_spec() -> bool {
        true
    }

    open spec fn add_req(self, rhs: Duration) -> bool {
        true
    }

    open spec fn add_spec(self, rhs: Duration) -> MonotonicTime {
        MonotonicTime { micros: spec_saturating_add(self.micros, rhs.micros) }
    }
}

impl core::ops::Add<Duration> for MonotonicTime {
    type Output = MonotonicTime;

    fn add(self, d: Duration) -> MonotonicTime {
        self.plus(d)
    }
}

/// `a + b`, saturating at `u64::MAX`.
pub open spec fn spec_saturating_add(a: u64, b: u64) -> u64 {
    if a + b > u64::MAX { u64::MAX } else { (a + b) as u64 }
}

/// Saturating elapsed time from `earlier` to `later`, in microseconds.
pub open spec fn spec_elapsed(earlier: MonotonicTime, later: MonotonicTime) -> nat {
    if later.micros >= earlier.micros {
        (later.micros - earlier.micros) as nat
    } else {
        0
    }
}

/// The 8 big-endian bytes of `x`.
pub open spec fn be_bytes(x: u64) -> Seq<u8> {
    seq![
        ((x >> 56u64) & 0xff) as u8,
        ((x >> 48u64) & 0xff) as u8,
        ((x >> 40u64) & 0xff) as u8,
        ((x >> 32u64) & 0xff) as u8,
        ((x >> 24u64) & 0xff) as u8,
        ((x >> 16u64) & 0xff) as u8,
        ((x >> 8u64) & 0xff) as u8,
        (x & 0xff) as u8,
    ]
}

/// The 8 big-endian bytes of `x`.
pub fn u64_to_be_bytes(x: u64) -> (b: [u8; 8])
    ensures
        b@ == be_bytes(x),
{
    #[verifier::truncate]
    let b: [u8; 8] = [
        ((x >> 56u64) & 0xff) as u8,
        ((x >> 48u64) & 0xff) as u8,
        ((x >> 40u64) & 0xff) as u8,
        ((x >> 32u64) & 0xff) as u8,
        ((x >> 24u64) & 0xff) as u8,
        ((x >> 16u64) & 0xff) as u8,
        ((x >> 8u64) & 0xff) as u8,
        (x & 0xff) as u8,
    ];
    assert(b@ =~= be_bytes(x));
    b
}

/// The `u64` whose big-endian bytes are the first eight of `b`.
pub open spec fn be_u64(b: Seq<u8>) -> u64 {
    ((b[0] as u64) << 56u64) | ((b[1] as u64) << 48u64) | ((b[2] as u64) << 40u64) | ((b[3] as u64) << 32u64) | ((
    b[4] as u64) << 24u64) | ((b[5] as u64) << 16u64) | ((b[6] as u64) << 8u64) | (b[7] as u64)
}

/// Decoding the encoding of `x` gives `x` back.
pub proof fn lemma_be_roundtrip(x: u64)
    ensures
        be_u64(be_bytes(x)) == x,
{
    let b = be_bytes(x);
    let (b0, b1, b2, b3, b4, b5, b6, b7) = (b[0], b[1], b[2], b[3], b[4], b[5], b[6], b[7]);
    assert(((b0 as u64) << 56u64) | ((b1 as u64) << 48u64) | ((b2 as u64) << 40u64) | ((b3 as u64) << 32u64) | ((b4
        as u64) << 24u64) | ((b5 as u64) << 16u64) | ((b6 as u64) << 8u64) | (b7 as u64) == x) by (bit_vector)
        requires
            b0 == ((x >> 56u64) & 0xff) as u8,
            b1 == ((x >> 48u64) & 0xff) as u8,
            b2 == ((x >> 40u64) & 0xff) as u8,
            b3 == ((x >> 32u64) & 0xff) as u8,
            b4 == ((x >> 24u64) & 0xff) as u8,
            b5 == ((x >> 16u64) & 0xff) as u8,
            b6 == ((x >> 8u64) & 0xff) as u8,
            b7 == (x & 0xff) as u8,
    ;
}

/// The `u64` whose big-endian bytes are `b`.
pub fn u64_from_be_bytes(b: [u8; 8]) -> (x: u64)
    ensures
        be_bytes(x) == b@,
        x == be_u64(b@),
{
    let (b0, b1, b2, b3, b4, b5, b6, b7) = (b[0] as u64, b[1] as u64, b[2] as u64, b[3] as u64, b[4] as u64, b[5]
        as u64, b[6] as u64, b[7] as u64);
    let x: u64 = (b0 << 56u64) | (b1 << 48u64) | (b2 << 40u64) | (b3 << 32u64) | (b4 << 24u64) | (b5 << 16u64) | (b6
        << 8u64) | b7;
    assert(((x >> 56u64) & 0xff) == b0 && ((x >> 48u64) & 0xff) == b1 && ((x >> 40u64) & 0xff) == b2 && ((x
        >> 32u64) & 0xff) == b3 && ((x >> 24u64) & 0xff) == b4 && ((x >> 16u64) & 0xff) == b5 && ((x >> 8u64)
        & 0xff) == b6 && (x & 0xff) == b7) by (bit_vector)
        requires
            b0 < 256 && b1 < 256 && b2 < 256 && b3 < 256 && b4 < 256 && b5 < 256 && b6 < 256 && b7 < 256,
            x == (b0 << 56u64) | (b1 << 48u64) | (b2 << 40u64) | (b3 << 32u64) | (b4 << 24u64) | (b5 << 16u64) | (b6
                << 8u64) | b7,
    ;
    assert(be_bytes(x) =~= b@);
    x
}

/// Distinct values have distinct big-endian encodings.
pub proof fn lemma_be_bytes_injective(x: u64, y: u64)
    requires
        be_bytes(x) == be_bytes(y),
    ensures
        x == y,
{
    assert(be_bytes(x)[0] == be_bytes(y)[0]);
    assert(be_bytes(x)[1] == be_bytes(y)[1]);
    assert(be_bytes(x)[2] == be_bytes(y)[2]);
    assert(be_bytes(x)[3] == be_bytes(y)[3]);
    assert(be_bytes(x)[4] == be_bytes(y)[4]);
    assert(be_bytes(x)[5] == be_bytes(y)[5]);
    assert(be_bytes(x)[6] == be_bytes(y)[6]);
    assert(be_bytes(x)[7] == be_bytes(y)[7]);
    assert(x == y) by (bit_vector)
        requires
            ((x >> 56u64) & 0xff) as u8 == ((y >> 56u64) & 0xff) as u8,
            ((x >> 48u64) & 0xff) as u8 == ((y >> 48u64) & 0xff) as u8,
            ((x >> 40u64) & 0xff) as u8 == ((y >> 40u64) & 0xff) as u8,
            ((x >> 32u64) & 0xff) as u8 == ((y >> 32u64) & 0xff) as u8,
            ((x >> 24u64) & 0xff) as u8 == ((y >> 24u64) & 0xff) as u8,
            ((x >> 16u64) & 0xff) as u8 == ((y >> 16u64) & 0xff) as u8,
            ((x >> 8u64) & 0xff) as u8 == ((y >> 8u64) & 0xff) as u8,
            (x & 0xff) as u8 == (y & 0xff) as u8,
    ;
}

/// A packet number: strictly increasing per connection and direction.
#[derive(Clone, Copy, Debug, PartialEq, Eq, Structural, PartialOrd, Ord, Hash, Default)]
pub struct PacketNumber(pub u64);

impl PacketNumber {
    pub fn as_u64(&self) -> (v: u64)
        ensures
            v == self.0,
    {
        self.0
    }
}

/// The 64-bit connection identifier.
#[derive(Clone, Copy, Debug, PartialEq, Eq, Structural, PartialOrd, Ord, Hash, Default)]
pub struct ConnectionId(pub u64);

/// Index of one fragment within a fragmented message.
#[derive(Clone, Copy, Debug, PartialEq, Eq, Structural, PartialOrd, Ord, Hash, Default)]
pub struct FragmentId(pub u16);

impl FragmentId {
    pub fn as_u16(&self) -> (v: u16)
        ensures
            v == self.0,
    {
        self.0
    }
}

/// Identifier of one logical message.
#[derive(Clone, Copy, Debug, PartialEq, Eq, Structural, PartialOrd, Ord, Hash, Default)]
pub struct MessageId(pub u64);

/// Identifier of one transmission attempt of a fragment.
#[derive(Clone, Copy, Debug, PartialEq, Eq, Structural, PartialOrd, Ord, Hash, Default)]
pub struct TransmissionId(pub u64);

/// Errors surfaced by the transport.
#[derive(Clone, Copy, Debug, PartialEq, Eq, Structural)]
pub enum TransportError {
    /// A state transition or frame that the protocol forbids.
    ProtocolViolation,
    /// The output buffer cannot hold the result.
    BufferOverflow,
    /// The input is shorter than its declared length.
    BufferTooShort,
    /// Authentication or decryption failed.
    CryptoFailure,
    /// A packet number was seen before or lies outside the replay window.
    ReplayDetected,
    /// The payload cannot be represented; `max` is the largest that can.
    PayloadTooLarge { max: usize },
}

} // verus!
