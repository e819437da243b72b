//! Sliding 128-packet window for replay protection.
//!
//! The window remembers the largest packet number accepted and, as a bitmap,
//! which of the 128 packet numbers at or below it were accepted. A packet
//! number is accepted at most once: a duplicate, or one too old to be judged
//! (128 or more below the largest), is rejected.
use vstd::prelude::*;
use crate::types::{PacketNumber, TransportError};

verus! {

/// Width of the replay window, in packets.
pub const REPLAY_WINDOW_SIZE: u64 = 128;

/// Bit `i` of `w`.
pub open spec fn bit_of(w: u64, i: u64) -> bool
    recommends
        i < 64,
{
    (w >> i) & 1u64 == 1u64
}

proof fn lemma_shl_bit(b: u64, s: u64, i: u64)
    requires
        s < 64,
        i < 64,
    ensures
        bit_of(b << s, i) == if i >= s { bit_of(b, (i - s) as u64) } else { false },
{
    assert(((b << s) >> i) & 1u64 == if i >= s { (b >> ((i - s) as u64)) & 1u64 } else { 0u64 })
        by (bit_vector)
        requires
            s < 64,
            i < 64,
    ;
}

proof fn lemma_carry_bit(hi: u64, lo: u64, s: u64, j: u64)
    requires
        0 < s < 64,
        j < 64,
    ensures
        bit_of((hi << s) | (lo >> ((64 - s) as u64)), j) == if j >= s {
            bit_of(hi, (j - s) as u64)
        } else {
            bit_of(lo, (64 - s + j) as u64)
        },
{
    assert((((hi << s) | (lo >> ((64 - s) as u64))) >> j) & 1u64 == if j >= s {
        (hi >> ((j - s) as u64)) & 1u64
    } else {
        (lo >> ((64 - s + j) as u64)) & 1u64
    }) by (bit_vector)
        requires
            0 < s < 64,
            j < 64,
    ;
}

proof fn lemma_set_bit(b: u64, k: u64, i: u64)
    requires
        k < 64,
        i < 64,
    ensures
        bit_of(b | (1u64 << k), i) == if i == k { true } else { bit_of(b, i) },
{
    assert(((b | (1u64 << k)) >> i) & 1u64 == if i == k { 1u64 } else { (b >> i) & 1u64 })
        by (bit_vector)
        requires
            k < 64,
            i < 64,
    ;
}

proof fn lemma_test_bit(b: u64, k: u64)
    requires
        k < 64,
    ensures
        ((b & (1u64 << k)) != 0u64) == bit_of(b, k),
{
    assert(((b & (1u64 << k)) != 0u64) == ((b >> k) & 1u64 == 1u64)) by (bit_vector)
        requires
            k < 64,
    ;
}

proof fn lemma_zero_bits(i: u64)
    requires
        i < 64,
    ensures
        !bit_of(0u64, i),
{
    assert((0u64 >> i) & 1u64 == 0u64) by (bit_vector);
}

proof fn lemma_one_bits(i: u64)
    requires
        i < 64,
    ensures
        bit_of(1u64, i) == (i == 0),
{
    assert(((1u64 >> i) & 1u64 == 1u64) == (i == 0)) by (bit_vector)
        requires
            i < 64,
    ;
}

/// `w1` is `w0` after accepting `pn`: the largest moves up to `pn` if `pn`
/// is above it, `pn` is marked, and every earlier mark stays while it is
/// still inside the window.
pub open spec fn accepted_into(w0: ReplayWindow, pn: u64, w1: ReplayWindow) -> bool {
    &&& w1.started()
    &&& w1.largest() == if w0.started() && w0.largest() >= pn {
        w0.largest()
    } else {
        pn
    }
    &&& forall|x: u64|
        #[trigger] w1.seen(x) == (x == pn || (w0.seen(x) && w1.largest() - x < REPLAY_WINDOW_SIZE))
}

/// `w` is the window of a history whose accepted packet numbers are `a`:
/// it has started once anything was accepted, its largest is the largest
/// accepted, and it marks exactly the accepted numbers less than 128 below
/// that.
pub open spec fn records_history(w: ReplayWindow, a: Set<u64>) -> bool {
    &&& w.started() <==> (exists|x: u64| a.contains(x))
    &&& forall|x: u64| #[trigger] a.contains(x) ==> x <= w.largest()
    &&& w.started() ==> a.contains(w.largest())
    &&& forall|x: u64|
        #[trigger] w.seen(x) == (a.contains(x) && x <= w.largest() && w.largest() - x < REPLAY_WINDOW_SIZE)
}

/// Sliding replay-protection window over the latest 128 packet numbers.
#[derive(Clone, Copy, Debug, Default)]
pub struct ReplayWindow {
    largest_seen: u64,
    /// Window offsets 0..64 (offset = largest_seen − packet number).
    lo: u64,
    /// Window offsets 64..128.
    hi: u64,
    initialized: bool,
}

impl ReplayWindow {
    /// Whether offset `i` (below the largest) is marked in the bitmap.
    pub closed spec fn offset_marked(&self, i: u64) -> bool {
        if i < 64 {
            bit_of(self.lo, i)
        } else if i < 128 {
            bit_of(self.hi, (i - 64) as u64)
        } else {
            false
        }
    }

    /// Whether any packet has been accepted yet.
    pub closed spec fn started(&self) -> bool {
        self.initialized
    }

    /// The largest packet number accepted so far.
    pub closed spec fn largest(&self) -> u64 {
        self.largest_seen
    }

    /// Whether packet number `x` was accepted and is still inside the window.
    pub open spec fn seen(&self, x: u64) -> bool {
        &&& self.started()
        &&& x <= self.largest()
        &&& self.largest() - x < REPLAY_WINDOW_SIZE
        &&& self.offset_marked((self.largest() - x) as u64)
    }

    /// Whether `pn` is accepted: the first packet, a new largest, or an
    /// unseen packet number less than 128 below the largest.
    pub open spec fn accepts(&self, pn: u64) -> bool {
        ||| !self.started()
        ||| pn > self.largest()
        ||| (self.largest() - pn < REPLAY_WINDOW_SIZE && !self.seen(pn))
    }

    pub fn new() -> (w: ReplayWindow)
        ensures
            !w.started(),
            forall|x: u64| !w.seen(x),
            records_history(w, Set::<u64>::empty()),
    {
        ReplayWindow { largest_seen: 0, lo: 0, hi: 0, initialized: false }
    }

    /// Accepts `packet_number` if it is new, marking it seen; rejects a
    /// duplicate or a packet too old to judge. A rejection changes nothing.
    pub fn check_and_update(&mut self, packet_number: PacketNumber) -> (r: Result<(), TransportError>)
        ensures
            r is Ok <==> old(self).accepts(packet_number.0),
            r is Err ==> r == Err::<(), TransportError>(TransportError::ReplayDetected) && *final(self) == *old(self),
            r is Ok ==> accepted_into(*old(self), packet_number.0, *final(self)),
    {
        let pn = packet_number.as_u64();
        if !self.initialized {
            self.initialized = true;
            self.largest_seen = pn;
            self.lo = 1;
            self.hi = 0;
            proof {
                assert forall|x: u64| #[trigger] self.seen(x) == (x == pn || (old(self).seen(x)
                    && self.largest() - x < REPLAY_WINDOW_SIZE)) by {
                    if x <= pn && pn - x < 128 {
                        let i = (pn - x) as u64;
                        if i < 64 {
                            lemma_one_bits(i);
                        } else {
                            lemma_zero_bits((i - 64) as u64);
                        }
                    }
                }
            }
            return Ok(());
        }
        if pn > self.largest_seen {
            let shift = pn - self.largest_seen;
            let ghost old_w = *self;
            if shift >= REPLAY_WINDOW_SIZE {
                self.lo = 0;
                self.hi = 0;
            } else {
                self.shift_bitmap(shift);
            }
            let ghost after_shift = *self;
            self.largest_seen = pn;
            let ghost mid = *self;
            self.set_bit(0);
            proof {
                assert forall|x: u64| #[trigger] self.seen(x) == (x == pn || (old(self).seen(x)
                    && self.largest() - x < REPLAY_WINDOW_SIZE)) by {
                    if x <= pn && pn - x < 128 {
                        let i = (pn - x) as u64;
                        assert(self.offset_marked(i) == (i == 0 || mid.offset_marked(i)));
                        if shift >= 128 {
                            if i < 64 {
                                lemma_zero_bits(i);
                            } else {
                                lemma_zero_bits((i - 64) as u64);
                            }
                        } else {
                            assert(mid.offset_marked(i) == after_shift.offset_marked(i));
                            assert(mid.offset_marked(i) == (i >= shift && old_w.offset_marked(
                                (i - shift) as u64,
                            )));
                        }
                    }
                }
            }
            Ok(())
        } else {
            let diff = self.largest_seen - pn;
            if diff >= REPLAY_WINDOW_SIZE {
                return Err(TransportError::ReplayDetected);
            }
            if self.is_bit_set(diff) {
                return Err(TransportError::ReplayDetected);
            }
            let ghost before = *self;
            self.set_bit(diff);
            proof {
                assert forall|x: u64| #[trigger] self.seen(x) == (x == pn || (old(self).seen(x)
                    && self.largest() - x < REPLAY_WINDOW_SIZE)) by {
                    if x <= self.largest_seen && self.largest_seen - x < 128 {
                        let i = (self.largest_seen - x) as u64;
                        assert(self.offset_marked(i) == (i == diff || before.offset_marked(i)));
                    }
                }
            }
            Ok(())
        }
    }

    /// Moves every mark `shift` offsets further from the largest; marks
    /// pushed past offset 127 fall out.
    fn shift_bitmap(&mut self, shift: u64)
        requires
            0 < shift < 128,
        ensures
            final(self).largest_seen == old(self).largest_seen,
            final(self).initialized == old(self).initialized,
            forall|i: u64|
                i < 128 ==> #[trigger] final(self).offset_marked(i) == (i >= shift
                    && old(self).offset_marked((i - shift) as u64)),
    {
        let ghost o = *self;
        if shift >= 64 {
            let s = shift - 64;
            self.hi = self.lo << s;
            self.lo = 0;
            proof {
                assert forall|i: u64| i < 128 implies #[trigger] self.offset_marked(i) == (i
                    >= shift && o.offset_marked((i - shift) as u64)) by {
                    if i < 64 {
                        lemma_zero_bits(i);
                    } else {
                        lemma_shl_bit(o.lo, s, (i - 64) as u64);
                    }
                }
            }
        } else {
            self.hi = (self.hi << shift) | (self.lo >> (64 - shift));
            self.lo = self.lo << shift;
            proof {
                assert forall|i: u64| i < 128 implies #[trigger] self.offset_marked(i) == (i
                    >= shift && o.offset_marked((i - shift) as u64)) by {
                    if i < 64 {
                        lemma_shl_bit(o.lo, shift, i);
                    } else {
                        lemma_carry_bit(o.hi, o.lo, shift, (i - 64) as u64);
                    }
                }
            }
        }
    }

    /// Marks offset `index` (< 128).
    fn set_bit(&mut self, index: u64)
        requires
            index < 128,
        ensures
            final(self).largest_seen == old(self).largest_seen,
            final(self).initialized == old(self).initialized,
            forall|i: u64|
                i < 128 ==> #[trigger] final(self).offset_marked(i) == (i == index
                    || old(self).offset_marked(i)),
    {
        let ghost o = *self;
        if index < 64 {
            self.lo = self.lo | (1u64 << index);
            proof {
                assert forall|i: u64| i < 128 implies #[trigger] self.offset_marked(i) == (i
                    == index || o.offset_marked(i)) by {
                    if i < 64 {
                        lemma_set_bit(o.lo, index, i);
                    }
                }
            }
        } else {
            self.hi = self.hi | (1u64 << (index - 64));
            proof {
                assert forall|i: u64| i < 128 implies #[trigger] self.offset_marked(i) == (i
                    == index || o.offset_marked(i)) by {
                    if i >= 64 {
                        lemma_set_bit(o.hi, (index - 64) as u64, (i - 64) as u64);
                    }
                }
            }
        }
    }

    /// Whether offset `index` (< 128) is marked.
    fn is_bit_set(&self, index: u64) -> (b: bool)
        requires
            index < 128,
        ensures
            b == self.offset_marked(index),
    {
        if index < 64 {
            proof { lemma_test_bit(self.lo, index); }
            (self.lo & (1u64 << index)) != 0
        } else {
            proof { lemma_test_bit(self.hi, (index - 64) as u64); }
            (self.hi & (1u64 << (index - 64))) != 0
        }
    }
}

/// No replay: a packet number that was accepted (and is still inside the
/// window) is rejected from then on.
pub proof fn lemma_seen_is_rejected(w: ReplayWindow, pn: u64)
    requires
        w.seen(pn),
    ensures
        !w.accepts(pn),
{
}

/// A packet number 128 or more below the largest accepted one is rejected.
pub proof fn lemma_too_old_is_rejected(w: ReplayWindow, pn: u64)
    requires
        w.started(),
        pn <= w.largest(),
        w.largest() - pn >= REPLAY_WINDOW_SIZE,
    ensures
        !w.accepts(pn),
{
}

/// Accepting a packet number adds it to the history: the window after an
/// accepted `pn` is the window of the history with `pn` added.
pub proof fn lemma_history_step(w0: ReplayWindow, a: Set<u64>, pn: u64, w1: ReplayWindow)
    requires
        records_history(w0, a),
        accepted_into(w0, pn, w1),
    ensures
        records_history(w1, a.insert(pn)),
{
    let b = a.insert(pn);
    assert(w1.seen(pn));
    assert(b.contains(pn));
    assert forall|x: u64| #[trigger] b.contains(x) implies x <= w1.largest() by {
        if x != pn {
            assert(a.contains(x));
        }
    }
    if w0.started() {
        assert(a.contains(w0.largest()));
    }
    assert(b.contains(w1.largest()));
    assert forall|x: u64|
        #[trigger] w1.seen(x) == (b.contains(x) && x <= w1.largest() && w1.largest() - x
            < REPLAY_WINDOW_SIZE) by {
        if x != pn {
            assert(w0.seen(x) == (a.contains(x) && x <= w0.largest() && w0.largest() - x
                < REPLAY_WINDOW_SIZE));
            if a.contains(x) {
                assert(x <= w0.largest());
                assert(w0.started());
            }
        }
    }
}

/// Acceptance judged by the history alone: with `a` the packet numbers
/// accepted so far, `pn` is accepted exactly when it is above all of them,
/// or when it is not among them and none of them is 128 or more above it.
pub proof fn lemma_accepts_by_history(w: ReplayWindow, a: Set<u64>, pn: u64)
    requires
        records_history(w, a),
    ensures
        w.accepts(pn) == ((forall|x: u64| #[trigger] a.contains(x) ==> x < pn) || (!a.contains(pn)
            && forall|x: u64| #[trigger] a.contains(x) ==> x < pn + REPLAY_WINDOW_SIZE)),
{
    if w.started() {
        assert(a.contains(w.largest()));
        assert(w.seen(pn) == (a.contains(pn) && pn <= w.largest() && w.largest() - pn
            < REPLAY_WINDOW_SIZE));
    } else {
        assert forall|x: u64| #[trigger] a.contains(x) implies false by {}
    }
}

} // verus!
