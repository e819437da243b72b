//! Sender-side loss detection (RFC 9002): ACK processing, packet- and
//! time-threshold loss declaration, and the probe-timeout sweep.
use vstd::prelude::*;
use std::collections::BTreeMap;
use crate::ack_tracker::{AckRange, PacketInterval, intervals_wf, covers, spec_ack_ranges, MAX_ACK_RANGES};
use crate::sent_packet::{SentPacketRecord, RetransmissionRecord, frames_view, concat_frames, append_frames};
use crate::rtt::{RttStats, RttModel, rtt_after_sample, rtt_initial, spec_pto_us};
use vstd::std_specs::iter::IteratorSpec;
use crate::types::{Duration, MonotonicTime, PacketNumber, spec_elapsed};

verus! {

broadcast use vstd::std_specs::btree::group_btree_axioms;

/// Packets this far below the largest acknowledged one are lost.
pub const PACKET_THRESHOLD: u64 = 3;
pub const TIME_THRESHOLD_FACTOR_NUM: u64 = 9;
pub const TIME_THRESHOLD_FACTOR_DEN: u64 = 8;
/// Most packets a single ACK frame may claim: a defense against
/// attacker-controlled range expansion and optimistic-ACK inflation.
pub const MAX_ACKED_PER_FRAME: u64 = 16_384;
/// Per-PTO retransmission burst cap (RFC 9002 §7.5: at most 2 probes).
pub const MAX_PTO_RETRANSMIT_BURST: usize = 2;
/// Exponential backoff ceiling exponent for the PTO (2^8 = 256x).
pub const MAX_PTO_BACKOFF_EXPONENT: u32 = 8;

/// `high, high - 1, ..., low`.
pub open spec fn block_desc(low: u64, high: u64) -> Seq<u64> {
    Seq::new((high - low + 1) as nat, |j: int| (high - j) as u64)
}

/// The packet numbers that ranges `k..` of `r` acknowledge, given the low
/// edge of the previous block (for `k == 0`: the largest acknowledged) and
/// the count so far. A malformed or over-long range ends the walk.
pub open spec fn decode_from(r: Seq<AckRange>, k: nat, prev_low: u64, total: u64) -> Seq<u64>
    decreases r.len() - k,
{
    if k >= r.len() {
        Seq::empty()
    } else {
        let gap = r[k as int].gap as u64;
        if k > 0 && gap + 1 > prev_low {
            Seq::empty()
        } else {
            let high: u64 = if k == 0 { prev_low } else { (prev_low - gap - 1) as u64 };
            let length = r[k as int].length as u64;
            if length > high {
                Seq::empty()
            } else if total + length + 1 > MAX_ACKED_PER_FRAME {
                Seq::empty()
            } else {
                let low = (high - length) as u64;
                block_desc(low, high) + decode_from(r, k + 1, low, (total + length + 1) as u64)
            }
        }
    }
}

/// The packet numbers an ACK frame acknowledges: the first `range_count`
/// ranges walked down from `largest`.
pub open spec fn decode_ack_ranges(largest: u64, ranges: Seq<AckRange>, range_count: int) -> Seq<u64> {
    let n = if range_count < ranges.len() { range_count } else { ranges.len() as int };
    decode_from(ranges.take(n), 0, largest, 0)
}

/// Decodes the acknowledged packet numbers from ACK ranges, newest first.
///
/// Range 0 covers `largest_pn` down to `largest_pn - length`; every later
/// range first skips `gap` unacknowledged packets, then covers `length + 1`.
/// Malformed or overflowing ranges end the walk: they never inflate the
/// acknowledged set.
pub fn parse_ack_ranges(largest_pn: u64, ranges: &[AckRange], range_count: usize) -> (acked: Vec<u64>)
    ensures
        acked@ == decode_ack_ranges(largest_pn, ranges@, range_count as int),
{
    let n: usize = if range_count < ranges.len() { range_count } else { ranges.len() };
    let ghost r = ranges@.take(n as int);
    let ghost target = decode_from(r, 0, largest_pn, 0);
    let mut acked: Vec<u64> = Vec::new();
    let mut total: u64 = 0;
    let mut prev_low: u64 = largest_pn;
    let mut i: usize = 0;
    assert(acked@ + decode_from(r, 0, largest_pn, 0) =~= target);
    while i < n
        invariant
            n == (if range_count < ranges.len() { range_count } else { ranges.len() }),
            r == ranges@.take(n as int),
            target == decode_from(r, 0, largest_pn, 0),
            i <= n,
            total <= MAX_ACKED_PER_FRAME,
            i == 0 ==> prev_low == largest_pn,
            acked@ + decode_from(r, i as nat, prev_low, total) == target,
        decreases n - i,
    {
        let range = ranges[i];
        assert(r[i as int] == range);
        let gap = range.gap as u64;
        let block_high: u64;
        if i > 0 {
            if gap + 1 > prev_low {
                assert(decode_from(r, i as nat, prev_low, total) =~= Seq::<u64>::empty());
                assert(acked@ =~= target);
                    return acked;
            }
            block_high = prev_low - gap - 1;
        } else {
            block_high = prev_low;
        }
        let length = range.length as u64;
        if length > block_high {
            assert(decode_from(r, i as nat, prev_low, total) =~= Seq::<u64>::empty());
            assert(acked@ =~= target);
            return acked;
        }
        if total + length + 1 > MAX_ACKED_PER_FRAME {
            assert(decode_from(r, i as nat, prev_low, total) =~= Seq::<u64>::empty());
            assert(acked@ =~= target);
            return acked;
        }
        let block_low = block_high - length;
        let count = length + 1;
        let ghost base = acked@;
        let mut j: u64 = 0;
        while j < count
            invariant
                count == length + 1,
                length <= block_high,
                block_low == block_high - length,
                j <= count,
                acked@ == base + Seq::new(j as nat, |t: int| (block_high - t) as u64),
            decreases count - j,
        {
            acked.push(block_high - j);
            j = j + 1;
            assert(acked@ =~= base + Seq::new(j as nat, |t: int| (block_high - t) as u64));
        }
        assert(acked@ =~= base + block_desc(block_low, block_high));
        proof {
            let rest = decode_from(r, (i + 1) as nat, block_low, (total + count) as u64);
            assert(decode_from(r, i as nat, prev_low, total) == block_desc(block_low, block_high) + rest);
            assert(acked@ + rest =~= base + (block_desc(block_low, block_high) + rest));
        }
        total = total + count;
        prev_low = block_low;
        i = i + 1;
    }
    assert(acked@ =~= target);
    acked
}

/// Every range of the frame for `s` is representable: interval lengths and
/// the gaps between consecutive intervals fit in 32 bits.
pub open spec fn ranges_fit(s: Seq<PacketInterval>) -> bool {
    forall|k: int|
        0 <= k < s.len() && k < MAX_ACK_RANGES ==> #[trigger] s[k].end - s[k].start <= u32::MAX
            && (k > 0 ==> s[k - 1].start - s[k].end - 1 <= u32::MAX)
}

/// How many packet numbers intervals `k..m` of `s` hold.
pub open spec fn span_total(s: Seq<PacketInterval>, k: int, m: int) -> int
    decreases m - k,
{
    if k >= m {
        0
    } else {
        (s[k].end - s[k].start + 1) + span_total(s, k + 1, m)
    }
}

proof fn lemma_concat_contains(a: Seq<u64>, b: Seq<u64>, x: u64)
    ensures
        (a + b).contains(x) <==> a.contains(x) || b.contains(x),
{
    if (a + b).contains(x) {
        let i = choose|i: int| 0 <= i < (a + b).len() && (a + b)[i] == x;
        if i < a.len() {
            assert(a[i] == x);
        } else {
            assert(b[i - a.len()] == x);
        }
    }
    if a.contains(x) {
        let i = choose|i: int| 0 <= i < a.len() && a[i] == x;
        assert((a + b)[i] == x);
    }
    if b.contains(x) {
        let i = choose|i: int| 0 <= i < b.len() && b[i] == x;
        assert((a + b)[a.len() + i] == x);
    }
}

proof fn lemma_block_contains(low: u64, high: u64, x: u64)
    requires
        low <= high,
    ensures
        block_desc(low, high).contains(x) <==> low <= x <= high,
{
    let b = block_desc(low, high);
    if b.contains(x) {
        let j = choose|j: int| 0 <= j < b.len() && b[j] == x;
        assert(b[j] == (high - j) as u64);
    }
    if low <= x <= high {
        assert(b[high - x] == x);
    }
}

/// Decoding the frame of well-formed intervals from range `k` on yields
/// packets of intervals `k..` only, and all of them while the count stays
/// within the per-frame cap.
proof fn lemma_decode_intervals(s: Seq<PacketInterval>, kn: nat, prev_low: u64, total: u64)
    requires
        intervals_wf(s),
        ranges_fit(s),
        s.len() >= 1,
        kn <= spec_ack_ranges(s).len(),
        prev_low == if kn == 0 { s[0].end } else { s[kn - 1].start },
        total <= MAX_ACKED_PER_FRAME,
    ensures
        forall|x: u64| #[trigger] decode_from(spec_ack_ranges(s), kn, prev_low, total).contains(x) ==> exists|j: int|
            kn <= j < spec_ack_ranges(s).len() && #[trigger] s[j].start <= x && x <= s[j].end,
        total + span_total(s, kn as int, spec_ack_ranges(s).len() as int) <= MAX_ACKED_PER_FRAME ==> forall|j: int, x: u64|
            kn <= j < spec_ack_ranges(s).len() && #[trigger] s[j].start <= x && x <= s[j].end
                ==> #[trigger] decode_from(spec_ack_ranges(s), kn, prev_low, total).contains(x),
    decreases spec_ack_ranges(s).len() - kn,
{
    let k = kn as int;
    let r = spec_ack_ranges(s);
    let d = decode_from(r, kn, prev_low, total);
    if k < r.len() {
        assert(s[k].end - s[k].start <= u32::MAX);
        let length = (s[k].end - s[k].start) as u64;
        assert(r[k].length as u64 == length);
        if k > 0 {
            assert(s[k].end + 1 < s[k - 1].start);
            assert(s[k - 1].start - s[k].end - 1 <= u32::MAX);
            assert(r[k].gap as u64 == s[k - 1].start - s[k].end - 1);
        }
        let high = s[k].end;
        let low = s[k].start;
        if total + length + 1 > MAX_ACKED_PER_FRAME {
            assert(d =~= Seq::<u64>::empty());
            assert(span_total(s, k, r.len() as int) == (s[k].end - s[k].start + 1) + span_total(s, k + 1, r.len() as int));
            assert(span_total(s, k + 1, r.len() as int) >= 0) by {
                lemma_span_nonneg(s, k + 1, r.len() as int);
            }
        } else {
            let nt = (total + length + 1) as u64;
            let rest = decode_from(r, kn + 1, low, nt);
            assert(d == block_desc(low, high) + rest);
            lemma_decode_intervals(s, kn + 1, low, nt);
            assert forall|x: u64| d.contains(x) implies exists|j: int|
                k <= j < r.len() && #[trigger] s[j].start <= x && x <= s[j].end by {
                lemma_concat_contains(block_desc(low, high), rest, x);
                lemma_block_contains(low, high, x);
                if block_desc(low, high).contains(x) {
                    assert(s[k].start <= x && x <= s[k].end);
                } else {
                    assert(rest.contains(x));
                    let j = choose|j: int| k + 1 <= j < r.len() && #[trigger] s[j].start <= x && x <= s[j].end;
                    assert(s[j].start <= x && x <= s[j].end);
                }
            }
            if total + span_total(s, k, r.len() as int) <= MAX_ACKED_PER_FRAME {
                assert forall|j: int, x: u64|
                    k <= j < r.len() && #[trigger] s[j].start <= x && x <= s[j].end implies #[trigger] d.contains(x) by {
                    lemma_concat_contains(block_desc(low, high), rest, x);
                    lemma_block_contains(low, high, x);
                    if j == k {
                        assert(block_desc(low, high).contains(x));
                    } else {
                        assert(total + span_total(s, k, r.len() as int) == nt + span_total(s, k + 1, r.len() as int));
                        assert(rest.contains(x));
                    }
                }
            }
        }
    } else {
        assert(d =~= Seq::<u64>::empty());
    }
}

proof fn lemma_span_nonneg(s: Seq<PacketInterval>, k: int, m: int)
    requires
        intervals_wf(s),
        0 <= k,
        m <= s.len(),
    ensures
        span_total(s, k, m) >= 0,
    decreases m - k,
{
    if k < m {
        lemma_span_nonneg(s, k + 1, m);
    }
}

proof fn lemma_decode_from_capped(r: Seq<AckRange>, k: nat, prev_low: u64, total: u64)
    requires
        total <= MAX_ACKED_PER_FRAME,
    ensures
        total + decode_from(r, k, prev_low, total).len() <= MAX_ACKED_PER_FRAME,
    decreases r.len() - k,
{
    if k < r.len() {
        let gap = r[k as int].gap as u64;
        if !(k > 0 && gap + 1 > prev_low) {
            let high: u64 = if k == 0 { prev_low } else { (prev_low - gap - 1) as u64 };
            let length = r[k as int].length as u64;
            if length <= high && total + length + 1 <= MAX_ACKED_PER_FRAME {
                let low = (high - length) as u64;
                lemma_decode_from_capped(r, k + 1, low, (total + length + 1) as u64);
            }
        }
    }
}

/// However the ranges are forged, one ACK frame never acknowledges more
/// than `MAX_ACKED_PER_FRAME` packets.
pub proof fn lemma_ack_frame_capped(largest: u64, ranges: Seq<AckRange>, range_count: int)
    ensures
        decode_ack_ranges(largest, ranges, range_count).len() <= MAX_ACKED_PER_FRAME,
{
    let n = if range_count < ranges.len() { range_count } else { ranges.len() as int };
    lemma_decode_from_capped(ranges.take(n), 0, largest, 0);
}

/// Every decoded packet number lies at or below the largest acknowledged.
pub proof fn lemma_ack_frame_below_largest(largest: u64, ranges: Seq<AckRange>, range_count: int, x: u64)
    requires
        decode_ack_ranges(largest, ranges, range_count).contains(x),
    ensures
        x <= largest,
{
    let n = if range_count < ranges.len() { range_count } else { ranges.len() as int };
    lemma_decode_from_below(ranges.take(n), 0, largest, 0, x);
}

proof fn lemma_decode_from_below(r: Seq<AckRange>, k: nat, prev_low: u64, total: u64, x: u64)
    requires
        decode_from(r, k, prev_low, total).contains(x),
    ensures
        x <= prev_low,
    decreases r.len() - k,
{
    let gap = r[k as int].gap as u64;
    let high: u64 = if k == 0 { prev_low } else { (prev_low - gap - 1) as u64 };
    let length = r[k as int].length as u64;
    let low = (high - length) as u64;
    let rest = decode_from(r, k + 1, low, (total + length + 1) as u64);
    lemma_concat_contains(block_desc(low, high), rest, x);
    if block_desc(low, high).contains(x) {
        lemma_block_contains(low, high, x);
    } else {
        lemma_decode_from_below(r, k + 1, low, (total + length + 1) as u64, x);
    }
}

/// No phantom acknowledgements: every packet number decoded from the ACK
/// frame of well-formed received intervals was received.
pub proof fn lemma_ack_frame_no_phantom(s: Seq<PacketInterval>, x: u64)
    requires
        intervals_wf(s),
        ranges_fit(s),
        s.len() >= 1,
        decode_ack_ranges(s[0].end, spec_ack_ranges(s), spec_ack_ranges(s).len() as int).contains(x),
    ensures
        covers(s, x),
{
    let r = spec_ack_ranges(s);
    assert(r.take(r.len() as int) =~= r);
    lemma_decode_intervals(s, 0, s[0].end, 0);
    assert(decode_from(r, 0, s[0].end, 0).contains(x));
    let j = choose|j: int| 0 <= j < r.len() && #[trigger] s[j].start <= x && x <= s[j].end;
    assert(s[j].start <= x && x <= s[j].end);
}

/// ACK round trip: when the received intervals fit one frame (at most 32
/// intervals, at most the per-frame cap of packets), the packet numbers
/// decoded from the frame are exactly the received ones.
pub proof fn lemma_ack_frame_roundtrip(s: Seq<PacketInterval>, x: u64)
    requires
        intervals_wf(s),
        ranges_fit(s),
        1 <= s.len() <= MAX_ACK_RANGES,
        span_total(s, 0, s.len() as int) <= MAX_ACKED_PER_FRAME,
    ensures
        decode_ack_ranges(s[0].end, spec_ack_ranges(s), spec_ack_ranges(s).len() as int).contains(x)
            <==> covers(s, x),
{
    let r = spec_ack_ranges(s);
    assert(r.take(r.len() as int) =~= r);
    lemma_decode_intervals(s, 0, s[0].end, 0);
    if decode_ack_ranges(s[0].end, r, r.len() as int).contains(x) {
        assert(decode_from(r, 0, s[0].end, 0).contains(x));
        let j = choose|j: int| 0 <= j < r.len() && #[trigger] s[j].start <= x && x <= s[j].end;
        assert(s[j].start <= x && x <= s[j].end);
    }
    if covers(s, x) {
        let j = choose|j: int| 0 <= j < s.len() && #[trigger] s[j].start <= x && x <= s[j].end;
        assert(s[j].start <= x && x <= s[j].end);
        assert(decode_from(r, 0, s[0].end, 0).contains(x));
    }
}

/// Bytes a record charges to congestion accounting: its size when in flight.
pub open spec fn in_flight_weight(r: SentPacketRecord) -> nat {
    if r.in_flight { r.bytes as nat } else { 0 }
}

/// The in-flight bytes of the records of `m` whose packet numbers are in `s`.
pub open spec fn weight_over(m: Map<u64, SentPacketRecord>, s: Set<u64>) -> nat
    decreases s.len(),
    when s.finite()
{
    if s.len() == 0 {
        0
    } else {
        let k = s.choose();
        in_flight_weight(m[k]) + weight_over(m, s.remove(k))
    }
}

/// The in-flight bytes of all records of `m`.
pub open spec fn inflight_sum(m: Map<u64, SentPacketRecord>) -> nat {
    weight_over(m, m.dom())
}

/// Total size of `rs`.
pub open spec fn records_bytes(rs: Seq<SentPacketRecord>) -> nat
    decreases rs.len(),
{
    if rs.len() == 0 { 0 } else { records_bytes(rs.drop_last()) + rs.last().bytes as nat }
}

proof fn lemma_weight_remove(m: Map<u64, SentPacketRecord>, s: Set<u64>, k: u64)
    requires
        s.finite(),
        s.contains(k),
    ensures
        weight_over(m, s) == in_flight_weight(m[k]) + weight_over(m, s.remove(k)),
    decreases s.len(),
{
    let c = s.choose();
    assert(s.len() > 0);
    if c != k {
        lemma_weight_remove(m, s.remove(c), k);
        lemma_weight_remove(m, s.remove(k), c);
        assert(s.remove(c).remove(k) =~= s.remove(k).remove(c));
    }
}

proof fn lemma_weight_agree(m1: Map<u64, SentPacketRecord>, m2: Map<u64, SentPacketRecord>, s: Set<u64>)
    requires
        s.finite(),
        forall|k: u64| s.contains(k) ==> in_flight_weight(#[trigger] m1[k]) == in_flight_weight(m2[k]),
    ensures
        weight_over(m1, s) == weight_over(m2, s),
    decreases s.len(),
{
    if s.len() > 0 {
        let c = s.choose();
        lemma_weight_agree(m1, m2, s.remove(c));
    }
}

/// Removing a record takes exactly its in-flight bytes off the total.
pub proof fn lemma_inflight_remove(m: Map<u64, SentPacketRecord>, k: u64)
    requires
        m.dom().finite(),
        m.contains_key(k),
    ensures
        inflight_sum(m) == in_flight_weight(m[k]) + inflight_sum(m.remove(k)),
{
    lemma_weight_remove(m, m.dom(), k);
    assert(m.remove(k).dom() =~= m.dom().remove(k));
    lemma_weight_agree(m, m.remove(k), m.dom().remove(k));
}

/// Adding a record of a new packet number adds exactly its in-flight bytes.
pub proof fn lemma_inflight_insert(m: Map<u64, SentPacketRecord>, k: u64, v: SentPacketRecord)
    requires
        m.dom().finite(),
        !m.contains_key(k),
    ensures
        inflight_sum(m.insert(k, v)) == in_flight_weight(v) + inflight_sum(m),
{
    let m2 = m.insert(k, v);
    lemma_inflight_remove(m2, k);
    assert(m2.remove(k) =~= m);
}

/// `d` lists, in increasing order, the `n` oldest in-flight packets of `m`
/// (all of them when fewer are in flight).
pub open spec fn oldest_in_flight(m: Map<u64, SentPacketRecord>, d: Seq<u64>, n: int) -> bool {
    &&& d.len() <= n
    &&& forall|i: int, j: int| 0 <= i < j < d.len() ==> d[i] < d[j]
    &&& forall|i: int| 0 <= i < d.len() ==> m.contains_key(#[trigger] d[i]) && m[d[i]].in_flight
    &&& forall|k: u64|
        #[trigger] m.contains_key(k) && m[k].in_flight && !d.contains(k) ==> d.len() == n && d[n - 1] < k
}

/// The records of `m` filed under the packet numbers `d`, in order.
pub open spec fn records_at(m: Map<u64, SentPacketRecord>, d: Seq<u64>) -> Seq<SentPacketRecord> {
    d.map_values(|pn: u64| m[pn])
}

/// The state of processing an ACK's packet numbers one by one.
pub struct AckProgress {
    pub sent: Map<u64, SentPacketRecord>,
    pub acked: Seq<SentPacketRecord>,
    pub bytes: nat,
    pub rtt: RttModel,
    pub sample: Option<Duration>,
}

/// Acknowledging packet `pn`: an outstanding record leaves the map and is
/// reported; the largest acknowledged packet yields the RTT sample.
pub open spec fn ack_step(p: AckProgress, pn: u64, largest: u64, now: MonotonicTime, ack_delay: u64) -> AckProgress {
    if p.sent.contains_key(pn) {
        let r = p.sent[pn];
        let raw = spec_elapsed(r.send_time, now) as u64;
        AckProgress {
            sent: p.sent.remove(pn),
            acked: p.acked.push(r),
            bytes: p.bytes + in_flight_weight(r),
            rtt: if pn == largest { rtt_after_sample(p.rtt, raw, ack_delay) } else { p.rtt },
            sample: if pn == largest { Some(Duration { micros: raw }) } else { p.sample },
        }
    } else {
        p
    }
}

/// Acknowledging the packet numbers `pns` in order.
pub open spec fn ack_sweep(p: AckProgress, pns: Seq<u64>, largest: u64, now: MonotonicTime, ack_delay: u64) -> AckProgress
    decreases pns.len(),
{
    if pns.len() == 0 {
        p
    } else {
        ack_sweep(ack_step(p, pns[0], largest, now, ack_delay), pns.drop_first(), largest, now, ack_delay)
    }
}

/// The delivery-rate bookkeeping after an ACK raised the acknowledged total
/// to `total_acked`: the sample (when more than a millisecond passed since
/// the last one) and the new reference time and byte count.
pub open spec fn delivery_after(rate_time: MonotonicTime, rate_bytes: u64, total_acked: u64, now: MonotonicTime)
    -> (Option<DeliverySample>, MonotonicTime, u64)
{
    if rate_time.micros != 0 {
        let iv = spec_elapsed(rate_time, now);
        if iv > 1000 {
            let delivered: u64 = if total_acked >= rate_bytes { (total_acked - rate_bytes) as u64 } else { 0 };
            (Some(DeliverySample { delivered_bytes: delivered, interval: Duration { micros: iv as u64 } }), now, total_acked)
        } else {
            (None, rate_time, rate_bytes)
        }
    } else {
        (None, now, total_acked)
    }
}

/// The time threshold of loss detection: 9/8 of the larger of the smoothed
/// and the latest RTT, µs.
pub open spec fn loss_threshold_us(m: RttModel) -> int {
    let base = if m.smoothed >= m.latest { m.smoothed } else { m.latest };
    (base * TIME_THRESHOLD_FACTOR_NUM) / TIME_THRESHOLD_FACTOR_DEN as int
}

/// The threshold's intermediate product fits in 64 bits.
pub open spec fn loss_threshold_fits(m: RttModel) -> bool {
    let base = if m.smoothed >= m.latest { m.smoothed } else { m.latest };
    base * TIME_THRESHOLD_FACTOR_NUM <= u64::MAX
}

/// RFC 9002 §6.1: an in-flight packet at or below the largest acknowledged
/// one is lost once it lies `PACKET_THRESHOLD` packets below it or was sent
/// at least `threshold` µs ago. ACK-only packets are never lost.
pub open spec fn declared_lost(r: SentPacketRecord, pn: u64, largest: u64, now: MonotonicTime, threshold: int) -> bool {
    &&& pn <= largest
    &&& r.in_flight
    &&& (largest >= pn + PACKET_THRESHOLD || spec_elapsed(r.send_time, now) >= threshold)
}

/// `lost` is, in increasing packet-number order, exactly the records of `m`
/// declared lost.
pub open spec fn lost_in_order(
    m: Map<u64, SentPacketRecord>,
    lost: Seq<SentPacketRecord>,
    largest: u64,
    now: MonotonicTime,
    threshold: int,
) -> bool {
    &&& forall|i: int, j: int| 0 <= i < j < lost.len() ==> lost[i].packet_number.0 < lost[j].packet_number.0
    &&& forall|i: int| 0 <= i < lost.len() ==> {
        let pn = (#[trigger] lost[i]).packet_number.0;
        m.contains_key(pn) && m[pn] == lost[i] && declared_lost(lost[i], pn, largest, now, threshold)
    }
    &&& forall|pn: u64| #[trigger] m.contains_key(pn) && declared_lost(m[pn], pn, largest, now, threshold)
        ==> exists|i: int| 0 <= i < lost.len() && lost[i].packet_number.0 == pn
}

/// The records of `m` that survive a loss sweep.
pub open spec fn surviving(m: Map<u64, SentPacketRecord>, largest: u64, now: MonotonicTime, threshold: int) -> Map<u64, SentPacketRecord> {
    Map::new(|pn: u64| m.contains_key(pn) && !declared_lost(m[pn], pn, largest, now, threshold), |pn: u64| m[pn])
}

/// `2^e`.
pub open spec fn pow2_nat(e: nat) -> nat
    decreases e,
{
    if e == 0 { 1 } else { 2 * pow2_nat((e - 1) as nat) }
}

proof fn lemma_pow2_mono(a: nat, b: nat)
    requires
        a <= b,
    ensures
        pow2_nat(a) <= pow2_nat(b),
    decreases b,
{
    if a < b {
        lemma_pow2_mono(a, (b - 1) as nat);
    }
}

proof fn lemma_pow2_le(e: nat)
    requires
        e < 8,
    ensures
        pow2_nat(e) <= 128,
{
    lemma_pow2_mono(e, 7);
    reveal_with_fuel(pow2_nat, 8);
}

/// The probe timeout after `count` consecutive timeouts: `pto · 2^min(count, 8)`,
/// saturating, and never above `max`.
pub open spec fn backoff_pto_us(pto: u64, count: u32, max: u64) -> u64 {
    let e: nat = if count < MAX_PTO_BACKOFF_EXPONENT { count as nat } else { MAX_PTO_BACKOFF_EXPONENT as nat };
    let x = pto * pow2_nat(e);
    let sat: u64 = if x > u64::MAX { u64::MAX } else { x as u64 };
    if sat <= max { sat } else { max }
}

/// ACK-only packets (not in flight) are never declared lost.
pub proof fn lemma_lost_are_in_flight(
    m: Map<u64, SentPacketRecord>,
    lost: Seq<SentPacketRecord>,
    largest: u64,
    now: MonotonicTime,
    threshold: int,
    i: int,
)
    requires
        lost_in_order(m, lost, largest, now, threshold),
        0 <= i < lost.len(),
    ensures
        lost[i].in_flight,
        lost[i].packet_number.0 <= largest,
{
    let pn = lost[i].packet_number.0;
    assert(declared_lost(lost[i], pn, largest, now, threshold));
}

/// Sorts distinct packet numbers in increasing order.
fn sort_ascending(v: Vec<u64>) -> (r: Vec<u64>)
    requires
        v@.no_duplicates(),
    ensures
        forall|i: int, j: int| 0 <= i < j < r.len() ==> r[i] < r[j],
        forall|x: u64| r@.contains(x) <==> v@.contains(x),
        r.len() == v.len(),
{
    let mut r: Vec<u64> = Vec::new();
    let mut i: usize = 0;
    while i < v.len()
        invariant
            i <= v.len(),
            v@.no_duplicates(),
            r.len() == i,
            forall|a: int, b: int| 0 <= a < b < r.len() ==> r[a] < r[b],
            forall|x: u64| r@.contains(x) <==> v@.take(i as int).contains(x),
        decreases v.len() - i,
    {
        let x = v[i];
        assert(!r@.contains(x)) by {
            if r@.contains(x) {
                let j = choose|j: int| 0 <= j < i && v@.take(i as int)[j] == x;
                assert(v@[j] == v@[i as int]);
            }
        }
        let mut pos: usize = 0;
        while pos < r.len() && r[pos] < x
            invariant
                pos <= r.len(),
                forall|a: int| 0 <= a < pos ==> r[a] < x,
            decreases r.len() - pos,
        {
            pos = pos + 1;
        }
        if pos < r.len() {
            assert(r[pos as int] != x);
            assert(r[pos as int] > x);
        }
        let ghost old_r = r@;
        r.insert(pos, x);
        assert forall|a: int, b: int| 0 <= a < b < r.len() implies r[a] < r[b] by {
            if b < pos {
            } else if b == pos {
            } else if a < pos {
                assert(old_r[a] < x);
                assert(pos < old_r.len() ==> old_r[pos as int] > x);
                assert(old_r[pos as int] <= old_r[b - 1] || b - 1 == pos);
            } else if a == pos {
                assert(old_r[pos as int] > x);
                assert(old_r[pos as int] <= old_r[b - 1] || b - 1 == pos);
            } else {
            }
        }
        assert forall|y: u64| r@.contains(y) <==> v@.take(i + 1).contains(y) by {
            assert(v@.take(i + 1) =~= v@.take(i as int).push(x));
            if r@.contains(y) {
                let j = choose|j: int| 0 <= j < r.len() && r@[j] == y;
                if j != pos {
                    if j < pos {
                        assert(old_r[j] == y);
                    } else {
                        assert(old_r[j - 1] == y);
                    }
                    assert(old_r.contains(y));
                    let k = choose|k: int| 0 <= k < i && v@.take(i as int)[k] == y;
                    assert(v@.take(i + 1)[k] == y);
                } else {
                    assert(v@.take(i + 1)[i as int] == x);
                }
            }
            if old_r.contains(y) {
                let j = choose|j: int| 0 <= j < old_r.len() && old_r[j] == y;
                if j < pos {
                    assert(r@[j] == y);
                } else {
                    assert(r@[j + 1] == y);
                }
            }
            if y == x {
                assert(r@[pos as int] == x);
            }
        }
        i = i + 1;
    }
    assert(v@.take(i as int) =~= v@);
    r
}

/// A received ACK's effect on the acknowledged side, as plain values.
#[derive(Clone, Debug)]
pub struct AckEvent {
    pub largest_acked: PacketNumber,
    pub acked_packets: Vec<SentPacketRecord>,
    /// Bytes reclaimed from congestion-window accounting (in-flight packets only).
    pub bytes_acked: usize,
    pub rtt_sample: Option<Duration>,
}

/// Packets declared lost (or drained by a probe timeout).
#[derive(Clone, Debug)]
pub struct LossEvent {
    pub lost_packets: Vec<SentPacketRecord>,
    pub bytes_lost: usize,
    pub retransmittable: Vec<RetransmissionRecord>,
}

/// Bytes acknowledged over an interval of more than a millisecond; the
/// delivery rate is `delivered_bytes` over `interval`.
#[derive(Copy, Clone, Debug)]
pub struct DeliverySample {
    pub delivered_bytes: u64,
    pub interval: Duration,
}

/// Tracks the packets in flight and decides which were acknowledged and
/// which were lost.
#[derive(Clone, Debug)]
pub struct LossDetector {
    pub rtt_stats: RttStats,
    sent_packets: BTreeMap<u64, SentPacketRecord>,
    /// Running total of in-flight bytes: the single source of truth for
    /// congestion accounting.
    inflight_bytes: u64,
    largest_acked_packet: Option<PacketNumber>,
    largest_sent_packet: u64,
    pub time_of_last_ack_eliciting_packet: MonotonicTime,
    pub pto_count: u32,
    total_bytes_sent: u64,
    total_bytes_acked: u64,
    last_delivery_rate_time: MonotonicTime,
    last_delivery_rate_bytes: u64,
}

impl Default for LossDetector {
    fn default() -> (d: LossDetector)
        ensures
            d.wf(),
            d.sent() == Map::<u64, SentPacketRecord>::empty(),
            d.inflight() == 0,
            d.largest_acked() is None,
            d.largest_sent() == 0,
            d.probe_count() == 0,
    {
        LossDetector::new()
    }
}

impl LossDetector {
    /// The outstanding packets by packet number.
    pub closed spec fn sent(&self) -> Map<u64, SentPacketRecord> {
        self.sent_packets@
    }

    pub closed spec fn inflight(&self) -> u64 {
        self.inflight_bytes
    }

    pub closed spec fn largest_acked(&self) -> Option<u64> {
        match self.largest_acked_packet {
            Some(p) => Some(p.0),
            None => None,
        }
    }

    pub closed spec fn largest_sent(&self) -> u64 {
        self.largest_sent_packet
    }

    pub closed spec fn rtt(&self) -> RttModel {
        self.rtt_stats.model()
    }

    pub closed spec fn last_ack_eliciting_time(&self) -> MonotonicTime {
        self.time_of_last_ack_eliciting_packet
    }

    pub closed spec fn probe_count(&self) -> u32 {
        self.pto_count
    }

    pub closed spec fn total_sent(&self) -> u64 {
        self.total_bytes_sent
    }

    pub closed spec fn total_acked(&self) -> u64 {
        self.total_bytes_acked
    }

    pub closed spec fn rate_time(&self) -> MonotonicTime {
        self.last_delivery_rate_time
    }

    pub closed spec fn rate_bytes(&self) -> u64 {
        self.last_delivery_rate_bytes
    }

    /// Records are filed under their own packet numbers, none above the
    /// largest sent; the in-flight counter equals the in-flight bytes of the
    /// outstanding records; and acknowledged plus in-flight bytes never
    /// exceed the bytes sent, which fit in `usize`.
    pub closed spec fn wf(&self) -> bool {
        &&& forall|pn: u64| #[trigger] self.sent_packets@.contains_key(pn) ==> self.sent_packets@[pn].packet_number.0 == pn
            && pn <= self.largest_sent_packet
        &&& self.inflight_bytes == inflight_sum(self.sent_packets@)
        &&& self.total_bytes_acked + self.inflight_bytes <= self.total_bytes_sent
        &&& self.total_bytes_sent <= usize::MAX
    }

    pub fn new() -> (d: LossDetector)
        ensures
            d.wf(),
            d.sent() == Map::<u64, SentPacketRecord>::empty(),
            d.inflight() == 0,
            d.largest_acked() is None,
            d.largest_sent() == 0,
            d.rtt() == rtt_initial(),
            d.last_ack_eliciting_time().micros == 0,
            d.probe_count() == 0,
            d.total_sent() == 0,
            d.total_acked() == 0,
            d.rate_time().micros == 0,
            d.rate_bytes() == 0,
    {
        let d = LossDetector {
            rtt_stats: RttStats::new(),
            sent_packets: BTreeMap::new(),
            inflight_bytes: 0,
            largest_acked_packet: None,
            largest_sent_packet: 0,
            time_of_last_ack_eliciting_packet: MonotonicTime::zero(),
            pto_count: 0,
            total_bytes_sent: 0,
            total_bytes_acked: 0,
            last_delivery_rate_time: MonotonicTime::zero(),
            last_delivery_rate_bytes: 0,
        };
        proof {
            assert(d.sent_packets@.dom() =~= Set::<u64>::empty());
            assert(inflight_sum(d.sent_packets@) == 0);
        }
        d
    }

    /// Records a transmitted packet; its packet number must be new.
    pub fn on_packet_sent(&mut self, record: SentPacketRecord)
        requires
            old(self).wf(),
            !old(self).sent().contains_key(record.packet_number.0),
            old(self).total_sent() + record.bytes <= usize::MAX,
        ensures
            final(self).wf(),
            final(self).sent() == old(self).sent().insert(record.packet_number.0, record),
            final(self).inflight() == old(self).inflight() + in_flight_weight(record),
            final(self).total_sent() == old(self).total_sent() + record.bytes,
            final(self).largest_sent() == if record.packet_number.0 > old(self).largest_sent() {
                record.packet_number.0
            } else {
                old(self).largest_sent()
            },
            final(self).last_ack_eliciting_time() == if record.ack_eliciting {
                record.send_time
            } else {
                old(self).last_ack_eliciting_time()
            },
            final(self).largest_acked() == old(self).largest_acked(),
            final(self).rtt() == old(self).rtt(),
            final(self).probe_count() == old(self).probe_count(),
            final(self).total_acked() == old(self).total_acked(),
            final(self).rate_time() == old(self).rate_time(),
            final(self).rate_bytes() == old(self).rate_bytes(),
    {
        if record.ack_eliciting {
            self.time_of_last_ack_eliciting_packet = record.send_time;
        }
        self.total_bytes_sent = self.total_bytes_sent + record.bytes as u64;
        let pn = record.packet_number.as_u64();
        if pn > self.largest_sent_packet {
            self.largest_sent_packet = pn;
        }
        if record.in_flight {
            self.inflight_bytes = self.inflight_bytes.saturating_add(record.bytes as u64);
        }
        proof {
            lemma_inflight_insert(self.sent_packets@, pn, record);
        }
        self.sent_packets.insert(pn, record);
    }

    /// In-flight bytes: the single source of truth for congestion
    /// accounting, kept equal to the in-flight records' total.
    pub fn inflight_bytes(&self) -> (b: u64)
        requires
            self.wf(),
        ensures
            b == self.inflight(),
            b == inflight_sum(self.sent()),
    {
        self.inflight_bytes
    }

    /// The RTT estimator.
    pub fn rtt_stats(&self) -> (r: &RttStats)
        ensures
            r.model() == self.rtt(),
    {
        &self.rtt_stats
    }

    /// Consecutive probe timeouts since the last acknowledgement.
    pub fn pto_count(&self) -> (n: u32)
        ensures
            n == self.probe_count(),
    {
        self.pto_count
    }

    /// When the latest ack-eliciting packet was sent.
    pub fn time_of_last_ack_eliciting_packet(&self) -> (t: MonotonicTime)
        ensures
            t == self.last_ack_eliciting_time(),
    {
        self.time_of_last_ack_eliciting_packet
    }

    /// Number of outstanding (unacknowledged, not yet lost) packets.
    pub fn outstanding_count(&self) -> (n: usize)
        ensures
            n == self.sent().len(),
    {
        self.sent_packets.len()
    }

    /// True once at least one authenticated ACK from the peer has been
    /// processed (a handshake-establishment signal for the client).
    pub fn has_received_ack(&self) -> (b: bool)
        ensures
            b == self.largest_acked() is Some,
    {
        self.largest_acked_packet.is_some()
    }

    /// PTO with RFC 9002 §6.2 exponential backoff (saturating), capped at
    /// `max_pto`.
    pub fn pto_duration_with_backoff(&self, max_pto: Duration) -> (d: Duration)
        ensures
            d.micros == backoff_pto_us(spec_pto_us(self.rtt()), self.probe_count(), max_pto.micros),
    {
        let e: u32 = if self.pto_count < MAX_PTO_BACKOFF_EXPONENT {
            self.pto_count
        } else {
            MAX_PTO_BACKOFF_EXPONENT
        };
        let mut factor: u64 = 1;
        let mut i: u32 = 0;
        while i < e
            invariant
                e <= 8,
                i <= e,
                factor == pow2_nat(i as nat),
                factor <= 256,
            decreases e - i,
        {
            proof {
                lemma_pow2_le(i as nat);
            }
            factor = factor * 2;
            i = i + 1;
        }
        let base = self.rtt_stats.pto_duration().as_micros();
        let expanded: u64 = match base.checked_mul(factor) {
            Some(x) => x,
            None => u64::MAX,
        };
        if expanded <= max_pto.as_micros() {
            Duration::from_micros(expanded)
        } else {
            max_pto
        }
    }

    /// The outstanding in-flight packet numbers in increasing order.
    fn in_flight_sorted(&self) -> (v: Vec<u64>)
        ensures
            forall|i: int, j: int| 0 <= i < j < v.len() ==> v[i] < v[j],
            forall|k: u64| v@.contains(k) <==> (self.sent().contains_key(k) && self.sent()[k].in_flight),
    {
        let ks = self.sent_keys();
        let mut fl: Vec<u64> = Vec::new();
        let mut i: usize = 0;
        while i < ks.len()
            invariant
                i <= ks.len(),
                ks@.no_duplicates(),
                forall|k: u64| ks@.contains(k) <==> self.sent_packets@.contains_key(k),
                fl@.no_duplicates(),
                forall|k: u64| fl@.contains(k) <==> (ks@.take(i as int).contains(k) && self.sent_packets@.contains_key(k)
                    && self.sent_packets@[k].in_flight),
            decreases ks.len() - i,
        {
            let k = ks[i];
            assert(ks@.contains(k));
            assert(ks@.take(i + 1) =~= ks@.take(i as int).push(k));
            assert(!ks@.take(i as int).contains(k)) by {
                if ks@.take(i as int).contains(k) {
                    let j = choose|j: int| 0 <= j < i && ks@.take(i as int)[j] == k;
                    assert(ks@[j] == ks@[i as int]);
                }
            }
            match self.sent_packets.get(&k) {
                Some(r) => {
                    assert(self.sent_packets@.contains_key(k) && self.sent_packets@[k] == *r);
                    if r.in_flight {
                        let ghost before = fl@;
                        fl.push(k);
                        assert forall|a: int, b: int| 0 <= a < b < fl.len() implies fl@[a] != fl@[b] by {
                            if b == fl.len() - 1 {
                                assert(before.contains(fl@[a]));
                            }
                        }
                        assert forall|x: u64| fl@.contains(x) <==> (ks@.take(i + 1).contains(x)
                            && self.sent_packets@.contains_key(x) && self.sent_packets@[x].in_flight) by {
                            if fl@.contains(x) && x != k {
                                let j = choose|j: int| 0 <= j < fl.len() && fl@[j] == x;
                                assert(before[j] == x);
                                assert(before.contains(x));
                                let q = choose|q: int| 0 <= q < i && ks@.take(i as int)[q] == x;
                                assert(ks@.take(i + 1)[q] == x);
                            }
                            if before.contains(x) {
                                let j = choose|j: int| 0 <= j < before.len() && before[j] == x;
                                assert(fl@[j] == x);
                            }
                            assert(fl@[fl.len() - 1] == k);
                            assert(ks@.take(i + 1)[i as int] == k);
                        }
                    }
                },
                None => {},
            }
            i = i + 1;
        }
        assert(ks@.take(i as int) =~= ks@);
        sort_ascending(fl)
    }

    /// PTO timeout sweep (RFC 9002 §7.5): the oldest in-flight records, at
    /// most `MAX_PTO_RETRANSMIT_BURST` of them, leave the outstanding set and
    /// their frames are handed back for retransmission. Their bytes are
    /// reported as `bytes_lost` so congestion accounting can settle them;
    /// `lost_packets` stays empty, as a probe is no loss declaration.
    pub fn on_timeout(&mut self, now: MonotonicTime) -> (ev: LossEvent)
        requires
            old(self).wf(),
        ensures
            final(self).wf(),
            ev.lost_packets@.len() == 0,
            exists|d: Seq<u64>| {
                &&& oldest_in_flight(old(self).sent(), d, MAX_PTO_RETRANSMIT_BURST as int)
                &&& final(self).sent() == old(self).sent().remove_keys(d.to_set())
                &&& frames_view(ev.retransmittable@) == concat_frames(records_at(old(self).sent(), d))
                &&& ev.bytes_lost == records_bytes(records_at(old(self).sent(), d))
            },
            final(self).inflight() == old(self).inflight() - ev.bytes_lost,
            final(self).probe_count() == if old(self).probe_count() < u32::MAX {
                (old(self).probe_count() + 1) as u32
            } else {
                old(self).probe_count()
            },
            final(self).largest_acked() == old(self).largest_acked(),
            final(self).largest_sent() == old(self).largest_sent(),
            final(self).rtt() == old(self).rtt(),
            final(self).last_ack_eliciting_time() == old(self).last_ack_eliciting_time(),
            final(self).total_sent() == old(self).total_sent(),
            final(self).total_acked() == old(self).total_acked(),
            final(self).rate_time() == old(self).rate_time(),
            final(self).rate_bytes() == old(self).rate_bytes(),
    {
        self.pto_count = self.pto_count.saturating_add(1);
        let sorted = self.in_flight_sorted();
        let n: usize = if sorted.len() < MAX_PTO_RETRANSMIT_BURST { sorted.len() } else { MAX_PTO_RETRANSMIT_BURST };
        let ghost m0 = self.sent_packets@;
        let ghost d = sorted@.take(n as int);
        let mut retransmittable: Vec<RetransmissionRecord> = Vec::new();
        let mut bytes_drained: u64 = 0;
        let mut j: usize = 0;
        let ghost snap = *self;
        assert(records_at(m0, d.take(0)) =~= Seq::<SentPacketRecord>::empty());
        assert(m0.remove_keys(d.take(0).to_set()) =~= m0);
        while j < n
            invariant
                n <= sorted.len(),
                n <= MAX_PTO_RETRANSMIT_BURST,
                d == sorted@.take(n as int),
                forall|a: int, b: int| 0 <= a < b < sorted.len() ==> sorted[a] < sorted[b],
                forall|k: u64| sorted@.contains(k) <==> (m0.contains_key(k) && m0[k].in_flight),
                m0.dom().finite(),
                forall|pn: u64| #[trigger] m0.contains_key(pn) ==> m0[pn].packet_number.0 == pn
                    && pn <= self.largest_sent_packet,
                self.inflight_bytes == inflight_sum(m0),
                self.total_bytes_acked + self.inflight_bytes <= self.total_bytes_sent,
                self.total_bytes_sent <= usize::MAX,
                self.pto_count == snap.pto_count,
                self.largest_acked_packet == snap.largest_acked_packet,
                self.largest_sent_packet == snap.largest_sent_packet,
                self.rtt_stats == snap.rtt_stats,
                self.time_of_last_ack_eliciting_packet == snap.time_of_last_ack_eliciting_packet,
                self.total_bytes_sent == snap.total_bytes_sent,
                self.total_bytes_acked == snap.total_bytes_acked,
                self.last_delivery_rate_time == snap.last_delivery_rate_time,
                self.last_delivery_rate_bytes == snap.last_delivery_rate_bytes,
                j <= n,
                self.sent_packets@ == m0.remove_keys(d.take(j as int).to_set()),
                frames_view(retransmittable@) == concat_frames(records_at(m0, d.take(j as int))),
                bytes_drained == records_bytes(records_at(m0, d.take(j as int))),
                bytes_drained + inflight_sum(self.sent_packets@) == inflight_sum(m0),
            decreases n - j,
        {
            let pn = sorted[j];
            assert(sorted@.contains(pn));
            assert(d[j as int] == pn);
            assert(!d.take(j as int).contains(pn)) by {
                if d.take(j as int).contains(pn) {
                    let a = choose|a: int| 0 <= a < j && d.take(j as int)[a] == pn;
                    assert(sorted[a] < sorted[j as int]);
                }
            }
            assert(self.sent_packets@.contains_key(pn));
            proof {
                lemma_inflight_remove(self.sent_packets@, pn);
            }
            let ghost cur = self.sent_packets@;
            let removed = self.sent_packets.remove(&pn);
            assert(removed == Some(cur[pn]));
            assert(self.sent_packets@ == cur.remove(pn));
            assert(cur[pn] == m0[pn]);
            match removed {
                Some(record) => {
                    append_frames(&mut retransmittable, &record);
                    bytes_drained = bytes_drained + record.bytes as u64;
                },
                None => {},
            }
            proof {
                assert(d.take(j + 1) =~= d.take(j as int).push(pn));
                d.take(j as int).lemma_push_to_set_commute(pn);
                assert(d.take(j + 1).to_set() =~= d.take(j as int).to_set().insert(pn));
                assert(self.sent_packets@ =~= m0.remove_keys(d.take(j + 1).to_set()));
                let ra = records_at(m0, d.take(j + 1));
                assert(ra.drop_last() =~= records_at(m0, d.take(j as int)));
                assert(ra.last() == m0[pn]);
            }
            j = j + 1;
        }
        proof {
            let pnd = d;
            assert forall|k: u64| #[trigger] m0.contains_key(k) && m0[k].in_flight && !pnd.contains(k) implies pnd.len()
                == MAX_PTO_RETRANSMIT_BURST as int && pnd[MAX_PTO_RETRANSMIT_BURST as int - 1] < k by {
                assert(sorted@.contains(k));
                let p = choose|p: int| 0 <= p < sorted.len() && sorted@[p] == k;
                if p < n {
                    assert(pnd[p] == k);
                }
                assert(sorted[n - 1] < sorted[p]);
            }
            assert forall|i: int| 0 <= i < pnd.len() implies m0.contains_key(#[trigger] pnd[i]) && m0[pnd[i]].in_flight by {
                assert(sorted@.contains(sorted[i]));
            }
            assert(oldest_in_flight(m0, pnd, MAX_PTO_RETRANSMIT_BURST as int));
            assert(d.take(n as int) =~= d);
            assert(self.sent_packets@ == m0.remove_keys(pnd.to_set()));
            assert(frames_view(retransmittable@) == concat_frames(records_at(m0, pnd)));
        }
        self.inflight_bytes = self.inflight_bytes - bytes_drained;
        let ev = LossEvent {
            lost_packets: Vec::new(),
            bytes_lost: bytes_drained as usize,
            retransmittable,
        };
        assert({
            &&& oldest_in_flight(old(self).sent(), d, MAX_PTO_RETRANSMIT_BURST as int)
            &&& self.sent() == old(self).sent().remove_keys(d.to_set())
            &&& frames_view(ev.retransmittable@) == concat_frames(records_at(old(self).sent(), d))
            &&& ev.bytes_lost == records_bytes(records_at(old(self).sent(), d))
        });
        ev
    }

    /// What acknowledging the packets an ACK frame lists does to the
    /// outstanding records and the RTT estimate.
    pub open spec fn ack_outcome(
        &self,
        largest: u64,
        ack_delay_us: u32,
        ranges: Seq<AckRange>,
        range_count: int,
        now: MonotonicTime,
    ) -> AckProgress {
        ack_sweep(
            AckProgress { sent: self.sent(), acked: Seq::empty(), bytes: 0, rtt: self.rtt(), sample: None },
            decode_ack_ranges(largest, ranges, range_count),
            largest,
            now,
            ack_delay_us as u64,
        )
    }

    /// Processes an ACK frame: removes the acknowledged records (feeding the
    /// RTT estimator from the largest one), advances the largest
    /// acknowledged packet, resets the probe count on progress, takes a
    /// delivery-rate sample, and declares lost what the packet or time
    /// threshold condemns. An ACK for a packet never sent changes nothing.
    pub fn on_ack_received(
        &mut self,
        largest_acked: PacketNumber,
        ack_delay_us: u32,
        ranges: &[AckRange],
        range_count: usize,
        now: MonotonicTime,
    ) -> (r: (AckEvent, LossEvent, Option<DeliverySample>))
        requires
            old(self).wf(),
            largest_acked.0 <= old(self).largest_sent() ==> loss_threshold_fits(
                old(self).ack_outcome(largest_acked.0, ack_delay_us, ranges@, range_count as int, now).rtt,
            ),
        ensures
            final(self).wf(),
            r.0.largest_acked == largest_acked,
            largest_acked.0 > old(self).largest_sent() ==> {
                &&& r.0.acked_packets@.len() == 0
                &&& r.0.bytes_acked == 0
                &&& r.0.rtt_sample is None
                &&& r.1.lost_packets@.len() == 0
                &&& r.1.bytes_lost == 0
                &&& r.1.retransmittable@.len() == 0
                &&& r.2 is None
                &&& final(self).sent() == old(self).sent()
                &&& final(self).inflight() == old(self).inflight()
                &&& final(self).largest_acked() == old(self).largest_acked()
                &&& final(self).rtt() == old(self).rtt()
                &&& final(self).probe_count() == old(self).probe_count()
                &&& final(self).total_acked() == old(self).total_acked()
                &&& final(self).rate_time() == old(self).rate_time()
                &&& final(self).rate_bytes() == old(self).rate_bytes()
            },
            largest_acked.0 <= old(self).largest_sent() ==> {
                let sw = old(self).ack_outcome(largest_acked.0, ack_delay_us, ranges@, range_count as int, now);
                let total = old(self).total_acked() + sw.bytes;
                let th = loss_threshold_us(sw.rtt);
                let dv = delivery_after(old(self).rate_time(), old(self).rate_bytes(), total as u64, now);
                &&& r.0.acked_packets@ == sw.acked
                &&& r.0.bytes_acked == sw.bytes
                &&& r.0.rtt_sample == sw.sample
                &&& final(self).rtt() == sw.rtt
                &&& final(self).total_acked() == total
                &&& final(self).largest_acked() == match old(self).largest_acked() {
                    Some(l) => if largest_acked.0 > l { Some(largest_acked.0) } else { Some(l) },
                    None => Some(largest_acked.0),
                }
                &&& final(self).probe_count() == if sw.acked.len() > 0 { 0 } else { old(self).probe_count() }
                &&& r.2 == dv.0
                &&& final(self).rate_time() == dv.1
                &&& final(self).rate_bytes() == dv.2
                &&& lost_in_order(sw.sent, r.1.lost_packets@, largest_acked.0, now, th)
                &&& final(self).sent() == surviving(sw.sent, largest_acked.0, now, th)
                &&& r.1.bytes_lost == records_bytes(r.1.lost_packets@)
                &&& frames_view(r.1.retransmittable@) == concat_frames(r.1.lost_packets@)
            },
            final(self).inflight() == inflight_sum(final(self).sent()),
            final(self).largest_sent() == old(self).largest_sent(),
            final(self).last_ack_eliciting_time() == old(self).last_ack_eliciting_time(),
            final(self).total_sent() == old(self).total_sent(),
    {
        let ack_delay = Duration::from_micros(ack_delay_us as u64);
        let largest_pn = largest_acked.as_u64();
        // A peer cannot acknowledge packets that were never sent.
        if largest_pn > self.largest_sent_packet {
            return (
                AckEvent { largest_acked, acked_packets: Vec::new(), bytes_acked: 0, rtt_sample: None },
                LossEvent { lost_packets: Vec::new(), bytes_lost: 0, retransmittable: Vec::new() },
                None,
            );
        }
        let acked_numbers = parse_ack_ranges(largest_pn, ranges, range_count);
        let (newly_acked, bytes_acked, rtt_sample) = self.apply_acks(&acked_numbers, largest_pn, now, ack_delay);
        self.total_bytes_acked = self.total_bytes_acked + bytes_acked as u64;
        let newer = match self.largest_acked_packet {
            None => true,
            Some(l) => largest_pn > l.0,
        };
        if newer {
            self.largest_acked_packet = Some(largest_acked);
        }
        if newly_acked.len() > 0 {
            self.pto_count = 0;
        }
        let mut delivery_sample: Option<DeliverySample> = None;
        if self.last_delivery_rate_time.as_micros() != 0 {
            let interval = now.duration_since(self.last_delivery_rate_time);
            if interval.as_micros() > 1000 {
                let delivered = self.total_bytes_acked.saturating_sub(self.last_delivery_rate_bytes);
                delivery_sample = Some(DeliverySample { delivered_bytes: delivered, interval });
                self.last_delivery_rate_time = now;
                self.last_delivery_rate_bytes = self.total_bytes_acked;
            }
        } else {
            self.last_delivery_rate_time = now;
            self.last_delivery_rate_bytes = self.total_bytes_acked;
        }
        let loss = self.detect_lost(largest_pn, now);
        (AckEvent { largest_acked, acked_packets: newly_acked, bytes_acked, rtt_sample }, loss, delivery_sample)
    }

    /// Removes the records of the acknowledged packet numbers `pns`,
    /// feeding the RTT estimator from the largest one.
    fn apply_acks(&mut self, pns: &Vec<u64>, largest_pn: u64, now: MonotonicTime, ack_delay: Duration)
        -> (r: (Vec<SentPacketRecord>, usize, Option<Duration>))
        requires
            old(self).wf(),
        ensures
            ({
                let init = AckProgress {
                    sent: old(self).sent(),
                    acked: Seq::empty(),
                    bytes: 0,
                    rtt: old(self).rtt(),
                    sample: None,
                };
                let sw = ack_sweep(init, pns@, largest_pn, now, ack_delay.micros);
                &&& r.0@ == sw.acked
                &&& r.1 == sw.bytes
                &&& r.2 == sw.sample
                &&& final(self).sent() == sw.sent
                &&& final(self).rtt() == sw.rtt
            }),
            final(self).inflight() == inflight_sum(final(self).sent()),
            final(self).inflight() + r.1 == old(self).inflight(),
            final(self).probe_count() == old(self).probe_count(),
            final(self).largest_acked() == old(self).largest_acked(),
            final(self).largest_sent() == old(self).largest_sent(),
            final(self).last_ack_eliciting_time() == old(self).last_ack_eliciting_time(),
            final(self).total_sent() == old(self).total_sent(),
            final(self).total_acked() == old(self).total_acked(),
            final(self).rate_time() == old(self).rate_time(),
            final(self).rate_bytes() == old(self).rate_bytes(),
            forall|pn: u64| #[trigger] final(self).sent().contains_key(pn) ==> old(self).sent().contains_key(pn)
                && final(self).sent()[pn] == old(self).sent()[pn],
    {
        let ghost init = AckProgress {
            sent: self.sent_packets@,
            acked: Seq::empty(),
            bytes: 0,
            rtt: self.rtt_stats.model(),
            sample: None,
        };
        let ghost target = ack_sweep(init, pns@, largest_pn, now, ack_delay.micros);
        let ghost m0 = self.sent_packets@;
        let ghost snap = *self;
        let mut newly_acked: Vec<SentPacketRecord> = Vec::new();
        let mut bytes_acked: usize = 0;
        let mut rtt_sample: Option<Duration> = None;
        let mut i: usize = 0;
        assert(pns@.skip(0) =~= pns@);
        while i < pns.len()
            invariant
                i <= pns.len(),
                ack_sweep(
                    AckProgress {
                        sent: self.sent_packets@,
                        acked: newly_acked@,
                        bytes: bytes_acked as nat,
                        rtt: self.rtt_stats.model(),
                        sample: rtt_sample,
                    },
                    pns@.skip(i as int),
                    largest_pn,
                    now,
                    ack_delay.micros,
                ) == target,
                self.sent_packets@.dom().finite(),
                forall|pn: u64| #[trigger] self.sent_packets@.contains_key(pn) ==> m0.contains_key(pn)
                    && self.sent_packets@[pn] == m0[pn],
                self.inflight_bytes == inflight_sum(self.sent_packets@),
                self.inflight_bytes + bytes_acked == snap.inflight_bytes,
                snap.inflight_bytes <= u64::MAX,
                snap.total_bytes_sent <= usize::MAX,
                snap.total_bytes_acked + snap.inflight_bytes <= snap.total_bytes_sent,
                self.pto_count == snap.pto_count,
                self.largest_acked_packet == snap.largest_acked_packet,
                self.largest_sent_packet == snap.largest_sent_packet,
                self.time_of_last_ack_eliciting_packet == snap.time_of_last_ack_eliciting_packet,
                self.total_bytes_sent == snap.total_bytes_sent,
                self.total_bytes_acked == snap.total_bytes_acked,
                self.last_delivery_rate_time == snap.last_delivery_rate_time,
                self.last_delivery_rate_bytes == snap.last_delivery_rate_bytes,
            decreases pns.len() - i,
        {
            let pn = pns[i];
            let ghost cur = AckProgress {
                sent: self.sent_packets@,
                acked: newly_acked@,
                bytes: bytes_acked as nat,
                rtt: self.rtt_stats.model(),
                sample: rtt_sample,
            };
            proof {
                assert(pns@.skip(i as int).drop_first() =~= pns@.skip(i + 1));
                assert(pns@.skip(i as int)[0] == pn);
            }
            let ghost cmap = self.sent_packets@;
            let removed = self.sent_packets.remove(&pn);
            match removed {
                Some(record) => {
                    assert(cmap.contains_key(pn) && record == cmap[pn]);
                    proof {
                        lemma_inflight_remove(cmap, pn);
                    }
                    if record.in_flight {
                        bytes_acked = bytes_acked + record.bytes;
                        self.inflight_bytes = self.inflight_bytes - record.bytes as u64;
                    }
                    if pn == largest_pn {
                        let sample = now.duration_since(record.send_time);
                        self.rtt_stats.update(sample, ack_delay);
                        rtt_sample = Some(sample);
                    }
                    newly_acked.push(record);
                    proof {
                        let nxt = ack_step(cur, pn, largest_pn, now, ack_delay.micros);
                        assert(self.sent_packets@ == nxt.sent);
                        assert(newly_acked@ =~= nxt.acked);
                    }
                },
                None => {
                    assert(!cmap.contains_key(pn));
                    assert(self.sent_packets@ =~= cmap);
                },
            }
            i = i + 1;
        }
        proof {
            assert(pns@.skip(i as int) =~= Seq::<u64>::empty());
        }
        (newly_acked, bytes_acked, rtt_sample)
    }

    /// Declares lost, and removes, every outstanding packet that meets the
    /// packet or time threshold relative to `largest_pn`.
    fn detect_lost(&mut self, largest_pn: u64, now: MonotonicTime) -> (ev: LossEvent)
        requires
            old(self).wf(),
            loss_threshold_fits(old(self).rtt()),
        ensures
            final(self).wf(),
            lost_in_order(old(self).sent(), ev.lost_packets@, largest_pn, now, loss_threshold_us(old(self).rtt())),
            final(self).sent() == surviving(old(self).sent(), largest_pn, now, loss_threshold_us(old(self).rtt())),
            ev.bytes_lost == records_bytes(ev.lost_packets@),
            frames_view(ev.retransmittable@) == concat_frames(ev.lost_packets@),
            final(self).inflight() == old(self).inflight() - ev.bytes_lost,
            final(self).probe_count() == old(self).probe_count(),
            final(self).largest_acked() == old(self).largest_acked(),
            final(self).largest_sent() == old(self).largest_sent(),
            final(self).rtt() == old(self).rtt(),
            final(self).last_ack_eliciting_time() == old(self).last_ack_eliciting_time(),
            final(self).total_sent() == old(self).total_sent(),
            final(self).total_acked() == old(self).total_acked(),
            final(self).rate_time() == old(self).rate_time(),
            final(self).rate_bytes() == old(self).rate_bytes(),
    {
        let smoothed = self.rtt_stats.smoothed().as_micros();
        let latest = self.rtt_stats.latest().as_micros();
        let base = if smoothed >= latest { smoothed } else { latest };
        let threshold = (base * TIME_THRESHOLD_FACTOR_NUM) / TIME_THRESHOLD_FACTOR_DEN;
        let ghost th = loss_threshold_us(self.rtt());
        assert(threshold == th);
        let ghost m0 = self.sent_packets@;
        let sorted = self.in_flight_sorted();
        // The lost packet numbers, in increasing order.
        let mut lost_pns: Vec<u64> = Vec::new();
        let mut i: usize = 0;
        while i < sorted.len()
            invariant
                i <= sorted.len(),
                threshold == th,
                self.sent_packets@ == m0,
                forall|a: int, b: int| 0 <= a < b < sorted.len() ==> sorted[a] < sorted[b],
                forall|k: u64| sorted@.contains(k) <==> (m0.contains_key(k) && m0[k].in_flight),
                forall|a: int, b: int| 0 <= a < b < lost_pns.len() ==> lost_pns[a] < lost_pns[b],
                forall|a: int| 0 <= a < lost_pns.len() ==> exists|b: int| 0 <= b < i && sorted[b] == #[trigger] lost_pns[a],
                forall|k: u64| lost_pns@.contains(k) <==> (sorted@.take(i as int).contains(k) && declared_lost(m0[k], k, largest_pn, now, th)),
            decreases sorted.len() - i,
        {
            let k = sorted[i];
            assert(sorted@.contains(k));
            let ghost before = lost_pns@;
            assert(sorted@.take(i + 1) =~= sorted@.take(i as int).push(k));
            match self.sent_packets.get(&k) {
                Some(record) => {
                    assert(*record == m0[k]);
                    let by_count = largest_pn >= PACKET_THRESHOLD && k <= largest_pn - PACKET_THRESHOLD;
                    let by_time = now.duration_since(record.send_time).micros >= threshold;
                    assert((k <= largest_pn && (by_count || by_time)) == declared_lost(m0[k], k, largest_pn, now, th));
                    if k <= largest_pn && (by_count || by_time) {
                        lost_pns.push(k);
                        assert forall|a: int| 0 <= a < lost_pns.len() implies exists|b: int| 0 <= b < i + 1 && sorted[b] == #[trigger] lost_pns[a] by {
                            if a < before.len() {
                                assert(lost_pns[a] == before[a]);
                            } else {
                                assert(sorted[i as int] == lost_pns[a]);
                            }
                        }
                        assert forall|a: int, b: int| 0 <= a < b < lost_pns.len() implies lost_pns[a] < lost_pns[b] by {
                            if b == lost_pns.len() - 1 {
                                assert(lost_pns[a] == before[a]);
                                let c = choose|c: int| 0 <= c < i && sorted[c] == #[trigger] before[a];
                            }
                        }
                    }
                    assert forall|x: u64| lost_pns@.contains(x) <==> (sorted@.take(i + 1).contains(x)
                        && declared_lost(m0[x], x, largest_pn, now, th)) by {
                        if lost_pns@.contains(x) && x != k {
                            let a = choose|a: int| 0 <= a < lost_pns.len() && lost_pns@[a] == x;
                            assert(before[a] == x);
                            assert(before.contains(x));
                            let q = choose|q: int| 0 <= q < i && sorted@.take(i as int)[q] == x;
                            assert(sorted@.take(i + 1)[q] == x);
                        }
                        if before.contains(x) {
                            let a = choose|a: int| 0 <= a < before.len() && before[a] == x;
                            assert(lost_pns@[a] == x);
                        }
                        if x == k {
                            assert(sorted@.take(i + 1)[i as int] == k);
                            if lost_pns@.len() > before.len() {
                                assert(lost_pns@[lost_pns.len() - 1] == k);
                            } else if lost_pns@.contains(k) {
                                let a = choose|a: int| 0 <= a < lost_pns.len() && lost_pns@[a] == k;
                                let c = choose|c: int| 0 <= c < i && sorted[c] == #[trigger] lost_pns[a];
                            }
                        }
                    }
                },
                None => {
                    assert(false);
                },
            }
            i = i + 1;
        }
        assert(sorted@.take(i as int) =~= sorted@);
        // Remove the lost records and collect what they carried.
        let ghost lp = lost_pns@;
        let mut lost_packets: Vec<SentPacketRecord> = Vec::new();
        let mut retransmittable: Vec<RetransmissionRecord> = Vec::new();
        let mut bytes_lost: usize = 0;
        let mut j: usize = 0;
        let ghost snap = *self;
        assert(m0.remove_keys(lp.take(0).to_set()) =~= m0);
        assert(records_at(m0, lp.take(0)) =~= Seq::<SentPacketRecord>::empty());
        while j < lost_pns.len()
            invariant
                lp == lost_pns@,
                forall|a: int, b: int| 0 <= a < b < lp.len() ==> lp[a] < lp[b],
                forall|k: u64| lp.contains(k) ==> m0.contains_key(k) && m0[k].in_flight,
                m0.dom().finite(),
                forall|pn: u64| #[trigger] m0.contains_key(pn) ==> m0[pn].packet_number.0 == pn
                    && pn <= self.largest_sent_packet,
                self.total_bytes_acked + inflight_sum(m0) <= self.total_bytes_sent,
                self.total_bytes_sent <= usize::MAX,
                self.pto_count == snap.pto_count,
                self.largest_acked_packet == snap.largest_acked_packet,
                self.largest_sent_packet == snap.largest_sent_packet,
                self.rtt_stats == snap.rtt_stats,
                self.time_of_last_ack_eliciting_packet == snap.time_of_last_ack_eliciting_packet,
                self.total_bytes_sent == snap.total_bytes_sent,
                self.total_bytes_acked == snap.total_bytes_acked,
                self.last_delivery_rate_time == snap.last_delivery_rate_time,
                self.last_delivery_rate_bytes == snap.last_delivery_rate_bytes,
                j <= lost_pns.len(),
                self.sent_packets@ == m0.remove_keys(lp.take(j as int).to_set()),
                lost_packets@ == records_at(m0, lp.take(j as int)),
                frames_view(retransmittable@) == concat_frames(lost_packets@),
                bytes_lost == records_bytes(lost_packets@),
                bytes_lost + inflight_sum(self.sent_packets@) == inflight_sum(m0),
                self.inflight_bytes + bytes_lost == inflight_sum(m0),
            decreases lost_pns.len() - j,
        {
            let pn = lost_pns[j];
            assert(lp.contains(pn));
            assert(!lp.take(j as int).contains(pn)) by {
                if lp.take(j as int).contains(pn) {
                    let a = choose|a: int| 0 <= a < j && lp.take(j as int)[a] == pn;
                    assert(lp[a] < lp[j as int]);
                }
            }
            let ghost cur = self.sent_packets@;
            assert(cur.contains_key(pn));
            proof {
                lemma_inflight_remove(cur, pn);
            }
            let removed = self.sent_packets.remove(&pn);
            assert(removed == Some(cur[pn]));
            assert(cur[pn] == m0[pn]);
            match removed {
                Some(record) => {
                    bytes_lost = bytes_lost + record.bytes;
                    self.inflight_bytes = self.inflight_bytes - record.bytes as u64;
                    append_frames(&mut retransmittable, &record);
                    let ghost before = lost_packets@;
                    lost_packets.push(record);
                    proof {
                        assert(lost_packets@.drop_last() =~= before);
                        assert(lost_packets@.last() == record);
                    }
                },
                None => {},
            }
            proof {
                assert(lp.take(j + 1) =~= lp.take(j as int).push(pn));
                lp.take(j as int).lemma_push_to_set_commute(pn);
                assert(self.sent_packets@ =~= m0.remove_keys(lp.take(j + 1).to_set()));
                assert(lost_packets@ =~= records_at(m0, lp.take(j + 1)));
            }
            j = j + 1;
        }
        proof {
            assert(lp.take(j as int) =~= lp);
            let lost = lost_packets@;
            assert forall|i: int| 0 <= i < lost.len() implies {
                let pn = (#[trigger] lost[i]).packet_number.0;
                m0.contains_key(pn) && m0[pn] == lost[i] && declared_lost(lost[i], pn, largest_pn, now, th)
            } by {
                assert(lost[i] == m0[lp[i]]);
                assert(lp.contains(lp[i]));
                assert(sorted@.contains(lp[i]));
            }
            assert forall|pn: u64| #[trigger] m0.contains_key(pn) && declared_lost(m0[pn], pn, largest_pn, now, th)
                implies exists|i: int| 0 <= i < lost.len() && lost[i].packet_number.0 == pn by {
                assert(sorted@.contains(pn));
                assert(lp.contains(pn));
                let a = choose|a: int| 0 <= a < lp.len() && lp[a] == pn;
                assert(lost[a] == m0[pn]);
            }
            assert forall|a: int, b: int| 0 <= a < b < lost.len() implies lost[a].packet_number.0 < lost[b].packet_number.0 by {
                assert(lost[a] == m0[lp[a]]);
                assert(lost[b] == m0[lp[b]]);
                assert(lp.contains(lp[a]));
                assert(lp.contains(lp[b]));
            }
            assert forall|k: u64| lp.contains(k) <==> (m0.contains_key(k) && declared_lost(m0[k], k, largest_pn, now, th)) by {
                if m0.contains_key(k) && declared_lost(m0[k], k, largest_pn, now, th) {
                    assert(sorted@.contains(k));
                }
            }
            assert(self.sent_packets@ =~= surviving(m0, largest_pn, now, th));
        }
        LossEvent { lost_packets, bytes_lost, retransmittable }
    }

    /// The outstanding packet numbers, without duplicates.
    fn sent_keys(&self) -> (ks: Vec<u64>)
        ensures
            ks@.no_duplicates(),
            forall|k: u64| ks@.contains(k) <==> self.sent_packets@.contains_key(k),
    {
        let mut v: Vec<u64> = Vec::new();
        let ghost s = self.sent_packets.keys().remaining();
        for k in it: self.sent_packets.keys()
            invariant
                v.len() == it.index(),
                it.seq() == s,
                forall|i: int| 0 <= i < v.len() ==> v[i] == *it.seq()[i],
        {
            v.push(*k);
        }
        proof {
            assert(s.unref().to_set() == self.sent_packets@.dom());
            assert forall|k: u64| self.sent_packets@.contains_key(k) implies v@.contains(k) by {
                assert(s.unref().to_set().contains(k));
                let i = choose|i: int| 0 <= i < s.len() && s.unref()[i] == k;
                assert(v@[i] == k);
            }
            assert forall|k: u64| v@.contains(k) implies self.sent_packets@.contains_key(k) by {
                let i = choose|i: int| 0 <= i < v.len() && v@[i] == k;
                assert(s.unref()[i] == k);
                assert(s.unref().to_set().contains(k));
            }
            assert forall|i: int, j: int| 0 <= i < j < v.len() implies v@[i] != v@[j] by {
                assert(s[i] != s[j]);
            }
        }
        v
    }
}

/// The in-flight counter is the single source of truth: in every
/// well-formed state (which every operation preserves) it equals the
/// in-flight bytes of the outstanding records, and acknowledged plus
/// in-flight bytes never exceed the bytes sent.
pub proof fn lemma_inflight_single_source(d: LossDetector)
    requires
        d.wf(),
    ensures
        d.inflight() == inflight_sum(d.sent()),
        d.total_acked() + d.inflight() <= d.total_sent(),
{
}

/// The packet numbers of `rs`, in order.
pub open spec fn numbers_of(rs: Seq<SentPacketRecord>) -> Seq<u64> {
    rs.map_values(|r: SentPacketRecord| r.packet_number.0)
}

/// The in-flight bytes of `rs`.
pub open spec fn in_flight_bytes_of(rs: Seq<SentPacketRecord>) -> nat
    decreases rs.len(),
{
    if rs.len() == 0 { 0 } else { in_flight_bytes_of(rs.drop_last()) + in_flight_weight(rs.last()) }
}

/// What an ACK sweep does to the outstanding records: the numbers it
/// acknowledges leave the map, each outstanding one is reported once, in the
/// order of `pns`, unchanged, and the in-flight bytes move from the map to the
/// acknowledged count.
proof fn lemma_sweep_moves(p: AckProgress, pns: Seq<u64>, largest: u64, now: MonotonicTime, ack_delay: u64)
    requires
        p.sent.dom().finite(),
        forall|k: u64| #[trigger] p.sent.contains_key(k) ==> p.sent[k].packet_number.0 == k,
    ensures
        ({
            let q = ack_sweep(p, pns, largest, now, ack_delay);
            let n = p.acked.len() as int;
            &&& q.sent.dom().finite()
            &&& forall|k: u64| #[trigger] q.sent.contains_key(k) == (p.sent.contains_key(k) && !pns.contains(k))
            &&& forall|k: u64| #[trigger] q.sent.contains_key(k) ==> q.sent[k] == p.sent[k]
            &&& n <= q.acked.len()
            &&& q.acked.take(n) == p.acked
            &&& forall|i: int| n <= i < q.acked.len() ==> {
                let pn = (#[trigger] q.acked[i]).packet_number.0;
                p.sent.contains_key(pn) && p.sent[pn] == q.acked[i] && pns.contains(pn)
            }
            &&& forall|k: u64| #[trigger] p.sent.contains_key(k) && pns.contains(k) ==> exists|i: int|
                n <= i < q.acked.len() && (#[trigger] q.acked[i]).packet_number.0 == k
            &&& forall|i: int, j: int| n <= i < j < q.acked.len() ==> (#[trigger] q.acked[i]).packet_number.0
                != (#[trigger] q.acked[j]).packet_number.0
            &&& inflight_sum(p.sent) + p.bytes == inflight_sum(q.sent) + q.bytes
            &&& q.bytes + in_flight_bytes_of(p.acked) == p.bytes + in_flight_bytes_of(q.acked)
        }),
    decreases pns.len(),
{
    let q = ack_sweep(p, pns, largest, now, ack_delay);
    let n = p.acked.len() as int;
    if pns.len() == 0 {
        assert(q == p);
        assert(p.acked.take(n) =~= p.acked);
        return;
    }
    let k0 = pns[0];
    let rest = pns.drop_first();
    let p1 = ack_step(p, k0, largest, now, ack_delay);
    assert(q == ack_sweep(p1, rest, largest, now, ack_delay));
    assert forall|k: u64| pns.contains(k) == (k == k0 || rest.contains(k)) by {
        if pns.contains(k) && k != k0 {
            let i = choose|i: int| 0 <= i < pns.len() && pns[i] == k;
            assert(i > 0);
            assert(rest[i - 1] == k);
        }
        if rest.contains(k) {
            let i = choose|i: int| 0 <= i < rest.len() && rest[i] == k;
            assert(pns[i + 1] == k);
        }
    }
    let hit = p.sent.contains_key(k0);
    if hit {
        lemma_inflight_remove(p.sent, k0);
        assert(p1.acked.drop_last() =~= p.acked);
    } else {
        assert(p1 == p);
    }
    assert(p1.sent.dom().finite());
    assert forall|k: u64| #[trigger] p1.sent.contains_key(k) implies p1.sent[k].packet_number.0 == k by {}
    lemma_sweep_moves(p1, rest, largest, now, ack_delay);
    let n1 = p1.acked.len() as int;
    assert(n1 == if hit { n + 1 } else { n });
    assert(q.acked.take(n1) == p1.acked);
    assert(q.acked.take(n) =~= p.acked) by {
        assert forall|i: int| 0 <= i < n implies q.acked.take(n)[i] == p.acked[i] by {
            assert(q.acked.take(n1)[i] == q.acked[i]);
        }
    }
    if hit {
        assert(q.acked[n] == q.acked.take(n1)[n]);
        assert(q.acked[n] == p.sent[k0]);
    }
    assert forall|i: int| n <= i < q.acked.len() implies {
        let pn = (#[trigger] q.acked[i]).packet_number.0;
        p.sent.contains_key(pn) && p.sent[pn] == q.acked[i] && pns.contains(pn)
    } by {
        if i >= n1 {
            let pn = q.acked[i].packet_number.0;
            assert(p1.sent.contains_key(pn));
            assert(rest.contains(pn));
        }
    }
    assert forall|k: u64| #[trigger] p.sent.contains_key(k) && pns.contains(k) implies exists|i: int|
        n <= i < q.acked.len() && (#[trigger] q.acked[i]).packet_number.0 == k by {
        if k == k0 {
            assert(q.acked[n].packet_number.0 == k);
        } else {
            assert(p1.sent.contains_key(k));
            assert(rest.contains(k));
            let i = choose|i: int| n1 <= i < q.acked.len() && (#[trigger] q.acked[i]).packet_number.0 == k;
            assert(n <= i < q.acked.len() && q.acked[i].packet_number.0 == k);
        }
    }
    assert forall|i: int, j: int| n <= i < j < q.acked.len() implies (#[trigger] q.acked[i]).packet_number.0
        != (#[trigger] q.acked[j]).packet_number.0 by {
        if i < n1 {
            assert(hit && i == n);
            let pn = q.acked[j].packet_number.0;
            assert(p1.sent.contains_key(pn));
        }
    }
}

/// An ACK splits the outstanding packets three ways, with nothing invented
/// and nothing lost track of: every outstanding packet is acknowledged (its
/// number is in the ACK frame), declared lost, or still outstanding, exactly
/// one of these; each acknowledged or lost record is reported once and
/// unchanged; every lost packet was in flight and at or below the largest
/// acknowledged one; and the bytes reported as acknowledged are the in-flight
/// bytes of the acknowledged records, which leave the in-flight total.
pub proof fn lemma_ack_partition(
    d: LossDetector,
    largest: u64,
    ack_delay_us: u32,
    ranges: Seq<AckRange>,
    range_count: int,
    now: MonotonicTime,
    lost: Seq<SentPacketRecord>,
)
    requires
        d.wf(),
        lost_in_order(
            d.ack_outcome(largest, ack_delay_us, ranges, range_count, now).sent,
            lost,
            largest,
            now,
            loss_threshold_us(d.ack_outcome(largest, ack_delay_us, ranges, range_count, now).rtt),
        ),
    ensures
        ({
            let sw = d.ack_outcome(largest, ack_delay_us, ranges, range_count, now);
            let pns = decode_ack_ranges(largest, ranges, range_count);
            let rem = surviving(sw.sent, largest, now, loss_threshold_us(sw.rtt));
            let acked = numbers_of(sw.acked);
            let gone = numbers_of(lost);
            &&& acked.no_duplicates()
            &&& gone.no_duplicates()
            &&& forall|k: u64| #[trigger] acked.contains(k) <==> d.sent().contains_key(k) && pns.contains(k)
            &&& forall|k: u64| #[trigger] d.sent().contains_key(k) <==> (acked.contains(k) || gone.contains(k)
                || rem.contains_key(k))
            &&& forall|k: u64| !(#[trigger] acked.contains(k) && gone.contains(k))
            &&& forall|k: u64| !(#[trigger] acked.contains(k) && rem.contains_key(k))
            &&& forall|k: u64| !(#[trigger] gone.contains(k) && rem.contains_key(k))
            &&& forall|i: int| 0 <= i < sw.acked.len() ==> #[trigger] sw.acked[i] == d.sent()[sw.acked[i].packet_number.0]
            &&& forall|i: int| 0 <= i < lost.len() ==> {
                let r = #[trigger] lost[i];
                &&& r == d.sent()[r.packet_number.0]
                &&& r.in_flight
                &&& r.packet_number.0 <= largest
            }
            &&& forall|k: u64| #[trigger] rem.contains_key(k) ==> rem[k] == d.sent()[k]
            &&& sw.bytes == in_flight_bytes_of(sw.acked)
            &&& inflight_sum(d.sent()) == sw.bytes + inflight_sum(sw.sent)
        }),
{
    let sw = d.ack_outcome(largest, ack_delay_us, ranges, range_count, now);
    let pns = decode_ack_ranges(largest, ranges, range_count);
    let th = loss_threshold_us(sw.rtt);
    let rem = surviving(sw.sent, largest, now, th);
    let p0 = AckProgress { sent: d.sent(), acked: Seq::empty(), bytes: 0, rtt: d.rtt(), sample: None };
    assert(d.sent() == d.sent_packets@);
    lemma_sweep_moves(p0, pns, largest, now, ack_delay_us as u64);
    assert(sw.acked.take(0) =~= Seq::<SentPacketRecord>::empty());
    let acked = numbers_of(sw.acked);
    let gone = numbers_of(lost);
    assert forall|i: int, j: int| 0 <= i < acked.len() && 0 <= j < acked.len() && i != j implies acked[i]
        != acked[j] by {
        if i < j {
            assert(sw.acked[i].packet_number.0 != sw.acked[j].packet_number.0);
        } else {
            assert(sw.acked[j].packet_number.0 != sw.acked[i].packet_number.0);
        }
    }
    assert forall|i: int, j: int| 0 <= i < gone.len() && 0 <= j < gone.len() && i != j implies gone[i]
        != gone[j] by {
        if i < j {
            assert(lost[i].packet_number.0 < lost[j].packet_number.0);
        } else {
            assert(lost[j].packet_number.0 < lost[i].packet_number.0);
        }
    }
    assert forall|k: u64| #[trigger] acked.contains(k) <==> d.sent().contains_key(k) && pns.contains(k) by {
        if acked.contains(k) {
            let i = choose|i: int| 0 <= i < acked.len() && acked[i] == k;
            assert(sw.acked[i].packet_number.0 == k);
        }
        if d.sent().contains_key(k) && pns.contains(k) {
            let i = choose|i: int| 0 <= i < sw.acked.len() && (#[trigger] sw.acked[i]).packet_number.0 == k;
            assert(acked[i] == k);
        }
    }
    assert forall|k: u64| #[trigger] gone.contains(k) ==> sw.sent.contains_key(k) && declared_lost(
        sw.sent[k],
        k,
        largest,
        now,
        th,
    ) by {
        if gone.contains(k) {
            let i = choose|i: int| 0 <= i < gone.len() && gone[i] == k;
            assert(lost[i].packet_number.0 == k);
        }
    }
    assert forall|k: u64| sw.sent.contains_key(k) && declared_lost(sw.sent[k], k, largest, now, th)
        implies #[trigger] gone.contains(k) by {
        let i = choose|i: int| 0 <= i < lost.len() && lost[i].packet_number.0 == k;
        assert(gone[i] == k);
    }
    assert forall|k: u64| #[trigger] d.sent().contains_key(k) <==> (acked.contains(k) || gone.contains(k)
        || rem.contains_key(k)) by {
        if d.sent().contains_key(k) && !acked.contains(k) && !rem.contains_key(k) {
            assert(sw.sent.contains_key(k));
        }
    }
    assert forall|i: int| 0 <= i < lost.len() implies {
        let r = #[trigger] lost[i];
        &&& r == d.sent()[r.packet_number.0]
        &&& r.in_flight
        &&& r.packet_number.0 <= largest
    } by {
        let pn = lost[i].packet_number.0;
        assert(sw.sent.contains_key(pn));
    }
}

/// The time threshold of loss detection is 9/8 of the larger of the smoothed
/// and the latest RTT. So a lost packet less than `PACKET_THRESHOLD` below the
/// largest acknowledged one was sent at least 9/8 of the latest RTT and of
/// the smoothed RTT ago (to the microsecond, rounded down); every in-flight
/// packet at or below the largest acknowledged one that was sent 9/8 of both
/// RTTs ago or earlier, or that lies `PACKET_THRESHOLD` or more below it, is
/// declared lost; and only in-flight packets at or below it are.
pub proof fn lemma_time_threshold(
    sent: Map<u64, SentPacketRecord>,
    lost: Seq<SentPacketRecord>,
    largest: u64,
    now: MonotonicTime,
    m: RttModel,
)
    requires
        lost_in_order(sent, lost, largest, now, loss_threshold_us(m)),
    ensures
        forall|i: int| 0 <= i < lost.len() ==> {
            let r = #[trigger] lost[i];
            let e = spec_elapsed(r.send_time, now);
            r.packet_number.0 + PACKET_THRESHOLD <= largest || (8 * e + 8 > 9 * m.latest && 8 * e + 8 > 9
                * m.smoothed)
        },
        forall|pn: u64| #[trigger] sent.contains_key(pn) && sent[pn].in_flight && pn <= largest && 8
            * spec_elapsed(sent[pn].send_time, now) >= 9 * m.latest && 8 * spec_elapsed(sent[pn].send_time, now)
            >= 9 * m.smoothed ==> exists|i: int| 0 <= i < lost.len() && lost[i].packet_number.0 == pn,
        forall|pn: u64| #[trigger] sent.contains_key(pn) && sent[pn].in_flight && pn + PACKET_THRESHOLD <= largest
            ==> exists|i: int| 0 <= i < lost.len() && lost[i].packet_number.0 == pn,
        forall|i: int| 0 <= i < lost.len() ==> (#[trigger] lost[i]).in_flight && lost[i].packet_number.0 <= largest,
{
    let b: int = if m.smoothed >= m.latest { m.smoothed as int } else { m.latest as int };
    let th = loss_threshold_us(m);
    assert(th == (b * 9) / 8);
    assert(8 * th <= b * 9 && b * 9 < 8 * th + 8) by (nonlinear_arith)
        requires
            th == (b * 9) / 8,
            b >= 0,
    ;
    assert forall|i: int| 0 <= i < lost.len() implies {
        let r = #[trigger] lost[i];
        let e = spec_elapsed(r.send_time, now);
        r.packet_number.0 + PACKET_THRESHOLD <= largest || (8 * e + 8 > 9 * m.latest && 8 * e + 8 > 9
            * m.smoothed)
    } by {
        let pn = lost[i].packet_number.0;
        assert(declared_lost(lost[i], pn, largest, now, th));
    }
    assert forall|pn: u64| #[trigger] sent.contains_key(pn) && sent[pn].in_flight && pn <= largest && 8
        * spec_elapsed(sent[pn].send_time, now) >= 9 * m.latest && 8 * spec_elapsed(sent[pn].send_time, now)
        >= 9 * m.smoothed implies exists|i: int| 0 <= i < lost.len() && lost[i].packet_number.0 == pn by {
        assert(declared_lost(sent[pn], pn, largest, now, th));
    }
    assert forall|pn: u64| #[trigger] sent.contains_key(pn) && sent[pn].in_flight && pn + PACKET_THRESHOLD
        <= largest implies exists|i: int| 0 <= i < lost.len() && lost[i].packet_number.0 == pn by {
        assert(declared_lost(sent[pn], pn, largest, now, th));
    }
    assert forall|i: int| 0 <= i < lost.len() implies (#[trigger] lost[i]).in_flight && lost[i].packet_number.0
        <= largest by {
        let pn = lost[i].packet_number.0;
        assert(declared_lost(lost[i], pn, largest, now, th));
    }
}

} // verus!
