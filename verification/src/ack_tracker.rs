//! Receive-side acknowledgement tracking and ACK frame generation.
//!
//! Received packet numbers are kept as disjoint, non-adjacent intervals in
//! descending order. Intervals far below the newest packet are pruned so the
//! state stays bounded, and an ACK frame encodes the newest intervals as
//! ranges: the first range covers `largest_acked` down by `length`, every
//! later range first skips `gap` unreceived packets and then covers
//! `length + 1` packets.
use vstd::prelude::*;
use crate::types::{Duration, MonotonicTime, PacketNumber, spec_elapsed};

verus! {

/// Received intervals this many packets below the newest are pruned.
pub const ACK_RETENTION_WINDOW: u64 = 1024;
/// The most ranges one ACK frame carries.
pub const MAX_ACK_RANGES: usize = 32;

/// A contiguous interval of received packet numbers: [start, end].
#[derive(Copy, Clone, Eq, PartialEq, Debug, Structural)]
pub struct PacketInterval {
    pub start: u64,
    pub end: u64,
}

/// One ACK range: skip `gap` packets, then acknowledge `length + 1`.
#[derive(Copy, Clone, Eq, PartialEq, Debug, Default, Structural)]
pub struct AckRange {
    pub gap: u32,
    pub length: u32,
}

/// An ACK frame as generated by the tracker.
#[derive(Clone, Eq, PartialEq, Debug)]
pub struct AckFrame {
    pub largest_acked: PacketNumber,
    pub ack_delay_us: u32,
    /// The ranges in use (`range_count` of them).
    pub ranges: Vec<AckRange>,
    pub range_count: u8,
    pub ect0_count: u32,
    pub ect1_count: u32,
    pub ce_count: u32,
}

/// Intervals in strictly descending order, each well-formed, separated by at
/// least one missing packet, and never reaching `u64::MAX`.
pub open spec fn intervals_wf(s: Seq<PacketInterval>) -> bool {
    &&& forall|i: int| 0 <= i < s.len() ==> #[trigger] s[i].start <= s[i].end && s[i].end < u64::MAX
    &&& forall|i: int, j: int| 0 <= i < j < s.len() ==> #[trigger] s[j].end + 1 < #[trigger] s[i].start
}

/// Whether packet number `x` lies in one of the intervals.
pub open spec fn covers(s: Seq<PacketInterval>, x: u64) -> bool {
    exists|i: int| 0 <= i < s.len() && #[trigger] s[i].start <= x && x <= s[i].end
}

/// Merges the first two intervals when they touch.
pub open spec fn merge_front(s: Seq<PacketInterval>) -> Seq<PacketInterval> {
    if s.len() >= 2 && s[0].start <= s[1].end + 1 {
        seq![PacketInterval { start: s[1].start, end: s[0].end }] + s.skip(2)
    } else {
        s
    }
}

/// The intervals after recording packet `pn`.
pub open spec fn spec_insert(s: Seq<PacketInterval>, pn: u64) -> Seq<PacketInterval>
    decreases s.len(),
{
    if s.len() == 0 {
        seq![PacketInterval { start: pn, end: pn }]
    } else {
        let h = s[0];
        if h.start <= pn && pn <= h.end {
            s
        } else if pn + 1 == h.start {
            merge_front(s.update(0, PacketInterval { start: pn, end: h.end }))
        } else if pn == h.end + 1 {
            s.update(0, PacketInterval { start: h.start, end: pn })
        } else if pn > h.end {
            seq![PacketInterval { start: pn, end: pn }] + s
        } else {
            seq![h] + spec_insert(s.drop_first(), pn)
        }
    }
}

/// The intervals whose end lies above `floor` (those that are kept).
pub open spec fn spec_prune(s: Seq<PacketInterval>, floor: u64) -> Seq<PacketInterval>
    decreases s.len(),
{
    if s.len() == 0 {
        s
    } else if s[0].end > floor {
        seq![s[0]] + spec_prune(s.drop_first(), floor)
    } else {
        spec_prune(s.drop_first(), floor)
    }
}

proof fn lemma_wf_drop_first(s: Seq<PacketInterval>)
    requires
        intervals_wf(s),
        s.len() > 0,
    ensures
        intervals_wf(s.drop_first()),
{
    let t = s.drop_first();
    assert forall|i: int, j: int| 0 <= i < j < t.len() implies #[trigger] t[j].end + 1 < #[trigger] t[i].start by {
        assert(t[i] == s[i + 1] && t[j] == s[j + 1]);
    }
}

/// What a correct insertion of `pn` into `s` produced as `r`.
pub open spec fn insert_ok(s: Seq<PacketInterval>, pn: u64, r: Seq<PacketInterval>) -> bool {
    &&& intervals_wf(r)
    &&& forall|x: u64| #[trigger] covers(r, x) == (covers(s, x) || x == pn)
    &&& r.len() <= s.len() + 1
    &&& r.len() >= 1
    &&& r[0].end == if s.len() > 0 && s[0].end >= pn { s[0].end } else { pn }
}

proof fn lemma_insert_inside(s: Seq<PacketInterval>, pn: u64)
    requires
        intervals_wf(s),
        pn < u64::MAX,
        s.len() > 0,
        s[0].start <= pn && pn <= s[0].end,
    ensures
        insert_ok(s, pn, spec_insert(s, pn)),
{
    let r = spec_insert(s, pn);
    let h = s[0];
            assert forall|x: u64| #[trigger] covers(r, x) == (covers(s, x) || x == pn) by {
                if x == pn {
                    assert(s[0].start <= x && x <= s[0].end);
                }
            }
}

proof fn lemma_insert_extend_down(s: Seq<PacketInterval>, pn: u64)
    requires
        intervals_wf(s),
        pn < u64::MAX,
        s.len() > 0,
        !(s[0].start <= pn && pn <= s[0].end),
        pn + 1 == s[0].start,
    ensures
        insert_ok(s, pn, spec_insert(s, pn)),
{
    let r = spec_insert(s, pn);
    let h = s[0];
            let u = s.update(0, PacketInterval { start: pn, end: h.end });
            if u.len() >= 2 && u[0].start <= u[1].end + 1 {
                // u[1].end + 1 < h.start = pn + 1, so u[1].end + 1 == pn: merge.
                let m = merge_front(u);
                assert(m.len() == s.len() - 1);
                assert(intervals_wf(m)) by {
                    assert forall|i: int| 0 <= i < m.len() implies #[trigger] m[i].start <= m[i].end && m[i].end < u64::MAX by {
                        if i > 0 {
                            assert(m[i] == s[i + 1]);
                        }
                    }
                    assert forall|i: int, j: int| 0 <= i < j < m.len() implies #[trigger] m[j].end + 1 < #[trigger] m[i].start by {
                        assert(m[j] == s[j + 1]);
                        if i == 0 {
                            assert(s[j + 1].end + 1 < s[1].start);
                        } else {
                            assert(m[i] == s[i + 1]);
                        }
                    }
                }
                assert forall|x: u64| #[trigger] covers(m, x) == (covers(s, x) || x == pn) by {
                    if covers(m, x) {
                        let i = choose|i: int| 0 <= i < m.len() && #[trigger] m[i].start <= x && x <= m[i].end;
                        if i == 0 {
                            if x <= s[1].end {
                                assert(s[1].start <= x && x <= s[1].end);
                            } else if x >= s[0].start {
                                assert(s[0].start <= x && x <= s[0].end);
                            }
                        } else {
                            assert(m[i] == s[i + 1]);
                            assert(s[i + 1].start <= x && x <= s[i + 1].end);
                        }
                    }
                    if covers(s, x) {
                        let i = choose|i: int| 0 <= i < s.len() && #[trigger] s[i].start <= x && x <= s[i].end;
                        if i <= 1 {
                            assert(m[0].start <= x && x <= m[0].end);
                        } else {
                            assert(m[i - 1] == s[i]);
                            assert(m[i - 1].start <= x && x <= m[i - 1].end);
                        }
                    }
                    if x == pn {
                        assert(m[0].start <= x && x <= m[0].end);
                    }
                }
            } else {
                assert(merge_front(u) == u);
                assert(intervals_wf(u)) by {
                    assert forall|i: int, j: int| 0 <= i < j < u.len() implies #[trigger] u[j].end + 1 < #[trigger] u[i].start by {
                        if i == 0 {
                            if j == 1 {
                            } else {
                                assert(s[j].end + 1 < s[1].start);
                                assert(u[j] == s[j]);
                            }
                        } else {
                            assert(u[i] == s[i] && u[j] == s[j]);
                        }
                    }
                }
                assert forall|x: u64| #[trigger] covers(u, x) == (covers(s, x) || x == pn) by {
                    if covers(u, x) {
                        let i = choose|i: int| 0 <= i < u.len() && #[trigger] u[i].start <= x && x <= u[i].end;
                        if i == 0 {
                            if x >= s[0].start {
                                assert(s[0].start <= x && x <= s[0].end);
                            }
                        } else {
                            assert(u[i] == s[i]);
                        }
                    }
                    if covers(s, x) {
                        let i = choose|i: int| 0 <= i < s.len() && #[trigger] s[i].start <= x && x <= s[i].end;
                        if i == 0 {
                            assert(u[0].start <= x && x <= u[0].end);
                        } else {
                            assert(u[i] == s[i]);
                            assert(u[i].start <= x && x <= u[i].end);
                        }
                    }
                    if x == pn {
                        assert(u[0].start <= x && x <= u[0].end);
                    }
                }
            }
}

proof fn lemma_insert_extend_up(s: Seq<PacketInterval>, pn: u64)
    requires
        intervals_wf(s),
        pn < u64::MAX,
        s.len() > 0,
        !(s[0].start <= pn && pn <= s[0].end),
        pn + 1 != s[0].start,
        pn == s[0].end + 1,
    ensures
        insert_ok(s, pn, spec_insert(s, pn)),
{
    let r = spec_insert(s, pn);
    let h = s[0];
            assert(intervals_wf(r)) by {
                assert forall|i: int, j: int| 0 <= i < j < r.len() implies #[trigger] r[j].end + 1 < #[trigger] r[i].start by {
                    if i == 0 {
                        assert(s[j].end + 1 < s[0].start);
                        assert(r[j] == s[j]);
                    } else {
                        assert(r[i] == s[i] && r[j] == s[j]);
                    }
                }
            }
            assert forall|x: u64| #[trigger] covers(r, x) == (covers(s, x) || x == pn) by {
                if covers(r, x) {
                    let i = choose|i: int| 0 <= i < r.len() && #[trigger] r[i].start <= x && x <= r[i].end;
                    if i == 0 {
                        if x <= s[0].end {
                            assert(s[0].start <= x && x <= s[0].end);
                        }
                    } else {
                        assert(r[i] == s[i]);
                    }
                }
                if covers(s, x) {
                    let i = choose|i: int| 0 <= i < s.len() && #[trigger] s[i].start <= x && x <= s[i].end;
                    if i == 0 {
                        assert(r[0].start <= x && x <= r[0].end);
                    } else {
                        assert(r[i] == s[i]);
                        assert(r[i].start <= x && x <= r[i].end);
                    }
                }
                if x == pn {
                    assert(r[0].start <= x && x <= r[0].end);
                }
            }
}

proof fn lemma_insert_new_front(s: Seq<PacketInterval>, pn: u64)
    requires
        intervals_wf(s),
        pn < u64::MAX,
        s.len() > 0,
        !(s[0].start <= pn && pn <= s[0].end),
        pn + 1 != s[0].start,
        pn != s[0].end + 1,
        pn > s[0].end,
    ensures
        insert_ok(s, pn, spec_insert(s, pn)),
{
    let r = spec_insert(s, pn);
    let h = s[0];
            assert(intervals_wf(r)) by {
                assert forall|i: int, j: int| 0 <= i < j < r.len() implies #[trigger] r[j].end + 1 < #[trigger] r[i].start by {
                    assert(r[j] == s[j - 1]);
                    if i == 0 {
                        if j > 1 {
                            assert(s[j - 1].end + 1 < s[0].start);
                        }
                    } else {
                        assert(r[i] == s[i - 1]);
                    }
                }
                assert forall|i: int| 0 <= i < r.len() implies #[trigger] r[i].start <= r[i].end && r[i].end < u64::MAX by {
                    if i > 0 {
                        assert(r[i] == s[i - 1]);
                    }
                }
            }
            assert forall|x: u64| #[trigger] covers(r, x) == (covers(s, x) || x == pn) by {
                if covers(r, x) {
                    let i = choose|i: int| 0 <= i < r.len() && #[trigger] r[i].start <= x && x <= r[i].end;
                    if i > 0 {
                        assert(r[i] == s[i - 1]);
                    }
                }
                if covers(s, x) {
                    let i = choose|i: int| 0 <= i < s.len() && #[trigger] s[i].start <= x && x <= s[i].end;
                    assert(r[i + 1] == s[i]);
                    assert(r[i + 1].start <= x && x <= r[i + 1].end);
                }
                if x == pn {
                    assert(r[0].start <= x && x <= r[0].end);
                }
            }
}

proof fn lemma_insert_recurse(s: Seq<PacketInterval>, pn: u64)
    requires
        intervals_wf(s),
        pn < u64::MAX,
        s.len() > 0,
        !(s[0].start <= pn && pn <= s[0].end),
        pn + 1 != s[0].start,
        pn != s[0].end + 1,
        pn <= s[0].end,
    ensures
        insert_ok(s, pn, spec_insert(s, pn)),
    decreases s.len(), 0int,
{
    let r = spec_insert(s, pn);
    let h = s[0];
            let t = s.drop_first();
            lemma_wf_drop_first(s);
            lemma_insert_correct(t, pn);
            let rt = spec_insert(t, pn);
            assert(r == seq![h] + rt);
            assert(intervals_wf(r)) by {
                assert forall|i: int| 0 <= i < r.len() implies #[trigger] r[i].start <= r[i].end && r[i].end < u64::MAX by {
                    if i > 0 {
                        assert(r[i] == rt[i - 1]);
                    }
                }
                assert forall|i: int, j: int| 0 <= i < j < r.len() implies #[trigger] r[j].end + 1 < #[trigger] r[i].start by {
                    assert(r[j] == rt[j - 1]);
                    if i == 0 {
                        // Every interval of rt lies below h.start - 1.
                        if j == 1 {
                            if t.len() > 0 {
                                assert(t[0].end + 1 < h.start) by {
                                    assert(s[1].end + 1 < s[0].start);
                                }
                            }
                        } else {
                            assert(rt[j - 1].end + 1 < rt[0].start);
                            if t.len() > 0 {
                                assert(s[1].end + 1 < s[0].start);
                            }
                        }
                    } else {
                        assert(r[i] == rt[i - 1]);
                    }
                }
            }
            assert forall|x: u64| #[trigger] covers(r, x) == (covers(s, x) || x == pn) by {
                if covers(r, x) {
                    let i = choose|i: int| 0 <= i < r.len() && #[trigger] r[i].start <= x && x <= r[i].end;
                    if i == 0 {
                        assert(s[0].start <= x && x <= s[0].end);
                    } else {
                        assert(r[i] == rt[i - 1]);
                        assert(covers(rt, x));
                        if covers(t, x) {
                            let k = choose|k: int| 0 <= k < t.len() && #[trigger] t[k].start <= x && x <= t[k].end;
                            assert(s[k + 1] == t[k]);
                        }
                    }
                }
                if covers(s, x) {
                    let i = choose|i: int| 0 <= i < s.len() && #[trigger] s[i].start <= x && x <= s[i].end;
                    if i == 0 {
                        assert(r[0].start <= x && x <= r[0].end);
                    } else {
                        assert(t[i - 1] == s[i]);
                        assert(covers(t, x));
                        assert(covers(rt, x));
                        let k = choose|k: int| 0 <= k < rt.len() && #[trigger] rt[k].start <= x && x <= rt[k].end;
                        assert(r[k + 1] == rt[k]);
                    }
                }
                if x == pn {
                    assert(covers(rt, x));
                    let k = choose|k: int| 0 <= k < rt.len() && #[trigger] rt[k].start <= x && x <= rt[k].end;
                    assert(r[k + 1] == rt[k]);
                }
            }
}

/// Inserting keeps the intervals well-formed and adds exactly `pn`.
pub proof fn lemma_insert_correct(s: Seq<PacketInterval>, pn: u64)
    requires
        intervals_wf(s),
        pn < u64::MAX,
    ensures
        insert_ok(s, pn, spec_insert(s, pn)),
    decreases s.len(), 1int,
{
    let r = spec_insert(s, pn);
    if s.len() == 0 {
        assert forall|x: u64| #[trigger] covers(r, x) == (covers(s, x) || x == pn) by {
            if x == pn {
                assert(r[0].start <= x && x <= r[0].end);
            }
        }
    } else if s[0].start <= pn && pn <= s[0].end {
        lemma_insert_inside(s, pn);
    } else if pn + 1 == s[0].start {
        lemma_insert_extend_down(s, pn);
    } else if pn == s[0].end + 1 {
        lemma_insert_extend_up(s, pn);
    } else if pn > s[0].end {
        lemma_insert_new_front(s, pn);
    } else {
        lemma_insert_recurse(s, pn);
    }
}

proof fn lemma_insert_step(s: Seq<PacketInterval>, pn: u64, i: int)
    requires
        0 <= i < s.len(),
        !(s[i].start <= pn && pn <= s[i].end),
        pn + 1 != s[i].start,
        pn != s[i].end + 1,
        pn <= s[i].end,
    ensures
        s.take(i) + spec_insert(s.skip(i), pn) == s.take(i + 1) + spec_insert(s.skip(i + 1), pn),
{
    let t = s.skip(i);
    assert(t[0] == s[i]);
    assert(t.drop_first() =~= s.skip(i + 1));
    assert(spec_insert(t, pn) == seq![s[i]] + spec_insert(s.skip(i + 1), pn));
    assert(s.take(i + 1) =~= s.take(i) + seq![s[i]]);
}

proof fn lemma_prune_prefix(s: Seq<PacketInterval>, floor: u64, k: int)
    requires
        0 <= k <= s.len(),
        forall|j: int| 0 <= j < k ==> #[trigger] s[j].end > floor,
        forall|j: int| k <= j < s.len() ==> #[trigger] s[j].end <= floor,
    ensures
        spec_prune(s, floor) == s.take(k),
    decreases s.len(),
{
    if s.len() > 0 {
        let t = s.drop_first();
        if k > 0 {
            assert forall|j: int| 0 <= j < k - 1 implies #[trigger] t[j].end > floor by {
                assert(t[j] == s[j + 1]);
            }
            assert forall|j: int| k - 1 <= j < t.len() implies #[trigger] t[j].end <= floor by {
                assert(t[j] == s[j + 1]);
            }
            lemma_prune_prefix(t, floor, k - 1);
            assert(seq![s[0]] + t.take(k - 1) =~= s.take(k));
        } else {
            assert forall|j: int| 0 <= j < t.len() implies #[trigger] t[j].end <= floor by {
                assert(t[j] == s[j + 1]);
            }
            lemma_prune_prefix(t, floor, 0);
            assert(t.take(0) =~= s.take(0));
        }
    } else {
        assert(s.take(k) =~= s);
    }
}

/// A prefix of well-formed intervals is well-formed.
proof fn lemma_wf_take(s: Seq<PacketInterval>, k: int)
    requires
        intervals_wf(s),
        0 <= k <= s.len(),
    ensures
        intervals_wf(s.take(k)),
{
    let t = s.take(k);
    assert forall|i: int, j: int| 0 <= i < j < t.len() implies #[trigger] t[j].end + 1 < #[trigger] t[i].start by {
        assert(t[i] == s[i] && t[j] == s[j]);
    }
}

/// The ranges of the ACK frame for intervals `s` (the newest 32 intervals).
pub open spec fn spec_ack_ranges(s: Seq<PacketInterval>) -> Seq<AckRange> {
    Seq::new(
        if s.len() <= MAX_ACK_RANGES { s.len() } else { MAX_ACK_RANGES as nat },
        |k: int|
            if k == 0 {
                AckRange { gap: 0, length: ((s[0].end - s[0].start) as u64) as u32 }
            } else {
                AckRange {
                    gap: ((if s[k - 1].start >= s[k].end + 1 {
                        s[k - 1].start - (s[k].end + 1)
                    } else {
                        0
                    }) as u64) as u32,
                    length: ((s[k].end - s[k].start) as u64) as u32,
                }
            },
    )
}

/// `a + 1` saturating at `u32::MAX`... for the 8-bit and 32-bit counters.
pub open spec fn sat_inc32(a: u32) -> u32 {
    if a == u32::MAX { a } else { (a + 1) as u32 }
}

/// Tracks received incoming packet numbers and formats ACK frames.
#[derive(Clone, Debug)]
pub struct AckTracker {
    intervals: Vec<PacketInterval>,
    largest_received: Option<PacketNumber>,
    largest_received_time: MonotonicTime,
    unacked_packet_count: u8,
    last_ack_sent_time: Option<MonotonicTime>,
    ack_frequency: u8,
    max_ack_delay: Duration,
    ect0_count: u32,
    ect1_count: u32,
    ce_count: u32,
    has_gap: bool,
}

impl AckTracker {
    /// The received intervals, newest first.
    pub closed spec fn ivs(&self) -> Seq<PacketInterval> {
        self.intervals@
    }

    pub closed spec fn largest(&self) -> Option<u64> {
        match self.largest_received {
            Some(p) => Some(p.0),
            None => None,
        }
    }

    pub closed spec fn largest_time(&self) -> MonotonicTime {
        self.largest_received_time
    }

    pub closed spec fn unacked(&self) -> u8 {
        self.unacked_packet_count
    }

    pub closed spec fn last_ack_sent(&self) -> Option<MonotonicTime> {
        self.last_ack_sent_time
    }

    pub closed spec fn frequency(&self) -> u8 {
        self.ack_frequency
    }

    pub closed spec fn ack_delay_limit_us(&self) -> u64 {
        self.max_ack_delay.micros
    }

    pub closed spec fn ecn_counts(&self) -> (u32, u32, u32) {
        (self.ect0_count, self.ect1_count, self.ce_count)
    }

    pub closed spec fn gap_seen(&self) -> bool {
        self.has_gap
    }

    /// Intervals well-formed, and the newest packet below `u64::MAX`.
    pub closed spec fn wf(&self) -> bool {
        &&& intervals_wf(self.intervals@)
        &&& match self.largest_received {
            Some(p) => p.0 < u64::MAX,
            None => true,
        }
    }

    /// Whether packet number `x` is recorded as received.
    pub open spec fn received(&self, x: u64) -> bool {
        covers(self.ivs(), x)
    }

    pub fn new() -> (t: AckTracker)
        ensures
            t.wf(),
            t.ivs().len() == 0,
            t.largest() is None,
            t.largest_time().micros == 0,
            t.unacked() == 0,
            t.last_ack_sent() is None,
            t.frequency() == 2,
            t.ack_delay_limit_us() == 25_000,
            t.ecn_counts() == (0u32, 0u32, 0u32),
            !t.gap_seen(),
    {
        AckTracker {
            intervals: Vec::new(),
            largest_received: None,
            largest_received_time: MonotonicTime::from_micros(0),
            unacked_packet_count: 0,
            last_ack_sent_time: None,
            ack_frequency: 2,
            max_ack_delay: Duration::from_micros(25_000),
            ect0_count: 0,
            ect1_count: 0,
            ce_count: 0,
            has_gap: false,
        }
    }

    /// A tracker honoring the negotiated ACK policy (frequency floored at 1).
    pub fn with_policy(ack_frequency: u8, max_ack_delay: Duration) -> (t: AckTracker)
        ensures
            t.wf(),
            t.ivs().len() == 0,
            t.largest() is None,
            t.largest_time().micros == 0,
            t.unacked() == 0,
            t.last_ack_sent() is None,
            t.frequency() == if ack_frequency >= 1 { ack_frequency } else { 1 },
            t.ack_delay_limit_us() == max_ack_delay.micros,
            t.ecn_counts() == (0u32, 0u32, 0u32),
            !t.gap_seen(),
    {
        let mut t = AckTracker::new();
        t.ack_frequency = if ack_frequency >= 1 { ack_frequency } else { 1 };
        t.max_ack_delay = max_ack_delay;
        t
    }

    /// Applies a new ACK policy at runtime (frequency floored at 1).
    pub fn set_policy(&mut self, ack_frequency: u8, max_ack_delay: Duration)
        ensures
            final(self).frequency() == if ack_frequency >= 1 { ack_frequency } else { 1 },
            final(self).ack_delay_limit_us() == max_ack_delay.micros,
            final(self).ivs() == old(self).ivs(),
            final(self).largest() == old(self).largest(),
            final(self).largest_time() == old(self).largest_time(),
            final(self).unacked() == old(self).unacked(),
            final(self).last_ack_sent() == old(self).last_ack_sent(),
            final(self).ecn_counts() == old(self).ecn_counts(),
            final(self).gap_seen() == old(self).gap_seen(),
            final(self).wf() == old(self).wf(),
    {
        self.ack_frequency = if ack_frequency >= 1 { ack_frequency } else { 1 };
        self.max_ack_delay = max_ack_delay;
    }

    /// Number of disjoint received intervals currently retained.
    pub fn interval_count(&self) -> (n: usize)
        ensures
            n == self.ivs().len(),
    {
        self.intervals.len()
    }

    /// Records packet `packet_number` as received at `now`.
    pub fn on_packet_received(
        &mut self,
        packet_number: PacketNumber,
        is_ack_eliciting: bool,
        ecn_bits: u8,
        now: MonotonicTime,
    )
        requires
            old(self).wf(),
            packet_number.0 < u64::MAX,
        ensures
            final(self).wf(),
            ({
                let pn = packet_number.0;
                let newer = match old(self).largest() {
                    None => true,
                    Some(l) => pn > l,
                };
                let largest = if newer { pn } else { old(self).largest()->0 };
                let floor = if largest >= ACK_RETENTION_WINDOW { (largest - ACK_RETENTION_WINDOW) as u64 } else { 0 };
                &&& final(self).ivs() == spec_prune(spec_insert(old(self).ivs(), pn), floor)
                &&& final(self).largest() == Some(largest)
                &&& final(self).largest_time() == if newer { now } else { old(self).largest_time() }
                &&& final(self).gap_seen() == (old(self).gap_seen() || (newer
                    && old(self).largest() is Some && pn > old(self).largest()->0 + 1))
                &&& final(self).last_ack_sent() == match old(self).last_ack_sent() {
                    None => Some(now),
                    Some(t) => Some(t),
                }
                &&& final(self).unacked() == if is_ack_eliciting && old(self).unacked() < u8::MAX {
                    (old(self).unacked() + 1) as u8
                } else {
                    old(self).unacked()
                }
                &&& final(self).ecn_counts() == match ecn_bits {
                    1 => (old(self).ecn_counts().0, sat_inc32(old(self).ecn_counts().1), old(self).ecn_counts().2),
                    2 => (sat_inc32(old(self).ecn_counts().0), old(self).ecn_counts().1, old(self).ecn_counts().2),
                    3 => (old(self).ecn_counts().0, old(self).ecn_counts().1, sat_inc32(old(self).ecn_counts().2)),
                    _ => old(self).ecn_counts(),
                }
            }),
            final(self).frequency() == old(self).frequency(),
            final(self).ack_delay_limit_us() == old(self).ack_delay_limit_us(),
    {
        let pn = packet_number.0;
        if ecn_bits == 1 {
            self.ect1_count = self.ect1_count.saturating_add(1);
        } else if ecn_bits == 2 {
            self.ect0_count = self.ect0_count.saturating_add(1);
        } else if ecn_bits == 3 {
            self.ce_count = self.ce_count.saturating_add(1);
        }
        if self.last_ack_sent_time.is_none() {
            self.last_ack_sent_time = Some(now);
        }
        let newer = match self.largest_received {
            None => true,
            Some(l) => pn > l.0,
        };
        if newer {
            if let Some(prev) = self.largest_received {
                if pn > prev.0 + 1 {
                    self.has_gap = true;
                }
            }
            self.largest_received = Some(packet_number);
            self.largest_received_time = now;
        }
        self.insert_packet(pn);
        self.prune_old_intervals();
        if is_ack_eliciting {
            self.unacked_packet_count = self.unacked_packet_count.saturating_add(1);
        }
    }

    /// Drops intervals that fell out of the retention window below the newest packet.
    fn prune_old_intervals(&mut self)
        requires
            intervals_wf(old(self).intervals@),
            old(self).largest_received is Some,
        ensures
            ({
                let largest = match old(self).largest_received { Some(p) => p.0, None => 0 };
                let floor = if largest >= ACK_RETENTION_WINDOW { (largest - ACK_RETENTION_WINDOW) as u64 } else { 0 };
                final(self).intervals@ == spec_prune(old(self).intervals@, floor)
            }),
            intervals_wf(final(self).intervals@),
            final(self).largest_received == old(self).largest_received,
            final(self).largest_received_time == old(self).largest_received_time,
            final(self).unacked_packet_count == old(self).unacked_packet_count,
            final(self).last_ack_sent_time == old(self).last_ack_sent_time,
            final(self).ack_frequency == old(self).ack_frequency,
            final(self).max_ack_delay == old(self).max_ack_delay,
            final(self).ect0_count == old(self).ect0_count,
            final(self).ect1_count == old(self).ect1_count,
            final(self).ce_count == old(self).ce_count,
            final(self).has_gap == old(self).has_gap,
    {
        let largest = match self.largest_received {
            Some(p) => p.0,
            None => 0,
        };
        let floor = largest.saturating_sub(ACK_RETENTION_WINDOW);
        let mut k: usize = 0;
        let ghost s = self.intervals@;
        while k < self.intervals.len() && self.intervals[k].end > floor
            invariant
                self.intervals@ == s,
                intervals_wf(s),
                k <= s.len(),
                forall|j: int| 0 <= j < k ==> #[trigger] s[j].end > floor,
            decreases s.len() - k,
        {
            k = k + 1;
        }
        proof {
            assert forall|j: int| k <= j < s.len() implies #[trigger] s[j].end <= floor by {
                if j > k {
                    assert(s[j].end + 1 < s[k as int].start);
                }
            }
            lemma_prune_prefix(s, floor, k as int);
            lemma_wf_take(s, k as int);
        }
        self.intervals.truncate(k);
        assert(self.intervals@ =~= s.take(k as int));
    }

    /// Records `pn` in the interval list.
    fn insert_packet(&mut self, pn: u64)
        requires
            intervals_wf(old(self).intervals@),
            pn < u64::MAX,
        ensures
            final(self).intervals@ == spec_insert(old(self).intervals@, pn),
            intervals_wf(final(self).intervals@),
            final(self).largest_received == old(self).largest_received,
            final(self).largest_received_time == old(self).largest_received_time,
            final(self).unacked_packet_count == old(self).unacked_packet_count,
            final(self).last_ack_sent_time == old(self).last_ack_sent_time,
            final(self).ack_frequency == old(self).ack_frequency,
            final(self).max_ack_delay == old(self).max_ack_delay,
            final(self).ect0_count == old(self).ect0_count,
            final(self).ect1_count == old(self).ect1_count,
            final(self).ce_count == old(self).ce_count,
            final(self).has_gap == old(self).has_gap,
    {
        let ghost s = self.intervals@;
        proof {
            lemma_insert_correct(s, pn);
            assert(s.take(0) + s.skip(0) =~= s);
            assert(s.skip(0) =~= s);
        }
        let mut i: usize = 0;
        while i < self.intervals.len()
            invariant
                self.intervals@ == s,
                s == old(self).intervals@,
                intervals_wf(s),
                insert_ok(s, pn, spec_insert(s, pn)),
                pn < u64::MAX,
                self.largest_received == old(self).largest_received,
                self.largest_received_time == old(self).largest_received_time,
                self.unacked_packet_count == old(self).unacked_packet_count,
                self.last_ack_sent_time == old(self).last_ack_sent_time,
                self.ack_frequency == old(self).ack_frequency,
                self.max_ack_delay == old(self).max_ack_delay,
                self.ect0_count == old(self).ect0_count,
                self.ect1_count == old(self).ect1_count,
                self.ce_count == old(self).ce_count,
                self.has_gap == old(self).has_gap,
                i <= s.len(),
                spec_insert(s, pn) == s.take(i as int) + spec_insert(s.skip(i as int), pn),
            decreases s.len() - i,
        {
            let interval = self.intervals[i];
            let ghost t = s.skip(i as int);
            proof {
                assert(t[0] == interval);
                assert(t.len() > 0);
            }
            if pn >= interval.start && pn <= interval.end {
                assert(s.take(i as int) + t =~= s);
                return;
            }
            if pn + 1 == interval.start {
                self.intervals.set(i, PacketInterval { start: pn, end: interval.end });
                let ghost u = t.update(0, PacketInterval { start: pn, end: interval.end });
                assert(self.intervals@ =~= s.take(i as int) + u);
                if i + 1 < self.intervals.len() && pn <= self.intervals[i + 1].end + 1 {
                    let next_start = self.intervals[i + 1].start;
                    self.intervals.set(i, PacketInterval { start: next_start, end: interval.end });
                    self.intervals.remove(i + 1);
                    assert(u[1] == s[i + 1]);
                    assert(merge_front(u) == seq![PacketInterval { start: next_start, end: interval.end }] + u.skip(2));
                    assert(self.intervals@ =~= s.take(i as int) + merge_front(u));
                } else {
                    assert(merge_front(u) == u);
                }
                return;
            }
            if pn == interval.end + 1 {
                self.intervals.set(i, PacketInterval { start: interval.start, end: pn });
                assert(self.intervals@ =~= s.take(i as int) + t.update(0, PacketInterval { start: interval.start, end: pn }));
                return;
            }
            if pn > interval.end {
                self.intervals.insert(i, PacketInterval { start: pn, end: pn });
                assert(self.intervals@ =~= s.take(i as int) + (seq![PacketInterval { start: pn, end: pn }] + t));
                return;
            }
            proof {
                lemma_insert_step(s, pn, i as int);
            }
            i = i + 1;
        }
        self.intervals.push(PacketInterval { start: pn, end: pn });
        proof {
            assert(s.skip(i as int) =~= Seq::<PacketInterval>::empty());
            assert(s.take(i as int) =~= s);
        }
        assert(self.intervals@ =~= s.take(i as int) + seq![PacketInterval { start: pn, end: pn }]);
    }

    /// Whether an ACK should go out now: something is unacknowledged and a
    /// gap was seen, the frequency threshold is met, or `max_ack_delay` passed.
    pub fn should_send_ack(&self, now: MonotonicTime) -> (b: bool)
        ensures
            b == (self.unacked() > 0 && (self.gap_seen() || self.unacked() >= self.frequency()
                || (self.last_ack_sent() matches Some(t) && spec_elapsed(t, now)
                >= self.ack_delay_limit_us()))),
    {
        if self.unacked_packet_count == 0 {
            return false;
        }
        if self.has_gap {
            return true;
        }
        if self.unacked_packet_count >= self.ack_frequency {
            return true;
        }
        if let Some(last_ack) = self.last_ack_sent_time {
            if now.duration_since(last_ack).micros >= self.max_ack_delay.micros {
                return true;
            }
        }
        false
    }

    /// Builds the ACK frame for what was received and resets the ACK
    /// triggers; `None` (and no change) before any packet was received.
    pub fn generate_ack_frame(&mut self, now: MonotonicTime) -> (f: Option<AckFrame>)
        requires
            old(self).wf(),
        ensures
            final(self).wf(),
            final(self).ivs() == old(self).ivs(),
            final(self).largest() == old(self).largest(),
            final(self).largest_time() == old(self).largest_time(),
            final(self).frequency() == old(self).frequency(),
            final(self).ack_delay_limit_us() == old(self).ack_delay_limit_us(),
            final(self).ecn_counts() == old(self).ecn_counts(),
            old(self).largest() is None ==> f is None && final(self).unacked() == old(self).unacked()
                && final(self).gap_seen() == old(self).gap_seen() && final(self).last_ack_sent()
                == old(self).last_ack_sent(),
            old(self).largest() is Some ==> {
                &&& f is Some
                &&& final(self).unacked() == 0
                &&& !final(self).gap_seen()
                &&& final(self).last_ack_sent() == Some(now)
                &&& f->0.largest_acked == PacketNumber(old(self).largest()->0)
                &&& f->0.ack_delay_us == (spec_elapsed(old(self).largest_time(), now) as u64) as u32
                &&& f->0.ranges@ == spec_ack_ranges(old(self).ivs())
                &&& f->0.range_count as int == spec_ack_ranges(old(self).ivs()).len()
                &&& f->0.ect0_count == old(self).ecn_counts().0
                &&& f->0.ect1_count == old(self).ecn_counts().1
                &&& f->0.ce_count == old(self).ecn_counts().2
            },
    {
        let largest = match self.largest_received {
            Some(l) => l,
            None => {
                return None;
            },
        };
        #[verifier::truncate]
        let ack_delay_us = now.duration_since(self.largest_received_time).micros as u32;
        let ghost s = self.intervals@;
        let n: usize = if self.intervals.len() <= MAX_ACK_RANGES {
            self.intervals.len()
        } else {
            MAX_ACK_RANGES
        };
        let mut ranges: Vec<AckRange> = Vec::new();
        let mut k: usize = 0;
        while k < n
            invariant
                self.intervals@ == s,
                intervals_wf(s),
                n == spec_ack_ranges(s).len(),
                n <= s.len(),
                k <= n,
                ranges@ == spec_ack_ranges(s).take(k as int),
            decreases n - k,
        {
            let iv = self.intervals[k];
            #[verifier::truncate]
            let length = (iv.end - iv.start) as u32;
            let r = if k == 0 {
                AckRange { gap: 0, length }
            } else {
                let prev_start = self.intervals[k - 1].start;
                #[verifier::truncate]
                let gap = prev_start.saturating_sub(iv.end + 1) as u32;
                AckRange { gap, length }
            };
            ranges.push(r);
            k = k + 1;
            assert(ranges@ =~= spec_ack_ranges(s).take(k as int));
        }
        assert(spec_ack_ranges(s).take(n as int) =~= spec_ack_ranges(s));
        self.unacked_packet_count = 0;
        self.has_gap = false;
        self.last_ack_sent_time = Some(now);
        Some(AckFrame {
            largest_acked: largest,
            ack_delay_us,
            ranges,
            range_count: n as u8,
            ect0_count: self.ect0_count,
            ect1_count: self.ect1_count,
            ce_count: self.ce_count,
        })
    }
}

} // verus!
