//! Fragment reassembly for oversized reliable messages.
//!
//! Bounded, adversarially-safe reassembly below the delivery layer:
//! - at most `MAX_REASSEMBLY_MESSAGES` concurrently incomplete messages
//!   (the oldest incomplete one is evicted first);
//! - at most `MAX_REASSEMBLY_BYTES` buffered fragment bytes in total (new
//!   fragment bytes are refused past the cap);
//! - an incomplete message untouched for longer than `REASSEMBLY_TTL_US` is
//!   swept;
//! - the fragment index is a `u16`, so only `total_fragments == 0` is invalid.
use vstd::prelude::*;
use std::collections::HashMap;
use std::collections::VecDeque;
use rustc_hash::FxBuildHasher;
use crate::types::{FragmentId, MonotonicTime, TransportError};

verus! {

pub const MAX_REASSEMBLY_MESSAGES: usize = 64;
pub const MAX_REASSEMBLY_BYTES: usize = 4_194_304;
/// Incomplete messages untouched for longer than this (µs) are swept.
pub const REASSEMBLY_TTL_US: u64 = 5_000_000;
/// The fragment index is a `u16`: no message has more fragments than this.
pub const MAX_TOTAL_FRAGMENTS: u16 = 65535;

/// `ceil(len / budget)`, the budget floored at one byte.
pub open spec fn fragment_count(len: nat, budget: nat) -> int {
    let b: int = if budget >= 1 { budget as int } else { 1 };
    (len + b - 1) / b
}

/// How many fragments a payload of `len` bytes splits into at `budget`
/// bytes per fragment; `PayloadTooLarge` (with the largest representable
/// payload) for an empty payload or one that needs more than 65535.
pub fn message_fragment_count(len: usize, budget: usize) -> (r: Result<u16, TransportError>)
    requires
        fragment_count(len as nat, budget as nat) == 0 || fragment_count(len as nat, budget as nat) > 65535
            ==> (if budget >= 1 { budget as int } else { 1 }) * 65535 <= usize::MAX,
    ensures
        match r {
            Ok(n) => n == fragment_count(len as nat, budget as nat) && n >= 1,
            Err(e) => {
                &&& fragment_count(len as nat, budget as nat) == 0 || fragment_count(len as nat, budget as nat) > 65535
                &&& e == TransportError::PayloadTooLarge { max: ((if budget >= 1 { budget as int } else { 1 }) * 65535) as usize }
            },
        },
{
    let b: usize = if budget >= 1 { budget } else { 1 };
    let total: usize = if len == 0 { 0 } else { (len - 1) / b + 1 };
    proof {
        let bi = b as int;
        if len > 0 {
            vstd::arithmetic::div_mod::lemma_div_plus_one(len - 1, bi);
            assert(1 + (len - 1) / bi == (bi + (len - 1)) / bi);
            assert(total == fragment_count(len as nat, budget as nat));
        } else {
            assert((bi - 1) / bi == 0) by {
                vstd::arithmetic::div_mod::lemma_basic_div(bi - 1, bi);
            }
        }
    }
    if total == 0 || total > 65535 {
        return Err(TransportError::PayloadTooLarge { max: b * 65535 });
    }
    Ok(total as u16)
}

/// What one pushed fragment resulted in.
#[derive(Debug, PartialEq, Eq)]
pub enum PushOutcome {
    /// The final missing fragment arrived: the complete payload.
    Delivered(Vec<u8>),
    /// Stored (or a duplicate that changed nothing); not yet complete.
    Partial,
    /// Refused: orphan, poisoned metadata, out-of-range index, or a bound was
    /// hit. The caller counts the drop.
    Dropped,
}

/// A push outcome as plain values.
pub enum OutcomeView {
    Delivered(Seq<u8>),
    Partial,
    Dropped,
}

impl View for PushOutcome {
    type V = OutcomeView;

    open spec fn view(&self) -> OutcomeView {
        match self {
            PushOutcome::Delivered(v) => OutcomeView::Delivered(v@),
            PushOutcome::Partial => OutcomeView::Partial,
            PushOutcome::Dropped => OutcomeView::Dropped,
        }
    }
}

/// One incomplete message as plain values.
pub struct PendingView {
    pub total: u16,
    /// Fragment `i`'s bytes once received.
    pub parts: Seq<Option<Seq<u8>>>,
    /// When a fragment of it last arrived, µs.
    pub last_touch: u64,
}

/// The payload bytes the received fragments hold.
pub open spec fn parts_bytes(parts: Seq<Option<Seq<u8>>>) -> nat
    decreases parts.len(),
{
    if parts.len() == 0 {
        0
    } else {
        parts_bytes(parts.drop_last()) + match parts.last() {
            Some(p) => p.len(),
            None => 0,
        }
    }
}

/// How many fragments were received.
pub open spec fn parts_count(parts: Seq<Option<Seq<u8>>>) -> nat
    decreases parts.len(),
{
    if parts.len() == 0 {
        0
    } else {
        parts_count(parts.drop_last()) + if parts.last() is Some { 1nat } else { 0 }
    }
}

/// The received fragments' bytes, in fragment order.
pub open spec fn parts_concat(parts: Seq<Option<Seq<u8>>>) -> Seq<u8>
    decreases parts.len(),
{
    if parts.len() == 0 {
        Seq::empty()
    } else {
        parts_concat(parts.drop_last()) + match parts.last() {
            Some(p) => p,
            None => Seq::empty(),
        }
    }
}

/// The buffered bytes of the messages of `m` whose ids are in `s`.
pub open spec fn bytes_over(m: Map<u64, PendingView>, s: Set<u64>) -> nat
    decreases s.len(),
    when s.finite()
{
    if s.len() == 0 {
        0
    } else {
        let k = s.choose();
        parts_bytes(m[k].parts) + bytes_over(m, s.remove(k))
    }
}

/// The buffered bytes of all incomplete messages.
pub open spec fn pending_bytes(m: Map<u64, PendingView>) -> nat {
    bytes_over(m, m.dom())
}

/// Whether an incomplete message is past its time to live at `now` µs.
pub open spec fn is_stale(e: PendingView, now: u64) -> bool {
    now > e.last_touch && now - e.last_touch > REASSEMBLY_TTL_US
}

/// The reassembler's observable state: the incomplete messages and their
/// age order (oldest first).
pub struct ReasmState {
    pub pending: Map<u64, PendingView>,
    pub lru: Seq<u64>,
}

/// The state after the time-to-live sweep at `now`.
pub open spec fn swept(st: ReasmState, now: u64) -> ReasmState {
    let keep = |id: u64| st.pending.contains_key(id) && !is_stale(st.pending[id], now);
    ReasmState {
        pending: Map::new(keep, |id: u64| st.pending[id]),
        lru: st.lru.filter(keep),
    }
}

/// The state after making room for a new message: the oldest incomplete
/// message is evicted when the cap is reached.
pub open spec fn with_room(st: ReasmState) -> ReasmState {
    if st.pending.len() >= MAX_REASSEMBLY_MESSAGES && st.lru.len() > 0 {
        ReasmState { pending: st.pending.remove(st.lru[0]), lru: st.lru.drop_first() }
    } else {
        st
    }
}

/// `n` empty fragment slots.
pub open spec fn empty_parts(n: nat) -> Seq<Option<Seq<u8>>> {
    Seq::new(n, |i: int| None)
}

/// Every id but `id`.
pub open spec fn other_than(id: u64) -> spec_fn(u64) -> bool {
    |x: u64| x != id
}

/// Pushing fragment `idx` of `total` of message `id`, already pending in
/// the (swept) state `s`.
pub open spec fn push_pending_spec(s: ReasmState, id: u64, idx: u16, total: u16, payload: Seq<u8>, now: u64) -> (ReasmState, OutcomeView) {
    let e = s.pending[id];
    if e.total != total {
        (s, OutcomeView::Dropped)
    } else {
        let touched = PendingView { total: e.total, parts: e.parts, last_touch: now };
        let s1 = ReasmState { pending: s.pending.insert(id, touched), lru: s.lru };
        if e.parts[idx as int] is Some {
            (s1, OutcomeView::Partial)
        } else if parts_bytes(e.parts) + payload.len() > MAX_REASSEMBLY_BYTES
            || pending_bytes(s.pending) + payload.len() > MAX_REASSEMBLY_BYTES {
            (s1, OutcomeView::Dropped)
        } else {
            let np = e.parts.update(idx as int, Some(payload));
            if parts_count(np) == total {
                (
                    ReasmState { pending: s.pending.remove(id), lru: s.lru.filter(other_than(id)) },
                    OutcomeView::Delivered(parts_concat(np)),
                )
            } else {
                (
                    ReasmState { pending: s.pending.insert(id, PendingView { total, parts: np, last_touch: now }), lru: s.lru },
                    OutcomeView::Partial,
                )
            }
        }
    }
}

/// Pushing fragment `idx` of `total` of message `id`, not pending in the
/// (swept) state `s`.
pub open spec fn push_new_spec(s: ReasmState, id: u64, idx: u16, total: u16, payload: Seq<u8>, now: u64) -> (ReasmState, OutcomeView) {
    if idx != 0 || payload.len() > MAX_REASSEMBLY_BYTES {
        (s, OutcomeView::Dropped)
    } else {
        let s2 = with_room(s);
        if pending_bytes(s2.pending) + payload.len() > MAX_REASSEMBLY_BYTES {
            (s2, OutcomeView::Dropped)
        } else if total == 1 {
            (s2, OutcomeView::Delivered(payload))
        } else {
            (
                ReasmState {
                    pending: s2.pending.insert(
                        id,
                        PendingView { total, parts: seq![Some(payload)] + empty_parts((total - 1) as nat), last_touch: now },
                    ),
                    lru: s2.lru.push(id),
                },
                OutcomeView::Partial,
            )
        }
    }
}

/// What pushing fragment `idx` of `total` with bytes `payload` of message
/// `id` at `now` µs does: the new state and the outcome.
pub open spec fn push_spec(st: ReasmState, id: u64, idx: u16, total: u16, payload: Seq<u8>, now: u64) -> (ReasmState, OutcomeView) {
    if total == 0 || idx >= total {
        (st, OutcomeView::Dropped)
    } else {
        let s = swept(st, now);
        if s.pending.contains_key(id) {
            push_pending_spec(s, id, idx, total, payload, now)
        } else {
            push_new_spec(s, id, idx, total, payload, now)
        }
    }
}

proof fn lemma_bytes_remove(m: Map<u64, PendingView>, s: Set<u64>, k: u64)
    requires
        s.finite(),
        s.contains(k),
    ensures
        bytes_over(m, s) == parts_bytes(m[k].parts) + bytes_over(m, s.remove(k)),
    decreases s.len(),
{
    let c = s.choose();
    assert(s.len() > 0);
    if c != k {
        lemma_bytes_remove(m, s.remove(c), k);
        lemma_bytes_remove(m, s.remove(k), c);
        assert(s.remove(c).remove(k) =~= s.remove(k).remove(c));
    }
}

proof fn lemma_bytes_agree(m1: Map<u64, PendingView>, m2: Map<u64, PendingView>, s: Set<u64>)
    requires
        s.finite(),
        forall|k: u64| s.contains(k) ==> parts_bytes((#[trigger] m1[k]).parts) == parts_bytes(m2[k].parts),
    ensures
        bytes_over(m1, s) == bytes_over(m2, s),
    decreases s.len(),
{
    if s.len() > 0 {
        let c = s.choose();
        lemma_bytes_agree(m1, m2, s.remove(c));
    }
}

/// Dropping an incomplete message frees exactly its buffered bytes.
proof fn lemma_pending_remove(m: Map<u64, PendingView>, k: u64)
    requires
        m.dom().finite(),
        m.contains_key(k),
    ensures
        pending_bytes(m) == parts_bytes(m[k].parts) + pending_bytes(m.remove(k)),
{
    lemma_bytes_remove(m, m.dom(), k);
    assert(m.remove(k).dom() =~= m.dom().remove(k));
    lemma_bytes_agree(m, m.remove(k), m.dom().remove(k));
}

/// Filing a message under a new id adds exactly its buffered bytes.
proof fn lemma_pending_insert(m: Map<u64, PendingView>, k: u64, v: PendingView)
    requires
        m.dom().finite(),
        !m.contains_key(k),
    ensures
        pending_bytes(m.insert(k, v)) == parts_bytes(v.parts) + pending_bytes(m),
{
    let m2 = m.insert(k, v);
    lemma_pending_remove(m2, k);
    assert(m2.remove(k) =~= m);
}

/// Replacing a message changes the total by the difference of their bytes.
proof fn lemma_pending_replace(m: Map<u64, PendingView>, k: u64, v: PendingView)
    requires
        m.dom().finite(),
        m.contains_key(k),
    ensures
        pending_bytes(m.insert(k, v)) + parts_bytes(m[k].parts) == parts_bytes(v.parts) + pending_bytes(m),
{
    lemma_pending_remove(m, k);
    lemma_pending_insert(m.remove(k), k, v);
    assert(m.remove(k).insert(k, v) =~= m.insert(k, v));
}

/// Filling an empty slot adds one fragment and its bytes.
proof fn lemma_parts_fill(parts: Seq<Option<Seq<u8>>>, i: int, p: Seq<u8>)
    requires
        0 <= i < parts.len(),
        parts[i] is None,
    ensures
        parts_count(parts.update(i, Some(p))) == parts_count(parts) + 1,
        parts_bytes(parts.update(i, Some(p))) == parts_bytes(parts) + p.len(),
    decreases parts.len(),
{
    let u = parts.update(i, Some(p));
    if i == parts.len() - 1 {
        assert(u.drop_last() =~= parts.drop_last());
    } else {
        lemma_parts_fill(parts.drop_last(), i, p);
        assert(u.drop_last() =~= parts.drop_last().update(i, Some(p)));
    }
}

proof fn lemma_parts_count_le(parts: Seq<Option<Seq<u8>>>)
    ensures
        parts_count(parts) <= parts.len(),
    decreases parts.len(),
{
    if parts.len() > 0 {
        lemma_parts_count_le(parts.drop_last());
    }
}

/// A message opened by fragment 0 of `n + 1`.
proof fn lemma_parts_head(p: Seq<u8>, n: nat)
    ensures
        parts_count(seq![Some(p)] + empty_parts(n)) == 1,
        parts_bytes(seq![Some(p)] + empty_parts(n)) == p.len(),
        parts_concat(seq![Some(p)] + empty_parts(n)) == p,
    decreases n,
{
    let s = seq![Some(p)] + empty_parts(n);
    if n == 0 {
        let e = Seq::<Option<Seq<u8>>>::empty();
        assert(s.drop_last() =~= e);
        assert(s.last() == Some(p));
        assert(parts_count(e) == 0);
        assert(parts_bytes(e) == 0);
        assert(parts_concat(e) =~= Seq::<u8>::empty());
        assert(parts_concat(s) =~= Seq::<u8>::empty() + p);
    } else {
        lemma_parts_head(p, (n - 1) as nat);
        assert(s.drop_last() =~= seq![Some(p)] + empty_parts((n - 1) as nat));
        assert(s.last() is None);
        assert(parts_concat(s) =~= parts_concat(s.drop_last()) + Seq::<u8>::empty());
    }
}

proof fn lemma_filter_mem(s: Seq<u64>, p: spec_fn(u64) -> bool, x: u64)
    ensures
        s.filter(p).contains(x) <==> (s.contains(x) && p(x)),
{
    if s.filter(p).contains(x) {
        s.lemma_filter_contains_rev(p, x);
        let i = choose|i: int| 0 <= i < s.filter(p).len() && s.filter(p)[i] == x;
        s.lemma_filter_pred(p, i);
    }
    if s.contains(x) && p(x) {
        let i = choose|i: int| 0 <= i < s.len() && s[i] == x;
        s.lemma_filter_contains(p, i);
    }
}

proof fn lemma_filter_congruent(s: Seq<u64>, p: spec_fn(u64) -> bool, q: spec_fn(u64) -> bool)
    requires
        forall|i: int| 0 <= i < s.len() ==> p(#[trigger] s[i]) == q(s[i]),
    ensures
        s.filter(p) == s.filter(q),
    decreases s.len(),
{
    reveal(Seq::filter);
    if s.len() > 0 {
        let r = s.drop_last();
        assert forall|i: int| 0 <= i < r.len() implies p(#[trigger] r[i]) == q(r[i]) by {
            assert(r[i] == s[i]);
        }
        lemma_filter_congruent(r, p, q);
        assert(p(s[s.len() - 1]) == q(s[s.len() - 1]));
    }
}

proof fn lemma_filter_no_dup(s: Seq<u64>, p: spec_fn(u64) -> bool)
    requires
        s.no_duplicates(),
    ensures
        s.filter(p).no_duplicates(),
    decreases s.len(),
{
    reveal(Seq::filter);
    if s.len() > 0 {
        let r = s.drop_last();
        assert(r.no_duplicates()) by {
            assert forall|i: int, j: int| 0 <= i < j < r.len() implies r[i] != r[j] by {
                assert(r[i] == s[i] && r[j] == s[j]);
            }
        }
        lemma_filter_no_dup(r, p);
        if p(s.last()) {
            let f = r.filter(p);
            assert(!f.contains(s.last())) by {
                lemma_filter_mem(r, p, s.last());
                if r.contains(s.last()) {
                    let i = choose|i: int| 0 <= i < r.len() && r[i] == s.last();
                    assert(s[i] == s[s.len() - 1]);
                }
            }
            assert forall|i: int, j: int| 0 <= i < j < f.push(s.last()).len() implies f.push(s.last())[i] != f.push(s.last())[j] by {
                if j == f.len() {
                    assert(f.contains(f[i]));
                }
            }
        }
    }
}

/// A duplicate fragment is idempotent: it is reported `Partial` and leaves
/// every message's fragments as they were (only the touch time moves).
pub proof fn lemma_duplicate_fragment_idempotent(st: ReasmState, id: u64, idx: u16, total: u16, payload: Seq<u8>, now: u64)
    requires
        st.pending.contains_key(id),
        !is_stale(st.pending[id], now),
        st.pending[id].total == total,
        idx < total,
        st.pending[id].parts[idx as int] is Some,
    ensures
        push_spec(st, id, idx, total, payload, now).1 == OutcomeView::Partial,
        push_spec(st, id, idx, total, payload, now).0.pending.contains_key(id),
        push_spec(st, id, idx, total, payload, now).0.pending[id].parts == st.pending[id].parts,
{
}

/// A fragment that does not belong (index past the total, a zero total, a
/// changed total, or an orphan that is not fragment 0) is dropped.
pub proof fn lemma_malformed_fragment_dropped(st: ReasmState, id: u64, idx: u16, total: u16, payload: Seq<u8>, now: u64)
    requires
        total == 0 || idx >= total || {
            let s = swept(st, now);
            if s.pending.contains_key(id) { s.pending[id].total != total } else { idx != 0 }
        },
    ensures
        push_spec(st, id, idx, total, payload, now).1 == OutcomeView::Dropped,
{
}

/// The hasher behind `rustc_hash::FxHashMap`.
#[verifier::external_type_specification]
#[verifier::external_body]
pub struct ExFxBuildHasher(FxBuildHasher);

/// One incomplete message.
#[derive(Debug)]
struct Partial {
    total: u16,
    parts: Vec<Option<Vec<u8>>>,
    received: u16,
    bytes: usize,
    last_touch: MonotonicTime,
}

spec fn in_map(m: Map<u64, Partial>) -> spec_fn(u64) -> bool {
    |x: u64| m.contains_key(x)
}

spec fn slot_view(o: Option<Vec<u8>>) -> Option<Seq<u8>> {
    match o {
        Some(v) => Some(v@),
        None => None,
    }
}

spec fn partial_view(p: Partial) -> PendingView {
    PendingView {
        total: p.total,
        parts: p.parts@.map_values(|o: Option<Vec<u8>>| slot_view(o)),
        last_touch: p.last_touch.micros,
    }
}

/// Slots match the total; the counters match the slots; at least one and
/// not all fragments are in.
spec fn partial_wf(p: Partial) -> bool {
    &&& p.parts.len() == p.total
    &&& p.received == parts_count(partial_view(p).parts)
    &&& p.bytes == parts_bytes(partial_view(p).parts)
    &&& 1 <= p.received < p.total
}

/// `rustc_hash::FxHashMap::default()`: an empty map.
#[verifier::external_body]
fn fx_new() -> (m: HashMap<u64, Partial, FxBuildHasher>)
    ensures
        m@.dom().len() == 0,
        m@.dom().finite(),
{
    HashMap::default()
}

/// `HashMap::len`: the number of entries.
#[verifier::external_body]
fn fx_len(m: &HashMap<u64, Partial, FxBuildHasher>) -> (n: usize)
    ensures
        n == m@.len(),
{
    m.len()
}

/// `HashMap::contains_key`.
#[verifier::external_body]
fn fx_contains(m: &HashMap<u64, Partial, FxBuildHasher>, k: u64) -> (b: bool)
    ensures
        b == m@.contains_key(k),
{
    m.contains_key(&k)
}

/// `HashMap::get`: the entry under `k`, if any.
#[verifier::external_body]
fn fx_get(m: &HashMap<u64, Partial, FxBuildHasher>, k: u64) -> (r: Option<&Partial>)
    ensures
        match r {
            Some(v) => m@.contains_key(k) && *v == m@[k],
            None => !m@.contains_key(k),
        },
{
    m.get(&k)
}

/// `HashMap::insert`: files `v` under `k`, replacing any entry.
#[verifier::external_body]
fn fx_insert(m: &mut HashMap<u64, Partial, FxBuildHasher>, k: u64, v: Partial)
    ensures
        final(m)@ == old(m)@.insert(k, v),
{
    m.insert(k, v);
}

/// `HashMap::remove`: takes out the entry under `k`, if any.
#[verifier::external_body]
fn fx_remove(m: &mut HashMap<u64, Partial, FxBuildHasher>, k: u64) -> (r: Option<Partial>)
    ensures
        final(m)@ == old(m)@.remove(k),
        match r {
            Some(v) => old(m)@.contains_key(k) && v == old(m)@[k],
            None => !old(m)@.contains_key(k),
        },
{
    m.remove(&k)
}

/// `HashMap::keys`, copied out: every key once, in the map's walk order,
/// which the contract leaves open.
#[verifier::external_body]
fn fx_keys(m: &HashMap<u64, Partial, FxBuildHasher>) -> (ks: Vec<u64>)
    ensures
        ks@.no_duplicates(),
        forall|k: u64| ks@.contains(k) <==> m@.contains_key(k),
{
    m.keys().copied().collect()
}

/// A copy of `p`'s bytes.
fn copy_bytes(p: &[u8]) -> (v: Vec<u8>)
    ensures
        v@ == p@,
{
    let mut v: Vec<u8> = Vec::new();
    let mut i: usize = 0;
    while i < p.len()
        invariant
            i <= p.len(),
            v@ == p@.take(i as int),
        decreases p.len() - i,
    {
        v.push(p[i]);
        i = i + 1;
        assert(v@ =~= p@.take(i as int));
    }
    assert(p@.take(i as int) =~= p@);
    v
}

/// The bytes of the filled slots, in slot order.
fn concat_slots(parts: &Vec<Option<Vec<u8>>>) -> (v: Vec<u8>)
    ensures
        v@ == parts_concat(parts@.map_values(|o: Option<Vec<u8>>| slot_view(o))),
{
    let ghost views = parts@.map_values(|o: Option<Vec<u8>>| slot_view(o));
    let mut v: Vec<u8> = Vec::new();
    let mut i: usize = 0;
    while i < parts.len()
        invariant
            i <= parts.len(),
            views == parts@.map_values(|o: Option<Vec<u8>>| slot_view(o)),
            v@ == parts_concat(views.take(i as int)),
        decreases parts.len() - i,
    {
        let ghost before = v@;
        match &parts[i] {
            Some(p) => {
                let mut j: usize = 0;
                while j < p.len()
                    invariant
                        j <= p.len(),
                        v@ == before + p@.take(j as int),
                    decreases p.len() - j,
                {
                    v.push(p[j]);
                    j = j + 1;
                    assert(v@ =~= before + p@.take(j as int));
                }
                assert(p@.take(j as int) =~= p@);
            },
            None => {
                assert(v@ =~= before + Seq::<u8>::empty());
            },
        }
        assert(views.take(i + 1).drop_last() =~= views.take(i as int));
        assert(views.take(i + 1).last() == slot_view(parts@[i as int]));
        i = i + 1;
    }
    assert(views.take(i as int) =~= views);
    v
}

/// Bounded fragment reassembler. All state is private; the only inputs are
/// the wire-supplied identity fields, so a hostile peer cannot grow memory
/// past the two documented caps.
#[derive(Debug)]
pub struct MessageReassembler {
    entries: HashMap<u64, Partial, FxBuildHasher>,
    /// Insertion order of the incomplete message ids (oldest first).
    order: VecDeque<u64>,
    total_bytes: usize,
}

impl Default for MessageReassembler {
    /// An empty reassembler.
    fn default() -> (r: MessageReassembler)
        ensures
            r.wf(),
            r.state().pending == Map::<u64, PendingView>::empty(),
            r.state().lru == Seq::<u64>::empty(),
            r.buffered() == 0,
    {
        MessageReassembler::new()
    }
}

impl MessageReassembler {
    /// The incomplete messages.
    pub closed spec fn pending(&self) -> Map<u64, PendingView> {
        Map::new(|id: u64| self.entries@.contains_key(id), |id: u64| partial_view(self.entries@[id]))
    }

    /// The observable state.
    pub closed spec fn state(&self) -> ReasmState {
        ReasmState { pending: self.pending(), lru: self.order@ }
    }

    pub closed spec fn buffered(&self) -> nat {
        self.total_bytes as nat
    }

    /// Entries well-formed and at most the cap of them; the order lists
    /// each entry once; the byte counter is their buffered bytes, within the
    /// cap.
    pub closed spec fn wf(&self) -> bool {
        &&& self.entries@.dom().finite()
        &&& forall|id: u64| #[trigger] self.entries@.contains_key(id) ==> partial_wf(self.entries@[id])
        &&& self.order@.no_duplicates()
        &&& forall|id: u64| self.order@.contains(id) <==> #[trigger] self.entries@.contains_key(id)
        &&& self.entries@.len() <= MAX_REASSEMBLY_MESSAGES
        &&& self.total_bytes == pending_bytes(self.pending())
        &&& self.total_bytes <= MAX_REASSEMBLY_BYTES
    }

    pub fn new() -> (r: MessageReassembler)
        ensures
            r.wf(),
            r.state().pending == Map::<u64, PendingView>::empty(),
            r.state().lru == Seq::<u64>::empty(),
            r.buffered() == 0,
    {
        let r = MessageReassembler { entries: fx_new(), order: VecDeque::new(), total_bytes: 0 };
        proof {
            assert(r.pending() =~= Map::<u64, PendingView>::empty());
            assert(r.pending().dom() =~= Set::<u64>::empty());
        }
        r
    }

    /// Number of concurrently incomplete messages.
    pub fn len(&self) -> (n: usize)
        requires
            self.wf(),
        ensures
            n == self.pending().len(),
            n == self.state().pending.len(),
    {
        proof {
            assert(self.pending().dom() =~= self.entries@.dom());
        }
        fx_len(&self.entries)
    }

    pub fn is_empty(&self) -> (b: bool)
        requires
            self.wf(),
        ensures
            b == (self.pending().len() == 0),
            b == (self.state().pending.len() == 0),
    {
        self.len() == 0
    }

    /// Keeps in the order only the ids that still have an entry.
    fn resync_order(&mut self)
        ensures
            final(self).entries@ == old(self).entries@,
            final(self).total_bytes == old(self).total_bytes,
            final(self).order@ == old(self).order@.filter(in_map(old(self).entries@)),
    {
        let ghost pred = in_map(self.entries@);
        let mut kept: VecDeque<u64> = VecDeque::new();
        let mut i: usize = 0;
        while i < self.order.len()
            invariant
                i <= self.order@.len(),
                kept@ == self.order@.take(i as int).filter(pred),
                pred == in_map(self.entries@),
            decreases self.order@.len() - i,
        {
            let id = self.order[i];
            assert(self.order@.take(i + 1).drop_last() =~= self.order@.take(i as int));
            assert(self.order@.take(i + 1).last() == id);
            if fx_contains(&self.entries, id) {
                kept.push_back(id);
            }
            proof {
                reveal(Seq::filter);
            }
            i = i + 1;
        }
        assert(self.order@.take(i as int) =~= self.order@);
        self.order = kept;
    }

    /// Drops the incomplete messages past their time to live.
    fn sweep(&mut self, now: MonotonicTime)
        requires
            old(self).wf(),
        ensures
            final(self).wf(),
            final(self).state() == swept(old(self).state(), now.micros),
    {
        let ghost m0 = self.entries@;
        let ghost st0 = self.state();
        let ghost stale = |id: u64| m0.contains_key(id) && is_stale(partial_view(m0[id]), now.micros);
        let keys = fx_keys(&self.entries);
        let mut i: usize = 0;
        while i < keys.len()
            invariant
                i <= keys.len(),
                keys@.no_duplicates(),
                forall|k: u64| keys@.contains(k) <==> m0.contains_key(k),
                stale == (|id: u64| m0.contains_key(id) && is_stale(partial_view(m0[id]), now.micros)),
                self.entries@ == Map::new(
                    |id: u64| m0.contains_key(id) && !(stale(id) && keys@.take(i as int).contains(id)),
                    |id: u64| m0[id],
                ),
                self.entries@.dom().finite(),
                forall|id: u64| #[trigger] m0.contains_key(id) ==> partial_wf(m0[id]),
                self.total_bytes == pending_bytes(self.pending()),
                self.total_bytes <= MAX_REASSEMBLY_BYTES,
                self.order@ == st0.lru,
                m0.len() <= MAX_REASSEMBLY_MESSAGES,
                m0.dom().finite(),
            decreases keys.len() - i,
        {
            let id = keys[i];
            assert(keys@.contains(id));
            assert(!keys@.take(i as int).contains(id)) by {
                if keys@.take(i as int).contains(id) {
                    let j = choose|j: int| 0 <= j < i && keys@.take(i as int)[j] == id;
                    assert(keys@[j] == keys@[i as int]);
                }
            }
            assert(keys@.take(i + 1) =~= keys@.take(i as int).push(id));
            let is_old = match fx_get(&self.entries, id) {
                Some(e) => now.duration_since(e.last_touch).micros > REASSEMBLY_TTL_US,
                None => false,
            };
            assert(self.entries@.contains_key(id));
            assert(is_old == stale(id));
            let ghost prev = self.entries@;
            assert forall|x: u64| keys@.take(i + 1).contains(x) <==> (keys@.take(i as int).contains(x) || x == id) by {
                if keys@.take(i + 1).contains(x) {
                    let j = choose|j: int| 0 <= j < i + 1 && #[trigger] keys@.take(i + 1)[j] == x;
                    if j < i {
                        assert(keys@.take(i as int)[j] == x);
                    }
                }
                if keys@.take(i as int).contains(x) {
                    let j = choose|j: int| 0 <= j < i && keys@.take(i as int)[j] == x;
                    assert(keys@.take(i + 1)[j] == x);
                }
                if x == id {
                    assert(keys@.take(i + 1)[i as int] == x);
                }
            }
            if is_old {
                let ghost pend = self.pending();
                proof {
                    assert(pend.dom() =~= self.entries@.dom());
                    assert(pend.contains_key(id));
                    lemma_pending_remove(pend, id);
                }
                let removed = fx_remove(&mut self.entries, id);
                match removed {
                    Some(e) => {
                        assert(e == m0[id]);
                        assert(self.pending() =~= pend.remove(id));
                        self.total_bytes = self.total_bytes - e.bytes;
                    },
                    None => {},
                }
                assert(self.entries@ =~= Map::new(
                    |x: u64| m0.contains_key(x) && !(stale(x) && keys@.take(i + 1).contains(x)),
                    |x: u64| m0[x],
                ));
            } else {
                assert(self.entries@ =~= Map::new(
                    |x: u64| m0.contains_key(x) && !(stale(x) && keys@.take(i + 1).contains(x)),
                    |x: u64| m0[x],
                ));
            }
            i = i + 1;
        }
        assert(keys@.take(i as int) =~= keys@);
        self.resync_order();
        proof {
            let keep = |x: u64| st0.pending.contains_key(x) && !is_stale(st0.pending[x], now.micros);
            let in_new = in_map(self.entries@);
            assert(keep =~= in_new);
            assert(self.pending() =~= swept(st0, now.micros).pending);
            assert forall|x: u64| self.order@.contains(x) <==> #[trigger] self.entries@.contains_key(x) by {
                lemma_filter_mem(st0.lru, in_new, x);
            }
            lemma_filter_no_dup(st0.lru, in_new);
            vstd::set_lib::lemma_len_subset(self.entries@.dom(), m0.dom());
            assert forall|id: u64| #[trigger] self.entries@.contains_key(id) implies partial_wf(self.entries@[id]) by {
                assert(m0.contains_key(id));
            }
        }
    }

    /// Feeds one fragment: `fragment_id` of `total_fragments` of message
    /// `message_id`. `now` drives the time-to-live sweep.
    pub fn push(
        &mut self,
        message_id: u64,
        fragment_id: FragmentId,
        total_fragments: u16,
        payload: &[u8],
        now: MonotonicTime,
    ) -> (out: PushOutcome)
        requires
            old(self).wf(),
        ensures
            final(self).wf(),
            (final(self).state(), out@) == push_spec(
                old(self).state(),
                message_id,
                fragment_id.0,
                total_fragments,
                payload@,
                now.micros,
            ),
    {
        // Structural validation before any state changes.
        if total_fragments == 0 {
            return PushOutcome::Dropped;
        }
        let idx = fragment_id.as_u16();
        if idx >= total_fragments {
            return PushOutcome::Dropped;
        }
        self.sweep(now);
        proof {
            assert(self.state().pending.dom() =~= self.entries@.dom());
        }
        if fx_contains(&self.entries, message_id) {
            self.push_pending(message_id, idx, total_fragments, payload, now)
        } else {
            self.push_new(message_id, idx, total_fragments, payload, now)
        }
    }

    /// A fragment of a message already pending.
    fn push_pending(&mut self, message_id: u64, idx: u16, total_fragments: u16, payload: &[u8], now: MonotonicTime) -> (out: PushOutcome)
        requires
            old(self).wf(),
            0 <= idx < total_fragments,
            old(self).entries@.contains_key(message_id),
        ensures
            final(self).wf(),
            (final(self).state(), out@) == push_pending_spec(old(self).state(), message_id, idx, total_fragments, payload@, now.micros),
    {
        let ghost s = self.state();
        proof {
            assert(s.pending.dom() =~= self.entries@.dom());
        }
        let ghost m1 = self.entries@;
        let taken = fx_remove(&mut self.entries, message_id);
        let mut entry = match taken {
            Some(e) => e,
            None => {
                return PushOutcome::Dropped;
            },
        };
        assert(partial_wf(entry));
        assert(partial_view(entry) == s.pending[message_id]);
        // Metadata must be consistent across the fragments of one message.
        if entry.total != total_fragments {
            fx_insert(&mut self.entries, message_id, entry);
            proof {
                assert(self.entries@ =~= m1);
            }
            return PushOutcome::Dropped;
        }
        entry.last_touch = now;
        let ghost touched = partial_view(entry);
        proof {
            assert(touched.parts =~= s.pending[message_id].parts);
        }
        if entry.parts[idx as usize].is_some() {
            // Duplicate fragment: idempotent.
            fx_insert(&mut self.entries, message_id, entry);
            proof {
                assert(self.pending() =~= s.pending.insert(message_id, touched));
                lemma_pending_replace(s.pending, message_id, touched);
                assert(self.entries@.dom() =~= m1.dom());
            }
            return PushOutcome::Partial;
        }
        proof {
            assert(touched.parts[idx as int] is None);
            lemma_pending_remove(s.pending, message_id);
        }
        if payload.len() > MAX_REASSEMBLY_BYTES - entry.bytes || payload.len() > MAX_REASSEMBLY_BYTES
            - self.total_bytes {
            fx_insert(&mut self.entries, message_id, entry);
            proof {
                assert(self.pending() =~= s.pending.insert(message_id, touched));
                lemma_pending_replace(s.pending, message_id, touched);
                assert(self.entries@.dom() =~= m1.dom());
            }
            return PushOutcome::Dropped;
        }
        let ghost np = touched.parts.update(idx as int, Some(payload@));
        proof {
            lemma_parts_fill(touched.parts, idx as int, payload@);
            lemma_parts_count_le(np);
        }
        let bytes = copy_bytes(payload);
        entry.parts.set(idx as usize, Some(bytes));
        entry.bytes = entry.bytes + payload.len();
        entry.received = entry.received + 1;
        let ghost filled = partial_view(entry);
        proof {
            assert(filled.parts =~= np);
        }
        if entry.received == entry.total {
            // The last missing fragment: deliver and forget the message.
            let full = concat_slots(&entry.parts);
            proof {
                assert(self.pending() =~= s.pending.remove(message_id));
            }
            self.total_bytes = self.total_bytes - (entry.bytes - payload.len());
            self.resync_order();
            proof {
                let keep = in_map(m1.remove(message_id));
                let ne = other_than(message_id);
                assert forall|i: int| 0 <= i < s.lru.len() implies keep(s.lru[i]) == ne(s.lru[i]) by {
                    assert(s.lru.contains(s.lru[i]));
                }
                lemma_filter_congruent(s.lru, keep, ne);
                lemma_filter_no_dup(s.lru, ne);
                assert forall|x: u64| self.order@.contains(x) <==> #[trigger] self.entries@.contains_key(x) by {
                    lemma_filter_mem(s.lru, ne, x);
                }
                vstd::set_lib::lemma_len_subset(self.entries@.dom(), m1.dom());
            }
            return PushOutcome::Delivered(full);
        }
        self.total_bytes = self.total_bytes + payload.len();
        let ghost updated = PendingView { total: total_fragments, parts: np, last_touch: now.micros };
        fx_insert(&mut self.entries, message_id, entry);
        proof {
            assert(self.pending() =~= s.pending.insert(message_id, updated));
            lemma_pending_replace(s.pending, message_id, updated);
            assert(self.entries@.dom() =~= m1.dom());
        }
        PushOutcome::Partial
    }

    /// The first fragment of a message not pending.
    fn push_new(&mut self, message_id: u64, idx: u16, total_fragments: u16, payload: &[u8], now: MonotonicTime) -> (out: PushOutcome)
        requires
            old(self).wf(),
            0 <= idx < total_fragments,
            !old(self).entries@.contains_key(message_id),
        ensures
            final(self).wf(),
            (final(self).state(), out@) == push_new_spec(old(self).state(), message_id, idx, total_fragments, payload@, now.micros),
    {
        let ghost s = self.state();
        proof {
            assert(s.pending.dom() =~= self.entries@.dom());
        }
        // A new message: only fragment 0 may open one.
        if idx != 0 {
            return PushOutcome::Dropped;
        }
        if payload.len() > MAX_REASSEMBLY_BYTES {
            return PushOutcome::Dropped;
        }
        // Make room: evict the oldest incomplete message first.
        if fx_len(&self.entries) >= MAX_REASSEMBLY_MESSAGES {
            if self.order.len() > 0 {
                let ghost m1 = self.entries@;
                let ghost pend = self.pending();
                let oldest = self.order.pop_front();
                match oldest {
                    Some(o) => {
                        assert(s.lru.contains(o));
                        proof {
                            lemma_pending_remove(pend, o);
                        }
                        let evicted = fx_remove(&mut self.entries, o);
                        match evicted {
                            Some(ev) => {
                                self.total_bytes = self.total_bytes - ev.bytes;
                            },
                            None => {},
                        }
                        proof {
                            assert(self.pending() =~= pend.remove(o));
                            assert(self.order@ =~= s.lru.drop_first());
                            assert forall|i: int, j: int| 0 <= i < j < self.order@.len() implies self.order@[i] != self.order@[j] by {
                                assert(self.order@[i] == s.lru[i + 1] && self.order@[j] == s.lru[j + 1]);
                            }
                            assert forall|x: u64| self.order@.contains(x) <==> #[trigger] self.entries@.contains_key(x) by {
                                if self.order@.contains(x) {
                                    let j = choose|j: int| 0 <= j < self.order@.len() && self.order@[j] == x;
                                    assert(s.lru[j + 1] == x);
                                    assert(s.lru.contains(x));
                                    assert(s.lru[0] != s.lru[j + 1]);
                                }
                                if self.entries@.contains_key(x) {
                                    assert(s.lru.contains(x));
                                    let j = choose|j: int| 0 <= j < s.lru.len() && s.lru[j] == x;
                                    assert(j != 0);
                                    assert(self.order@[j - 1] == x);
                                }
                            }
                        }
                    },
                    None => {},
                }
            }
        }
        let ghost s2 = self.state();
        proof {
            assert(s2 == with_room(s));
        }
        if payload.len() > MAX_REASSEMBLY_BYTES - self.total_bytes {
            return PushOutcome::Dropped;
        }
        if total_fragments == 1 {
            // Degenerate "fragmented into one": deliver immediately.
            let full = copy_bytes(payload);
            return PushOutcome::Delivered(full);
        }
        let mut parts: Vec<Option<Vec<u8>>> = Vec::new();
        parts.push(Some(copy_bytes(payload)));
        let mut k: u16 = 1;
        while k < total_fragments
            invariant
                1 <= k <= total_fragments,
                parts@.map_values(|o: Option<Vec<u8>>| slot_view(o)) =~= seq![Some(payload@)] + empty_parts((k - 1) as nat),
                parts.len() == k,
            decreases total_fragments - k,
        {
            let ghost before = parts@;
            parts.push(None);
            k = k + 1;
            proof {
                assert(parts@ =~= before.push(None));
                assert(parts@.map_values(|o: Option<Vec<u8>>| slot_view(o)) =~= before.map_values(|o: Option<Vec<u8>>| slot_view(o)).push(None));
                assert(empty_parts((k - 1) as nat) =~= empty_parts((k - 2) as nat).push(None));
                assert(seq![Some(payload@)] + empty_parts((k - 1) as nat) =~= (seq![Some(payload@)] + empty_parts((k - 2) as nat)).push(None));
            }
        }
        let entry = Partial { total: total_fragments, parts, received: 1, bytes: payload.len(), last_touch: now };
        let ghost nv = PendingView {
            total: total_fragments,
            parts: seq![Some(payload@)] + empty_parts((total_fragments - 1) as nat),
            last_touch: now.micros,
        };
        proof {
            lemma_parts_head(payload@, (total_fragments - 1) as nat);
            assert(partial_view(entry) == nv);
            assert(self.pending().dom() =~= self.entries@.dom());
            lemma_pending_insert(self.pending(), message_id, nv);
            assert(!self.order@.contains(message_id));
        }
        let ghost pend2 = self.pending();
        let ghost ord2 = self.order@;
        fx_insert(&mut self.entries, message_id, entry);
        self.order.push_back(message_id);
        self.total_bytes = self.total_bytes + payload.len();
        proof {
            assert(self.pending() =~= pend2.insert(message_id, nv));
            assert forall|i: int, j: int| 0 <= i < j < self.order@.len() implies self.order@[i] != self.order@[j] by {
                if j == ord2.len() {
                    assert(ord2.contains(self.order@[i]));
                }
            }
            assert forall|x: u64| self.order@.contains(x) <==> #[trigger] self.entries@.contains_key(x) by {
                if self.order@.contains(x) && x != message_id {
                    let j = choose|j: int| 0 <= j < self.order@.len() && self.order@[j] == x;
                    assert(ord2[j] == x);
                }
                if ord2.contains(x) {
                    let j = choose|j: int| 0 <= j < ord2.len() && ord2[j] == x;
                    assert(self.order@[j] == x);
                }
                if x == message_id {
                    assert(self.order@[ord2.len() as int] == x);
                }
            }
        }
        PushOutcome::Partial
    }

    /// Buffered fragment bytes.
    pub fn buffered_bytes(&self) -> (n: usize)
        requires
            self.wf(),
        ensures
            n == self.buffered(),
            n == pending_bytes(self.pending()),
            n == pending_bytes(self.state().pending),
    {
        self.total_bytes
    }
}

/// The reassembler's memory is bounded whatever a peer sends: at most
/// `MAX_REASSEMBLY_MESSAGES` incomplete messages and `MAX_REASSEMBLY_BYTES`
/// buffered bytes, the counter being exactly the buffered fragments' size.
pub proof fn lemma_reassembler_bounded(r: MessageReassembler)
    requires
        r.wf(),
    ensures
        r.pending().len() <= MAX_REASSEMBLY_MESSAGES,
        r.buffered() <= MAX_REASSEMBLY_BYTES,
        r.buffered() == pending_bytes(r.pending()),
{
    assert(r.pending().dom() =~= r.entries@.dom());
}

} // verus!
