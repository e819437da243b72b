//! Per-source rate limit on handshake hellos: at most `max` hellos from one
//! source address per window, with stale sources pruned on every call so a
//! flood of spoofed addresses cannot grow the table without bound.
use vstd::prelude::*;
use rustc_hash::FxBuildHasher;
use std::collections::HashMap;
use crate::types::{Duration, MonotonicTime, spec_elapsed};

verus! {

/// A source address as a key: whether it is IPv6, and its address bits.
pub type SourceKey = (bool, u128);

/// A source's hello count and the start of its window.
pub type HelloEntry = (u32, MonotonicTime);

/// The table behind the limiter.
type HelloTable = HashMap<SourceKey, HelloEntry, FxBuildHasher>;

/// The table with no sources.
pub open spec fn empty_table() -> Map<SourceKey, HelloEntry> {
    Map::empty()
}

/// Whether an entry stamped `t` still lies inside the window at `now`.
pub open spec fn in_window(t: MonotonicTime, now: MonotonicTime, window: Duration) -> bool {
    spec_elapsed(t, now) < window.micros
}

/// The table with every entry outside the window removed.
pub open spec fn pruned(
    m: Map<SourceKey, HelloEntry>,
    now: MonotonicTime,
    window: Duration,
) -> Map<SourceKey, HelloEntry> {
    m.restrict(m.dom().filter(|k: SourceKey| in_window(m[k].1, now, window)))
}

/// The entry of `key` after one more hello: a window that has run out (or a
/// new source) starts again at one, else the count goes up by one.
pub open spec fn next_entry(
    m: Map<SourceKey, HelloEntry>,
    key: SourceKey,
    now: MonotonicTime,
    window: Duration,
) -> HelloEntry {
    let p = pruned(m, now, window);
    if p.contains_key(key) && in_window(p[key].1, now, window) {
        ((p[key].0 + 1) as u32, p[key].1)
    } else {
        (1u32, now)
    }
}

/// One hello from a non-loopback source: the table afterwards, and whether
/// the hello is allowed.
pub open spec fn hello_step(
    m: Map<SourceKey, HelloEntry>,
    key: SourceKey,
    now: MonotonicTime,
    window: Duration,
    max: u32,
) -> (Map<SourceKey, HelloEntry>, bool) {
    let e = next_entry(m, key, now, window);
    (pruned(m, now, window).insert(key, e), e.0 <= max)
}

/// Within one window a source gets `max` hellos through and no more: once
/// its count has reached `max`, the next hello inside the window is refused.
pub proof fn lemma_hello_limit_holds(
    m: Map<SourceKey, HelloEntry>,
    key: SourceKey,
    now: MonotonicTime,
    window: Duration,
    max: u32,
)
    requires
        m.contains_key(key),
        in_window(m[key].1, now, window),
        m[key].0 >= max,
        m[key].0 < u32::MAX,
    ensures
        !hello_step(m, key, now, window, max).1,
{
}

/// After a hello only entries inside the window remain, besides the caller's.
pub proof fn lemma_stale_sources_are_pruned(
    m: Map<SourceKey, HelloEntry>,
    key: SourceKey,
    now: MonotonicTime,
    window: Duration,
    max: u32,
)
    ensures
        forall|k: SourceKey|
            #[trigger] hello_step(m, key, now, window, max).0.contains_key(k) && k != key ==> m.contains_key(k)
                && in_window(m[k].1, now, window),
{
}

/// `FxHashMap::default()`: an empty table.
#[verifier::external_body]
fn table_new() -> (m: HelloTable)
    ensures
        m@ == empty_table(),
{
    HashMap::default()
}

/// `HashMap::len`.
#[verifier::external_body]
fn table_len(m: &HelloTable) -> (n: usize)
    ensures
        n == m@.len(),
{
    m.len()
}

/// `HashMap::get`, copied out.
#[verifier::external_body]
fn table_get(m: &HelloTable, k: SourceKey) -> (r: Option<HelloEntry>)
    ensures
        match r {
            Some(v) => m@.contains_key(k) && v == m@[k],
            None => !m@.contains_key(k),
        },
{
    m.get(&k).copied()
}

/// `HashMap::insert`: files `v` under `k`, replacing any entry.
#[verifier::external_body]
fn table_insert(m: &mut HelloTable, k: SourceKey, v: HelloEntry)
    ensures
        final(m)@ == old(m)@.insert(k, v),
{
    m.insert(k, v);
}

/// `HashMap::remove`: takes out the entry under `k`, if any.
#[verifier::external_body]
fn table_remove(m: &mut HelloTable, k: SourceKey)
    ensures
        final(m)@ == old(m)@.remove(k),
{
    m.remove(&k);
}

/// `HashMap::keys`, copied out: every key once, in the walk order, which the
/// contract leaves open.
#[verifier::external_body]
fn table_keys(m: &HelloTable) -> (ks: Vec<SourceKey>)
    ensures
        ks@.no_duplicates(),
        forall|k: SourceKey| ks@.contains(k) <==> m@.contains_key(k),
{
    m.keys().copied().collect()
}

/// Per-source hello counters.
pub struct HelloRateLimiter {
    seen: HelloTable,
}

impl Default for HelloRateLimiter {
    fn default() -> (r: HelloRateLimiter)
        ensures
            r.table() == empty_table(),
    {
        HelloRateLimiter { seen: table_new() }
    }
}

impl HelloRateLimiter {
    /// Each source's hello count and the start of its window.
    pub closed spec fn table(&self) -> Map<SourceKey, HelloEntry> {
        self.seen@
    }

    /// The number of sources tracked.
    pub fn len(&self) -> (n: usize)
        ensures
            n == self.table().len(),
    {
        table_len(&self.seen)
    }

    /// Accounts one hello from `source` and says whether it is within `max`
    /// per `window`. A loopback source is always allowed and not counted.
    pub fn allow(&mut self, source: SourceKey, is_loopback: bool, now: MonotonicTime, window: Duration, max: u32) -> (ok: bool)
        requires
            !is_loopback && pruned(old(self).table(), now, window).contains_key(source) ==> old(self).table()[source].0
                < u32::MAX,
        ensures
            is_loopback ==> ok && final(self).table() == old(self).table(),
            !is_loopback ==> (final(self).table(), ok) == hello_step(old(self).table(), source, now, window, max),
    {
        if is_loopback {
            return true;
        }
        let ghost m0 = self.seen@;
        let keys = table_keys(&self.seen);
        let mut i: usize = 0;
        while i < keys.len()
            invariant
                keys@.no_duplicates(),
                forall|k: SourceKey| keys@.contains(k) <==> m0.contains_key(k),
                i <= keys@.len(),
                forall|k: SourceKey| #[trigger] self.seen@.contains_key(k) <==> m0.contains_key(k) && (!keys@.take(
                    i as int,
                ).contains(k) || in_window(m0[k].1, now, window)),
                forall|k: SourceKey| #[trigger] self.seen@.contains_key(k) ==> self.seen@[k] == m0[k],
            decreases keys.len() - i,
        {
            let k = keys[i];
            proof {
                assert(keys@.take(i + 1) =~= keys@.take(i as int).push(k));
                assert(!keys@.take(i as int).contains(k)) by {
                    if keys@.take(i as int).contains(k) {
                        let t0 = keys@.take(i as int);
                        let j = choose|j: int| 0 <= j < t0.len() && t0[j] == k;
                        assert(keys@[j] == keys@[i as int]);
                    }
                }
                assert(keys@.contains(k));
            }
            let ghost before = self.seen@;
            match table_get(&self.seen, k) {
                Some(entry) => {
                    if now.duration_since(entry.1).micros >= window.micros {
                        table_remove(&mut self.seen, k);
                    }
                },
                None => {},
            }
            proof {
                assert(before.contains_key(k));
                assert forall|x: SourceKey| #[trigger] self.seen@.contains_key(x) <==> m0.contains_key(x) && (
                !keys@.take(i + 1).contains(x) || in_window(m0[x].1, now, window)) by {
                    if x != k {
                        if keys@.take(i + 1).contains(x) {
                            let t1 = keys@.take(i + 1);
                            let j = choose|j: int| 0 <= j < t1.len() && t1[j] == x;
                            assert(keys@.take(i as int)[j] == x);
                        }
                        if keys@.take(i as int).contains(x) {
                            let t0 = keys@.take(i as int);
                            let j = choose|j: int| 0 <= j < t0.len() && t0[j] == x;
                            assert(keys@.take(i + 1)[j] == x);
                        }
                    } else {
                        assert(keys@.take(i + 1)[i as int] == k);
                    }
                }
            }
            i = i + 1;
        }
        proof {
            assert(keys@.take(keys@.len() as int) =~= keys@);
            assert(self.seen@ =~= pruned(m0, now, window));
        }
        let next: HelloEntry = match table_get(&self.seen, source) {
            Some(entry) => {
                if now.duration_since(entry.1).micros >= window.micros {
                    (1, now)
                } else {
                    (entry.0 + 1, entry.1)
                }
            },
            None => (1, now),
        };
        table_insert(&mut self.seen, source, next);
        next.0 <= max
    }
}

} // verus!
