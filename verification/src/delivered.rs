//! A bounded FIFO index of recently delivered reliable message ids: it
//! refuses a second delivery of a message that loss recovery sent twice.
use vstd::prelude::*;
use rustc_hash::FxBuildHasher;
use std::collections::HashSet;
use std::collections::VecDeque;

verus! {

/// The window after a new key arrives: the key goes to the back, and the
/// oldest keys leave while the window holds more than `capacity`.
pub open spec fn window_after_arrival(window: Seq<u64>, capacity: nat, key: u64) -> Seq<u64> {
    let pushed = window.push(key);
    if pushed.len() > capacity {
        pushed.skip(pushed.len() - capacity)
    } else {
        pushed
    }
}

/// One call of `insert_if_new`: the window afterwards, and whether the key
/// was new.
pub open spec fn delivered_step(window: Seq<u64>, capacity: nat, key: u64) -> (Seq<u64>, bool) {
    if window.contains(key) {
        (window, false)
    } else {
        (window_after_arrival(window, capacity, key), true)
    }
}

/// The index never holds more keys than its capacity, and holds each key once.
pub proof fn lemma_delivered_window_bounded(window: Seq<u64>, capacity: nat, key: u64)
    requires
        window.len() <= capacity,
        window.no_duplicates(),
    ensures
        delivered_step(window, capacity, key).0.len() <= capacity,
        delivered_step(window, capacity, key).0.no_duplicates(),
{
    if !window.contains(key) {
        let pushed = window.push(key);
        assert forall|i: int, j: int| 0 <= i < pushed.len() && 0 <= j < pushed.len() && i != j
            implies pushed[i] != pushed[j] by {
            if i == window.len() as int {
                assert(window[j] == pushed[j]);
            } else if j == window.len() as int {
                assert(window[i] == pushed[i]);
            }
        }
    }
}

/// A message that was just accepted is refused when it comes again, as long
/// as the index holds at least one key.
pub proof fn lemma_redelivery_refused(window: Seq<u64>, capacity: nat, key: u64)
    requires
        capacity >= 1,
    ensures
        !delivered_step(delivered_step(window, capacity, key).0, capacity, key).1,
{
    let after = delivered_step(window, capacity, key).0;
    if !window.contains(key) {
        assert(after[after.len() - 1] == key);
    }
    assert(after.contains(key));
}

/// `FxHashSet::default()`: an empty set.
#[verifier::external_body]
fn fx_set_new() -> (s: HashSet<u64, FxBuildHasher>)
    ensures
        s@ == Set::<u64>::empty(),
{
    HashSet::default()
}

/// `HashSet::contains`.
#[verifier::external_body]
fn fx_set_contains(s: &HashSet<u64, FxBuildHasher>, k: u64) -> (b: bool)
    ensures
        b == s@.contains(k),
{
    s.contains(&k)
}

/// `HashSet::insert`: adds `k`; true when it was not there.
#[verifier::external_body]
fn fx_set_insert(s: &mut HashSet<u64, FxBuildHasher>, k: u64) -> (fresh: bool)
    ensures
        final(s)@ == old(s)@.insert(k),
        fresh == !old(s)@.contains(k),
{
    s.insert(k)
}

/// `HashSet::remove`: takes `k` out; true when it was there.
#[verifier::external_body]
fn fx_set_remove(s: &mut HashSet<u64, FxBuildHasher>, k: u64) -> (was: bool)
    ensures
        final(s)@ == old(s)@.remove(k),
        was == old(s)@.contains(k),
{
    s.remove(&k)
}

/// Bounded FIFO index of delivered message ids.
#[derive(Debug)]
pub struct DeliveredIndex {
    seen: HashSet<u64, FxBuildHasher>,
    order: VecDeque<u64>,
    capacity: usize,
}

impl DeliveredIndex {
    /// The ids held, oldest first.
    pub closed spec fn window(&self) -> Seq<u64> {
        self.order@
    }

    /// The most ids the index holds.
    pub closed spec fn capacity_limit(&self) -> nat {
        self.capacity as nat
    }

    /// The set mirrors the queue, each id once, within the capacity.
    pub closed spec fn wf(&self) -> bool {
        &&& self.seen@ == self.order@.to_set()
        &&& self.order@.no_duplicates()
        &&& self.order@.len() <= self.capacity
    }

    /// An empty index holding at most `max(capacity, 16)` ids.
    pub fn new(capacity: usize) -> (d: DeliveredIndex)
        ensures
            d.wf(),
            d.window() == Seq::<u64>::empty(),
            d.capacity_limit() == if capacity < 16 { 16 } else { capacity as nat },
    {
        let cap: usize = if capacity < 16 { 16 } else { capacity };
        let order: VecDeque<u64> = VecDeque::new();
        let d = DeliveredIndex { seen: fx_set_new(), order, capacity: cap };
        assert(d.seen@ =~= d.order@.to_set());
        d
    }

    /// Records `key` unless the window holds it: true when it was new. The
    /// oldest ids leave once the window is over capacity.
    pub fn insert_if_new(&mut self, key: u64) -> (fresh: bool)
        requires
            old(self).wf(),
        ensures
            final(self).wf(),
            final(self).capacity_limit() == old(self).capacity_limit(),
            (final(self).window(), fresh) == delivered_step(
                old(self).window(),
                old(self).capacity_limit(),
                key,
            ),
    {
        if fx_set_contains(&self.seen, key) {
            return false;
        }
        let ghost w0 = self.order@;
        let ghost pushed = w0.push(key);
        fx_set_insert(&mut self.seen, key);
        self.order.push_back(key);
        proof {
            assert forall|x: u64| self.seen@.contains(x) <==> self.order@.contains(x) by {
                if x == key {
                    assert(self.order@[w0.len() as int] == key);
                } else if w0.contains(x) {
                    let k = choose|k: int| 0 <= k < w0.len() && w0[k] == x;
                    assert(self.order@[k] == x);
                }
                if self.order@.contains(x) && x != key {
                    let k = choose|k: int| 0 <= k < self.order@.len() && self.order@[k] == x;
                    assert(w0[k] == x);
                }
            }
            assert(self.seen@ =~= self.order@.to_set());
            lemma_delivered_window_bounded(w0, self.capacity as nat, key);
            assert forall|i: int, j: int|
                0 <= i < pushed.len() && 0 <= j < pushed.len() && i != j implies pushed[i]
                != pushed[j] by {
                if i == w0.len() as int {
                    assert(w0[j] == pushed[j]);
                } else if j == w0.len() as int {
                    assert(w0[i] == pushed[i]);
                }
            }
            assert(pushed.skip(0) =~= pushed);
        }
        let ghost cap0 = self.capacity;
        let ghost mut dropped: int = 0;
        while self.order.len() > self.capacity
            invariant
                0 <= dropped <= pushed.len(),
                self.order@ == pushed.skip(dropped),
                pushed.no_duplicates(),
                self.seen@ == self.order@.to_set(),
                dropped == 0 || self.order@.len() >= self.capacity,
                self.capacity == cap0,
            decreases self.order@.len(),
        {
            let ghost before = self.order@;
            let popped = self.order.pop_front();
            match popped {
                Some(old_key) => {
                    fx_set_remove(&mut self.seen, old_key);
                    proof {
                        assert(self.order@ =~= pushed.skip(dropped + 1));
                        assert forall|x: u64| self.seen@.contains(x) <==> self.order@.contains(x) by {
                            if self.order@.contains(x) {
                                let k = choose|k: int| 0 <= k < self.order@.len() && self.order@[k] == x;
                                assert(before[k + 1] == x);
                                assert(pushed[dropped + k + 1] == x);
                                assert(pushed[dropped] == old_key);
                            }
                            if before.contains(x) && x != old_key {
                                let k = choose|k: int| 0 <= k < before.len() && before[k] == x;
                                assert(k != 0);
                                assert(self.order@[k - 1] == x);
                            }
                        }
                        assert(self.seen@ =~= self.order@.to_set());
                        dropped = dropped + 1;
                    }
                },
                None => {},
            }
        }
        proof {
            assert(self.order@.no_duplicates()) by {
                assert forall|i: int, j: int|
                    0 <= i < self.order@.len() && 0 <= j < self.order@.len() && i != j
                    implies self.order@[i] != self.order@[j] by {
                    assert(self.order@[i] == pushed[dropped + i]);
                    assert(self.order@[j] == pushed[dropped + j]);
                }
            }
        }
        true
    }
}

impl Default for DeliveredIndex {
    /// An empty index of capacity zero: every id it records leaves at once.
    fn default() -> (d: DeliveredIndex)
        ensures
            d.wf(),
            d.window() == Seq::<u64>::empty(),
            d.capacity_limit() == 0,
    {
        let order: VecDeque<u64> = VecDeque::new();
        let d = DeliveredIndex { seen: fx_set_new(), order, capacity: 0 };
        assert(d.seen@ =~= d.order@.to_set());
        d
    }
}

} // verus!
