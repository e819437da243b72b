//! Decision bookkeeping for route selection: the policy class of a decision
//! and the bounded decision log with its switch / revert KPIs.
//!
//! The log owns no clock and performs no I/O; callers feed it one entry per
//! selection (holds included — a non-decision is a decision). Storage is a
//! ring bounded by its capacity: overflow sheds the OLDEST entry and counts
//! it in `dropped_records`, so nothing is lost silently.
use vstd::prelude::*;
use std::collections::VecDeque;
use crate::select::chars_equal;
use crate::text::chars_of;

verus! {

/// Which decision class produced a record.
#[derive(Clone, Copy, Debug, PartialEq, Eq, Structural)]
pub enum PolicyClass {
    /// Computed, recorded, actuated nothing.
    Shadow,
    /// Failover-class decision.
    Failover,
    /// Degradation-class decision.
    Degradation,
    /// Optimization-class decision.
    Optimization,
}

/// The stable code of each class.
pub open spec fn class_code(c: PolicyClass) -> Seq<char> {
    match c {
        PolicyClass::Shadow => "SHADOW"@,
        PolicyClass::Failover => "FAILOVER"@,
        PolicyClass::Degradation => "DEGRADATION"@,
        PolicyClass::Optimization => "OPTIMIZATION"@,
    }
}

/// The class whose code is `s`, if any.
pub open spec fn class_from_code(s: Seq<char>) -> Option<PolicyClass> {
    if s == "SHADOW"@ {
        Some(PolicyClass::Shadow)
    } else if s == "FAILOVER"@ {
        Some(PolicyClass::Failover)
    } else if s == "DEGRADATION"@ {
        Some(PolicyClass::Degradation)
    } else if s == "OPTIMIZATION"@ {
        Some(PolicyClass::Optimization)
    } else {
        None
    }
}

impl PolicyClass {
    pub fn code(&self) -> (c: &'static str)
        ensures
            c@ == class_code(*self),
    {
        match self {
            PolicyClass::Shadow => "SHADOW",
            PolicyClass::Failover => "FAILOVER",
            PolicyClass::Degradation => "DEGRADATION",
            PolicyClass::Optimization => "OPTIMIZATION",
        }
    }

    pub fn from_code(code: &str) -> (r: Option<PolicyClass>)
        ensures
            r == class_from_code(code@),
    {
        let s = chars_of(code);
        PolicyClass::from_code_chars(s.as_slice())
    }

    /// Inverse of [`PolicyClass::code`], on the code's characters.
    pub fn from_code_chars(s: &[char]) -> (r: Option<PolicyClass>)
        ensures
            r == class_from_code(s@),
    {
        if chars_equal(s, "SHADOW") {
            Some(PolicyClass::Shadow)
        } else if chars_equal(s, "FAILOVER") {
            Some(PolicyClass::Failover)
        } else if chars_equal(s, "DEGRADATION") {
            Some(PolicyClass::Degradation)
        } else if chars_equal(s, "OPTIMIZATION") {
            Some(PolicyClass::Optimization)
        } else {
            None
        }
    }
}

/// Every class code parses back to its class.
pub proof fn lemma_class_code_roundtrip(c: PolicyClass)
    ensures
        class_from_code(class_code(c)) == Some(c),
{
    reveal_strlit("SHADOW");
    reveal_strlit("FAILOVER");
    reveal_strlit("DEGRADATION");
    reveal_strlit("OPTIMIZATION");
    assert("SHADOW"@.len() == 6);
    assert("FAILOVER"@.len() == 8);
    assert("DEGRADATION"@.len() == 11);
    assert("OPTIMIZATION"@.len() == 12);
}

/// Bounded, deterministic decision log with switch / revert KPIs.
///
/// `R` is the stored entry (the caller's structured decision record).
pub struct DecisionTracker<R> {
    next_id: u64,
    previous_path: Option<u32>,
    /// The selected path from TWO selections ago — a switch straight back to
    /// it is a revert verdict (merely leaving a path never counts as one).
    before_previous_path: Option<u32>,
    ring: VecDeque<R>,
    capacity: usize,
    /// Entries shed by the capacity bound (surfaced, never silent).
    pub dropped_records: u64,
    /// Total decisions recorded (holds included).
    pub decisions: u64,
    /// Decisions that changed the selected path.
    pub switch_count: u64,
    /// Switches straight back to the path held before the one being left.
    pub revert_count: u64,
    /// µs between the last two switches, when the caller stamps windows.
    pub last_dwell_us: Option<u64>,
    last_switch_window_us: Option<u64>,
}

impl<R> DecisionTracker<R> {
    /// The tracker's accounting invariant.
    pub closed spec fn wf(&self) -> bool {
        &&& self.next_id == self.decisions
        &&& self.switch_count <= self.decisions
        &&& self.revert_count <= self.switch_count
        &&& self.dropped_records + self.ring@.len() == self.decisions
        &&& self.ring@.len() <= self.capacity
    }

    /// The stored entries, oldest first.
    pub closed spec fn entries(&self) -> Seq<R> {
        self.ring@
    }

    /// The ring capacity.
    pub closed spec fn cap(&self) -> nat {
        self.capacity as nat
    }

    /// The id the next recorded decision will carry.
    pub closed spec fn spec_next_id(&self) -> u64 {
        self.next_id
    }

    /// The path selected by the latest decision that selected one.
    pub closed spec fn spec_previous_path(&self) -> Option<u32> {
        self.previous_path
    }

    /// The path selected before that.
    pub closed spec fn spec_before_previous(&self) -> Option<u32> {
        self.before_previous_path
    }

    /// The window stamp of the latest switch.
    pub closed spec fn spec_last_switch_window(&self) -> Option<u64> {
        self.last_switch_window_us
    }

    /// Entries shed by the capacity bound.
    pub closed spec fn dropped(&self) -> u64 {
        self.dropped_records
    }

    /// Decisions recorded.
    pub closed spec fn decision_count(&self) -> u64 {
        self.decisions
    }

    /// Switches counted.
    pub closed spec fn switches(&self) -> u64 {
        self.switch_count
    }

    /// Reverts counted.
    pub closed spec fn reverts(&self) -> u64 {
        self.revert_count
    }

    /// The latest dwell reading.
    pub closed spec fn dwell(&self) -> Option<u64> {
        self.last_dwell_us
    }

    pub fn new(capacity: usize) -> (t: DecisionTracker<R>)
        ensures
            t.wf(),
            t.entries().len() == 0,
            t.cap() == capacity,
            t.spec_next_id() == 0,
            t.spec_previous_path() is None,
            t.spec_before_previous() is None,
            t.spec_last_switch_window() is None,
            t.dropped() == 0,
            t.decision_count() == 0,
            t.switches() == 0,
            t.reverts() == 0,
            t.dwell() is None,
    {
        DecisionTracker {
            next_id: 0,
            previous_path: None,
            before_previous_path: None,
            ring: VecDeque::new(),
            capacity,
            dropped_records: 0,
            decisions: 0,
            switch_count: 0,
            revert_count: 0,
            last_dwell_us: None,
            last_switch_window_us: None,
        }
    }

    /// The id the next recorded decision will carry.
    pub fn next_decision_id(&self) -> (id: u64)
        ensures
            id == self.spec_next_id(),
    {
        self.next_id
    }

    /// The path selected by the latest decision that selected one.
    pub fn previous_path(&self) -> (p: Option<u32>)
        ensures
            p == self.spec_previous_path(),
    {
        self.previous_path
    }

    /// Decisions recorded, holds included.
    pub fn decisions(&self) -> (n: u64)
        ensures
            n == self.decision_count(),
    {
        self.decisions
    }

    /// Entries shed by the capacity bound.
    pub fn dropped_records(&self) -> (n: u64)
        ensures
            n == self.dropped(),
    {
        self.dropped_records
    }

    /// Decisions that changed the selected path.
    pub fn switch_count(&self) -> (n: u64)
        ensures
            n == self.switches(),
    {
        self.switch_count
    }

    /// Switches straight back to the path held before.
    pub fn revert_count(&self) -> (n: u64)
        ensures
            n == self.reverts(),
    {
        self.revert_count
    }

    /// Microseconds between the last two switches, when windows are stamped.
    pub fn last_dwell_us(&self) -> (d: Option<u64>)
        ensures
            d == self.dwell(),
    {
        self.last_dwell_us
    }

    /// The stored entries, oldest first.
    pub fn records(&self) -> (r: &VecDeque<R>)
        ensures
            r@ == self.entries(),
    {
        &self.ring
    }

    /// Records one decision that selected `selected` (`None` for a hold),
    /// stamped `window_us`, storing `entry`. Returns the decision id.
    pub fn record(&mut self, selected: Option<u32>, window_us: Option<u64>, entry: R) -> (id: u64)
        requires
            old(self).wf(),
            old(self).decision_count() < u64::MAX,
        ensures
            final(self).wf(),
            id == old(self).spec_next_id(),
            final(self).spec_next_id() == old(self).spec_next_id() + 1,
            final(self).decision_count() == old(self).decision_count() + 1,
            final(self).cap() == old(self).cap(),
            // A switch: a selection that differs from the previous selection.
            ({
                let switched = old(self).spec_previous_path() is Some && selected is Some
                    && old(self).spec_previous_path() != selected;
                &&& final(self).switches() == old(self).switches() + if switched {
                    1int
                } else {
                    0int
                }
                &&& final(self).reverts() == old(self).reverts() + if switched
                    && old(self).spec_before_previous() == selected {
                    1int
                } else {
                    0int
                }
                &&& final(self).dwell() == if switched && window_us is Some
                    && old(self).spec_last_switch_window() is Some {
                    Some(
                        (if window_us->0 >= old(self).spec_last_switch_window()->0 {
                            window_us->0 - old(self).spec_last_switch_window()->0
                        } else {
                            0
                        }) as u64,
                    )
                } else {
                    old(self).dwell()
                }
                &&& final(self).spec_last_switch_window() == if switched {
                    window_us
                } else {
                    old(self).spec_last_switch_window()
                }
            }),
            selected is Some ==> final(self).spec_previous_path() == selected
                && final(self).spec_before_previous() == old(self).spec_previous_path(),
            selected is None ==> final(self).spec_previous_path() == old(self).spec_previous_path() && final(self).spec_before_previous() == old(self).spec_before_previous(),
            // The ring keeps the newest `capacity` entries.
            old(self).cap() == 0 ==> final(self).entries() == old(self).entries()
                && final(self).dropped() == old(self).dropped() + 1,
            old(self).cap() > 0 && old(self).entries().len() < old(self).cap() ==> final(self).entries() == old(self).entries().push(entry) && final(self).dropped() == old(self).dropped(),
            old(self).cap() > 0 && old(self).entries().len() >= old(self).cap() ==> final(self).entries() == old(self).entries().drop_first().push(entry) && final(self).dropped() == old(self).dropped() + 1,
    {
        let id = self.next_id;
        self.next_id = self.next_id + 1;
        if let (Some(prev), Some(sel)) = (self.previous_path, selected) {
            if prev != sel {
                self.switch_count = self.switch_count + 1;
                if let (Some(now), Some(last)) = (window_us, self.last_switch_window_us) {
                    self.last_dwell_us = Some(now.saturating_sub(last));
                }
                self.last_switch_window_us = window_us;
                if self.before_previous_path == Some(sel) {
                    self.revert_count = self.revert_count + 1;
                }
            }
        }
        if let Some(sel) = selected {
            self.before_previous_path = self.previous_path;
            self.previous_path = Some(sel);
        }
        self.decisions = self.decisions + 1;
        if self.capacity > 0 {
            if self.ring.len() >= self.capacity {
                self.ring.pop_front();
                self.dropped_records = self.dropped_records + 1;
            }
            self.ring.push_back(entry);
        } else {
            self.dropped_records = self.dropped_records + 1;
        }
        id
    }
}

/// Exact accounting: every recorded decision is either stored or counted as
/// dropped, the store never exceeds its capacity, reverts are switches, and
/// switches are decisions. The next id is the number of decisions recorded,
/// so ids run 0, 1, 2, ... in recording order.
pub proof fn lemma_tracker_accounting<R>(t: DecisionTracker<R>)
    requires
        t.wf(),
    ensures
        t.dropped() + t.entries().len() == t.decision_count(),
        t.entries().len() <= t.cap(),
        t.reverts() <= t.switches() <= t.decision_count(),
        t.spec_next_id() == t.decision_count(),
{
}

} // verus!
