//! Adaptive route switching controller: hysteresis around a selection.
//!
//! The controller turns a selector's verdict into an actuation decision:
//! - **Dwell floor**: a newly selected path is held for `min_dwell` before
//!   another switch is even considered — no flapping on noise.
//! - **Revert window**: if the path we JUST LEFT wins again within
//!   `revert_window`, we switch back at once (the degradation was transient).
//! - **Shadow mode**: decisions are reported but nothing is actuated.
use vstd::prelude::*;
use crate::select::SelectionReason;
use crate::types::{Duration, MonotonicTime, spec_elapsed};

verus! {

/// Default minimum dwell on a selected path before another switch, µs.
pub const DEFAULT_MIN_DWELL_US: u64 = 200_000;
/// Default revert window, µs.
pub const DEFAULT_REVERT_WINDOW_US: u64 = 500_000;

/// Whether the caller should actually actuate the controller's decision.
#[derive(Clone, Copy, Debug, PartialEq, Eq, Structural)]
pub enum SwitchPolicy {
    /// Log decisions, never actuate (safe rollout).
    Shadow,
    /// Actuate: switch the active path to the controller's selection.
    Enforce,
}

/// What the controller decided on one evaluation.
#[derive(Clone, Copy, Debug, PartialEq, Eq, Structural)]
pub enum SwitchDecision {
    /// Stay on the current path (with the selector's reason for the record).
    Hold { current: u32, reason: SelectionReason },
    /// Switch to a new path (the selector's winner cleared every gate).
    Switch { from: u32, to: u32, reason: SelectionReason },
    /// Switch BACK to the path we just left — it recovered within the window.
    Revert { from: u32, to: u32 },
}

/// Adaptive switching controller — pure decision engine with hysteresis.
#[derive(Debug)]
pub struct SwitchController {
    policy: SwitchPolicy,
    min_dwell: Duration,
    revert_window: Duration,
    selected: Option<u32>,
    previous: Option<u32>,
    last_switch_time: MonotonicTime,
    decision_count: u64,
}

impl SwitchController {
    pub closed spec fn spec_policy(&self) -> SwitchPolicy {
        self.policy
    }

    pub closed spec fn min_dwell_us(&self) -> u64 {
        self.min_dwell.micros
    }

    pub closed spec fn revert_window_us(&self) -> u64 {
        self.revert_window.micros
    }

    /// The path currently selected.
    pub closed spec fn spec_selected(&self) -> Option<u32> {
        self.selected
    }

    /// The path held before the latest switch.
    pub closed spec fn spec_previous(&self) -> Option<u32> {
        self.previous
    }

    /// When the latest switch (or first adoption) happened.
    pub closed spec fn spec_last_switch(&self) -> MonotonicTime {
        self.last_switch_time
    }

    /// Evaluations so far.
    pub closed spec fn evaluations(&self) -> u64 {
        self.decision_count
    }

    pub fn new(policy: SwitchPolicy) -> (c: SwitchController)
        ensures
            c.spec_policy() == policy,
            c.min_dwell_us() == DEFAULT_MIN_DWELL_US,
            c.revert_window_us() == DEFAULT_REVERT_WINDOW_US,
            c.spec_selected() is None,
            c.spec_previous() is None,
            c.spec_last_switch().micros == 0,
            c.evaluations() == 0,
            c.state() == (SwitchState { selected: None, previous: None, last_switch: MonotonicTime { micros: 0 } }),
    {
        SwitchController {
            policy,
            min_dwell: Duration::from_micros(DEFAULT_MIN_DWELL_US),
            revert_window: Duration::from_micros(DEFAULT_REVERT_WINDOW_US),
            selected: None,
            previous: None,
            last_switch_time: MonotonicTime::from_micros(0),
            decision_count: 0,
        }
    }

    pub fn policy(&self) -> (p: SwitchPolicy)
        ensures
            p == self.spec_policy(),
    {
        self.policy
    }

    /// Evaluations so far.
    pub fn evaluation_count(&self) -> (n: u64)
        ensures
            n == self.evaluations(),
    {
        self.decision_count
    }

    pub fn selected(&self) -> (s: Option<u32>)
        ensures
            s == self.spec_selected(),
            s == self.state().selected,
    {
        self.selected
    }

    /// The hysteresis state the controller carries between evaluations.
    pub closed spec fn state(&self) -> SwitchState {
        SwitchState {
            selected: self.selected,
            previous: self.previous,
            last_switch: self.last_switch_time,
        }
    }

    /// The hysteresis state is the selected path, the previous one and the
    /// time of the latest switch.
    pub proof fn lemma_state_parts(&self)
        ensures
            self.state() == (SwitchState {
                selected: self.spec_selected(),
                previous: self.spec_previous(),
                last_switch: self.spec_last_switch(),
            }),
    {
    }

    /// Decides what one selection means under the hysteresis policy:
    /// `chosen` is the winning path (`None` when none was declared) and
    /// `reason` the selection's reason code.
    pub fn decide(&mut self, chosen: Option<u32>, reason: SelectionReason, now: MonotonicTime) -> (d: SwitchDecision)
        requires
            old(self).evaluations() < u64::MAX,
        ensures
            final(self).evaluations() == old(self).evaluations() + 1,
            final(self).spec_policy() == old(self).spec_policy(),
            final(self).min_dwell_us() == old(self).min_dwell_us(),
            final(self).revert_window_us() == old(self).revert_window_us(),
            (final(self).state(), d) == next_switch_state(
                old(self).spec_policy(),
                old(self).min_dwell_us(),
                old(self).revert_window_us(),
                old(self).state(),
                chosen,
                reason,
                now,
            ),
    {
        self.decision_count = self.decision_count + 1;
        let winner = match chosen {
            Some(w) => w,
            None => {
                return SwitchDecision::Hold {
                    current: match self.selected {
                        Some(c) => c,
                        None => 0,
                    },
                    reason,
                };
            },
        };
        let current = match self.selected {
            None => {
                self.selected = Some(winner);
                self.last_switch_time = now;
                return SwitchDecision::Hold { current: winner, reason };
            },
            Some(c) => c,
        };
        if winner == current {
            return SwitchDecision::Hold { current, reason };
        }
        let elapsed = now.duration_since(self.last_switch_time);
        if let Some(prev) = self.previous {
            if winner == prev && elapsed.micros < self.revert_window.micros {
                self.previous = Some(current);
                self.selected = Some(winner);
                self.last_switch_time = now;
                return SwitchDecision::Revert { from: current, to: winner };
            }
        }
        if elapsed.micros < self.min_dwell.micros {
            return SwitchDecision::Hold { current, reason: SelectionReason::TieBreakLowerId };
        }
        match self.policy {
            SwitchPolicy::Enforce => {
                self.previous = Some(current);
                self.selected = Some(winner);
                self.last_switch_time = now;
                SwitchDecision::Switch { from: current, to: winner, reason }
            },
            SwitchPolicy::Shadow => {
                SwitchDecision::Hold { current, reason: SelectionReason::ClearWinner }
            },
        }
    }
}

/// The hysteresis state: the selected path, the one held before the
/// latest switch, and when that switch happened.
#[derive(Clone, Copy, Debug, PartialEq, Eq, Structural)]
pub struct SwitchState {
    pub selected: Option<u32>,
    pub previous: Option<u32>,
    pub last_switch: MonotonicTime,
}

/// One evaluation of the controller: the next state and the decision.
pub open spec fn next_switch_state(
    policy: SwitchPolicy,
    min_dwell_us: u64,
    revert_window_us: u64,
    s: SwitchState,
    chosen: Option<u32>,
    reason: SelectionReason,
    now: MonotonicTime,
) -> (SwitchState, SwitchDecision) {
    let elapsed = spec_elapsed(s.last_switch, now);
    match chosen {
        // No winner: hold whatever is current (0 when nothing yet).
        None => (s, SwitchDecision::Hold {
            current: match s.selected {
                Some(c) => c,
                None => 0,
            },
            reason,
        }),
        Some(w) => match s.selected {
            // First evaluation: adopt without a switch event.
            None => (
                SwitchState { selected: Some(w), previous: s.previous, last_switch: now },
                SwitchDecision::Hold { current: w, reason },
            ),
            Some(cur) => if w == cur {
                (s, SwitchDecision::Hold { current: cur, reason })
            } else if s.previous == Some(w) && elapsed < revert_window_us {
                // The path just left won again in time: revert.
                (
                    SwitchState { selected: Some(w), previous: Some(cur), last_switch: now },
                    SwitchDecision::Revert { from: cur, to: w },
                )
            } else if elapsed < min_dwell_us {
                // Inside the dwell floor: cooldown hold.
                (s, SwitchDecision::Hold { current: cur, reason: SelectionReason::TieBreakLowerId })
            } else if policy == SwitchPolicy::Enforce {
                (
                    SwitchState { selected: Some(w), previous: Some(cur), last_switch: now },
                    SwitchDecision::Switch { from: cur, to: w, reason },
                )
            } else {
                // Shadow: the winner exists but nothing is actuated.
                (s, SwitchDecision::Hold { current: cur, reason: SelectionReason::ClearWinner })
            },
        },
    }
}

/// Shadow mode never actuates: once a path is adopted, a shadow controller
/// that has never switched keeps it, whatever the selector says.
pub proof fn lemma_shadow_never_switches(
    min_dwell_us: u64,
    revert_window_us: u64,
    s: SwitchState,
    chosen: Option<u32>,
    reason: SelectionReason,
    now: MonotonicTime,
)
    requires
        s.selected is Some,
        s.previous is None,
    ensures
        next_switch_state(SwitchPolicy::Shadow, min_dwell_us, revert_window_us, s, chosen, reason, now).0
            == s,
        !(next_switch_state(SwitchPolicy::Shadow, min_dwell_us, revert_window_us, s, chosen, reason, now).1 is Switch),
{
}

/// Inside the dwell floor no forward switch happens: a decision taken less
/// than `min_dwell` after the latest switch is never a `Switch`.
pub proof fn lemma_no_switch_inside_dwell(
    policy: SwitchPolicy,
    min_dwell_us: u64,
    revert_window_us: u64,
    s: SwitchState,
    chosen: Option<u32>,
    reason: SelectionReason,
    now: MonotonicTime,
)
    requires
        spec_elapsed(s.last_switch, now) < min_dwell_us,
    ensures
        !(next_switch_state(policy, min_dwell_us, revert_window_us, s, chosen, reason, now).1 is Switch),
{
}

/// A decision changes the selected path only by a `Switch` or a `Revert`
/// (or the first adoption), and then to the selector's winner.
pub proof fn lemma_selection_changes_only_to_winner(
    policy: SwitchPolicy,
    min_dwell_us: u64,
    revert_window_us: u64,
    s: SwitchState,
    chosen: Option<u32>,
    reason: SelectionReason,
    now: MonotonicTime,
)
    ensures
        ({
            let (t, d) = next_switch_state(policy, min_dwell_us, revert_window_us, s, chosen, reason, now);
            t.selected != s.selected ==> t.selected == chosen && chosen is Some
        }),
{
}

/// A run of evaluations from state `s`: the final state and the decisions,
/// one per input `(chosen, reason, now)`.
pub open spec fn switch_run(
    policy: SwitchPolicy,
    min_dwell_us: u64,
    revert_window_us: u64,
    s: SwitchState,
    inputs: Seq<(Option<u32>, SelectionReason, MonotonicTime)>,
) -> (SwitchState, Seq<SwitchDecision>)
    decreases inputs.len(),
{
    if inputs.len() == 0 {
        (s, Seq::empty())
    } else {
        let step = next_switch_state(policy, min_dwell_us, revert_window_us, s, inputs[0].0, inputs[0].1, inputs[0].2);
        let rest = switch_run(policy, min_dwell_us, revert_window_us, step.0, inputs.drop_first());
        (rest.0, seq![step.1] + rest.1)
    }
}

/// The first winner among the inputs, if any.
pub open spec fn first_winner(inputs: Seq<(Option<u32>, SelectionReason, MonotonicTime)>) -> Option<u32>
    decreases inputs.len(),
{
    if inputs.len() == 0 {
        None
    } else if inputs[0].0 is Some {
        inputs[0].0
    } else {
        first_winner(inputs.drop_first())
    }
}

/// Over any run of evaluations, a shadow controller that has not switched
/// (as a new one) never decides `Switch` or `Revert`; its selection is the
/// one it started with or, from a fresh start, the first winner it saw,
/// kept for good.
pub proof fn lemma_shadow_run_never_switches(
    min_dwell_us: u64,
    revert_window_us: u64,
    s: SwitchState,
    inputs: Seq<(Option<u32>, SelectionReason, MonotonicTime)>,
)
    requires
        s.previous is None,
    ensures
        ({
            let (u, ds) = switch_run(SwitchPolicy::Shadow, min_dwell_us, revert_window_us, s, inputs);
            &&& ds.len() == inputs.len()
            &&& forall|i: int| 0 <= i < ds.len() ==> !(#[trigger] ds[i] is Switch) && !(ds[i] is Revert)
            &&& u.previous is None
            &&& u.selected == if s.selected is Some { s.selected } else { first_winner(inputs) }
        }),
    decreases inputs.len(),
{
    if inputs.len() > 0 {
        let step = next_switch_state(
            SwitchPolicy::Shadow,
            min_dwell_us,
            revert_window_us,
            s,
            inputs[0].0,
            inputs[0].1,
            inputs[0].2,
        );
        lemma_shadow_run_never_switches(min_dwell_us, revert_window_us, step.0, inputs.drop_first());
        let rest = switch_run(SwitchPolicy::Shadow, min_dwell_us, revert_window_us, step.0, inputs.drop_first());
        let ds = seq![step.1] + rest.1;
        assert forall|i: int| 0 <= i < ds.len() implies !(#[trigger] ds[i] is Switch) && !(ds[i] is Revert) by {
            if i > 0 {
                assert(ds[i] == rest.1[i - 1]);
            }
        }
    }
}

/// An actuation restarts the dwell floor: after a `Switch` or a `Revert`
/// decided at `now1`, the selection is the winner, the path left becomes the
/// previous one, and no `Switch` is decided at any `now2` less than
/// `min_dwell` after `now1`.
pub proof fn lemma_actuation_restarts_dwell(
    policy: SwitchPolicy,
    min_dwell_us: u64,
    revert_window_us: u64,
    s: SwitchState,
    chosen1: Option<u32>,
    reason1: SelectionReason,
    now1: MonotonicTime,
    chosen2: Option<u32>,
    reason2: SelectionReason,
    now2: MonotonicTime,
)
    requires
        next_switch_state(policy, min_dwell_us, revert_window_us, s, chosen1, reason1, now1).1 is Switch
            || next_switch_state(policy, min_dwell_us, revert_window_us, s, chosen1, reason1, now1).1 is Revert,
        spec_elapsed(now1, now2) < min_dwell_us,
    ensures
        ({
            let (t, d) = next_switch_state(policy, min_dwell_us, revert_window_us, s, chosen1, reason1, now1);
            &&& t.selected == chosen1
            &&& t.previous == s.selected
            &&& !(next_switch_state(policy, min_dwell_us, revert_window_us, t, chosen2, reason2, now2).1 is Switch)
        }),
{
}

/// When a winner `w` differs from the current path `cur`: it is a `Revert`
/// to `w` exactly when `w` is the path left at the latest switch and less
/// than `revert_window` has passed since; otherwise, under `Enforce`, it is a
/// `Switch` from `cur` to `w` exactly when at least `min_dwell` has passed;
/// under `Shadow` it is never either.
pub proof fn lemma_switch_or_revert_exactly_when(
    policy: SwitchPolicy,
    min_dwell_us: u64,
    revert_window_us: u64,
    s: SwitchState,
    w: u32,
    reason: SelectionReason,
    now: MonotonicTime,
)
    requires
        s.selected is Some,
        s.selected != Some(w),
    ensures
        ({
            let cur = s.selected->0;
            let d = next_switch_state(policy, min_dwell_us, revert_window_us, s, Some(w), reason, now).1;
            let elapsed = spec_elapsed(s.last_switch, now);
            let reverting = s.previous == Some(w) && elapsed < revert_window_us;
            &&& (d == SwitchDecision::Revert { from: cur, to: w }) == reverting
            &&& (d == SwitchDecision::Switch { from: cur, to: w, reason }) == (!reverting && policy
                == SwitchPolicy::Enforce && elapsed >= min_dwell_us)
            &&& !reverting && !(d == SwitchDecision::Switch { from: cur, to: w, reason }) ==> d
                is Hold && d->current == cur
        }),
{
}

} // verus!
