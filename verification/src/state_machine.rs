//! The connection lifecycle state machine.
use vstd::prelude::*;
use crate::types::TransportError;

verus! {

/// High-level protocol connection lifecycle states.
#[derive(Copy, Clone, Eq, PartialEq, Debug, Structural)]
pub enum ConnectionState {
    /// Initial unestablished state.
    Initial,
    /// Client has sent HANDSHAKE_INIT and awaits response.
    Handshaking,
    /// Stateless token verified / client reachability proven.
    Validated,
    /// Full authenticated session active.
    Established,
    /// Graceful closing draining state.
    Draining,
    /// Terminal closed state.
    Closed,
}

/// The lifecycle edges the protocol allows.
pub open spec fn allowed_transition(from: ConnectionState, to: ConnectionState) -> bool {
    match (from, to) {
        (ConnectionState::Initial, ConnectionState::Handshaking) => true,
        (ConnectionState::Initial, ConnectionState::Validated) => true,
        (ConnectionState::Initial, ConnectionState::Closed) => true,
        (ConnectionState::Handshaking, ConnectionState::Validated) => true,
        (ConnectionState::Validated, ConnectionState::Established) => true,
        (ConnectionState::Established, ConnectionState::Draining) => true,
        (ConnectionState::Established, ConnectionState::Closed) => true,
        (ConnectionState::Draining, ConnectionState::Closed) => true,
        (ConnectionState::Handshaking, ConnectionState::Closed) => true,
        (ConnectionState::Validated, ConnectionState::Closed) => true,
        _ => false,
    }
}

impl ConnectionState {
    pub fn is_active(&self) -> (b: bool)
        ensures
            b == (*self == ConnectionState::Established),
    {
        match self {
            ConnectionState::Established => true,
            _ => false,
        }
    }

    pub fn is_closed(&self) -> (b: bool)
        ensures
            b == (*self == ConnectionState::Closed),
    {
        match self {
            ConnectionState::Closed => true,
            _ => false,
        }
    }

    /// Moves to `next` when the lifecycle allows that edge; otherwise the state
    /// is unchanged and a protocol violation is reported.
    pub fn transition_to(&mut self, next: ConnectionState) -> (r: Result<(), TransportError>)
        ensures
            r is Ok <==> allowed_transition(*old(self), next),
            r is Ok ==> *final(self) == next,
            r is Err ==> *final(self) == *old(self) && r == Err::<(), TransportError>(
                TransportError::ProtocolViolation,
            ),
    {
        let ok = match (*self, next) {
            (ConnectionState::Initial, ConnectionState::Handshaking) => true,
            (ConnectionState::Initial, ConnectionState::Validated) => true,
            (ConnectionState::Initial, ConnectionState::Closed) => true,
            (ConnectionState::Handshaking, ConnectionState::Validated) => true,
            (ConnectionState::Validated, ConnectionState::Established) => true,
            (ConnectionState::Established, ConnectionState::Draining) => true,
            (ConnectionState::Established, ConnectionState::Closed) => true,
            (ConnectionState::Draining, ConnectionState::Closed) => true,
            (ConnectionState::Handshaking, ConnectionState::Closed) => true,
            (ConnectionState::Validated, ConnectionState::Closed) => true,
            _ => false,
        };
        if ok {
            *self = next;
            Ok(())
        } else {
            Err(TransportError::ProtocolViolation)
        }
    }
}

/// `Closed` is terminal: no transition ever leaves it.
pub proof fn lemma_closed_is_terminal(next: ConnectionState)
    ensures
        !allowed_transition(ConnectionState::Closed, next),
{
}

/// Only an established session can be drained, and a session can only become
/// established after its peer was validated.
pub proof fn lemma_established_only_after_validation(from: ConnectionState)
    ensures
        allowed_transition(from, ConnectionState::Established) <==> from
            == ConnectionState::Validated,
        allowed_transition(from, ConnectionState::Draining) <==> from
            == ConnectionState::Established,
{
}

/// Every state but `Closed` itself can be closed, a fresh connection
/// included.
pub proof fn lemma_every_open_state_can_close(from: ConnectionState)
    ensures
        allowed_transition(from, ConnectionState::Closed) <==> from != ConnectionState::Closed,
{
}

/// No transition returns to `Initial`, and no state transitions to itself.
pub proof fn lemma_no_edge_back_to_initial_or_self(from: ConnectionState)
    ensures
        !allowed_transition(from, ConnectionState::Initial),
        !allowed_transition(from, from),
{
}

} // verus!
