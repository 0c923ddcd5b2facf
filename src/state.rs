use vstd::prelude::*;

use crate::handshake::HandshakeError;

verus! {

/// Where one upgrade attempt stands, for either role.
#[derive(Clone, Copy, Debug, PartialEq, Eq, Structural)]
pub enum HandshakeState {
    Start,
    AwaitingPeerMessage,
    Validating,
    Established,
    Failed(HandshakeError),
}

/// What happened since the last step.
#[derive(Clone, Copy, Debug, PartialEq, Eq, Structural)]
pub enum HandshakeEvent {
    /// The role's opening move is done: the initiator sent its first message,
    /// or the responder started listening.
    Ready,
    /// The peer's message was read in full.
    PeerMessageComplete,
    /// The peer's message could not be read in full.
    PeerMessageFailed(HandshakeError),
    /// The peer's message passed every check: tags, timestamp and policy.
    Accepted,
    /// The peer's message failed a check.
    Rejected(HandshakeError),
    /// The transport failed.
    TransportError,
}

pub open spec fn is_terminal(s: HandshakeState) -> bool {
    s is Established || s is Failed
}

/// The state after `e` in state `s`. Terminal states never change; an event
/// that does not apply to the current state leaves it as it is.
pub open spec fn step(s: HandshakeState, e: HandshakeEvent) -> HandshakeState {
    if is_terminal(s) {
        s
    } else {
        match e {
            HandshakeEvent::TransportError => HandshakeState::Failed(HandshakeError::TransportFailure),
            HandshakeEvent::Ready => if s is Start {
                HandshakeState::AwaitingPeerMessage
            } else {
                s
            },
            HandshakeEvent::PeerMessageComplete => if s is AwaitingPeerMessage {
                HandshakeState::Validating
            } else {
                s
            },
            HandshakeEvent::PeerMessageFailed(err) => if s is AwaitingPeerMessage {
                HandshakeState::Failed(err)
            } else {
                s
            },
            HandshakeEvent::Accepted => if s is Validating {
                HandshakeState::Established
            } else {
                s
            },
            HandshakeEvent::Rejected(err) => if s is Validating {
                HandshakeState::Failed(err)
            } else {
                s
            },
        }
    }
}

/// Advances an upgrade attempt by one event.
pub fn next_state(s: HandshakeState, e: HandshakeEvent) -> (r: HandshakeState)
    ensures
        r == step(s, e),
{
    match s {
        HandshakeState::Established | HandshakeState::Failed(_) => s,
        _ => match e {
            HandshakeEvent::TransportError => HandshakeState::Failed(HandshakeError::TransportFailure),
            HandshakeEvent::Ready => match s {
                HandshakeState::Start => HandshakeState::AwaitingPeerMessage,
                _ => s,
            },
            HandshakeEvent::PeerMessageComplete => match s {
                HandshakeState::AwaitingPeerMessage => HandshakeState::Validating,
                _ => s,
            },
            HandshakeEvent::PeerMessageFailed(err) => match s {
                HandshakeState::AwaitingPeerMessage => HandshakeState::Failed(err),
                _ => s,
            },
            HandshakeEvent::Accepted => match s {
                HandshakeState::Validating => HandshakeState::Established,
                _ => s,
            },
            HandshakeEvent::Rejected(err) => match s {
                HandshakeState::Validating => HandshakeState::Failed(err),
                _ => s,
            },
        },
    }
}

/// The state after a whole sequence of events.
pub open spec fn run(s: HandshakeState, events: Seq<HandshakeEvent>) -> HandshakeState
    decreases events.len(),
{
    if events.len() == 0 {
        s
    } else {
        run(step(s, events[0]), events.drop_first())
    }
}

/// Once established or failed, an attempt stays so whatever happens next.
pub proof fn lemma_terminal_is_final(s: HandshakeState, events: Seq<HandshakeEvent>)
    requires
        is_terminal(s),
    ensures
        run(s, events) == s,
    decreases events.len(),
{
    if events.len() > 0 {
        lemma_terminal_is_final(step(s, events[0]), events.drop_first());
    }
}

/// An attempt becomes established only from validation, on acceptance.
pub proof fn lemma_established_needs_verdict(s: HandshakeState, e: HandshakeEvent)
    requires
        step(s, e) is Established,
        !(s is Established),
    ensures
        s is Validating,
        e == HandshakeEvent::Accepted,
{
}

} // verus!
