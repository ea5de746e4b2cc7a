//! What the server does with a message from the client before and after
//! the client has initialized the session.
use vstd::prelude::*;

verus! {

/// What kind of message came from the client.
#[derive(Debug, Clone, Copy, PartialEq, Eq, Structural)]
pub enum ClientMessageKind {
    /// The request that initializes the session.
    Initialize,
    /// A request for a method the protocol does not define.
    CustomRequest,
    /// A notification the protocol does not define.
    CustomNotification,
    /// Any other message.
    Other,
}

/// What to do with a message.
#[derive(Debug, Clone, Copy, PartialEq, Eq, Structural)]
pub enum ClientMessageAction {
    /// Hand it to the server.
    Deliver,
    /// Answer it at once with "method not found" and read on.
    RejectMethod,
    /// Drop it and read on.
    Ignore,
}

/// Once the session is initialized every message is handed on. Before
/// that, the initializing request opens the session, custom requests are
/// answered with "method not found", custom notifications are dropped, and
/// anything else is handed on.
pub open spec fn receive_spec(initialized: bool, kind: ClientMessageKind) -> (bool, ClientMessageAction) {
    if initialized {
        (true, ClientMessageAction::Deliver)
    } else {
        match kind {
            ClientMessageKind::Initialize => (true, ClientMessageAction::Deliver),
            ClientMessageKind::CustomRequest => (false, ClientMessageAction::RejectMethod),
            ClientMessageKind::CustomNotification => (false, ClientMessageAction::Ignore),
            ClientMessageKind::Other => (false, ClientMessageAction::Deliver),
        }
    }
}

/// Decides what to do with a received message, and whether the session is
/// initialized afterwards.
pub fn receive_step(initialized: bool, kind: ClientMessageKind) -> (r: (bool, ClientMessageAction))
    ensures
        r == receive_spec(initialized, kind),
{
    if initialized {
        return (true, ClientMessageAction::Deliver);
    }
    match kind {
        ClientMessageKind::Initialize => (true, ClientMessageAction::Deliver),
        ClientMessageKind::CustomRequest => (false, ClientMessageAction::RejectMethod),
        ClientMessageKind::CustomNotification => (false, ClientMessageAction::Ignore),
        ClientMessageKind::Other => (false, ClientMessageAction::Deliver),
    }
}

/// Only the initializing request opens the session, and once open it stays
/// open: no message is held back from an initialized session.
pub proof fn lemma_session_opens_once(initialized: bool, kind: ClientMessageKind)
    ensures
        receive_spec(initialized, kind).0 == (initialized || kind == ClientMessageKind::Initialize),
        initialized ==> receive_spec(initialized, kind).1 == ClientMessageAction::Deliver,
{
}

} // verus!
