use vstd::prelude::*;

verus! {

/// The payload a manager group hands back when it rejects or fails a
/// request; carried verbatim inside a response body.
#[derive(Clone, PartialEq, Eq, Debug)]
pub struct ResponseError {
    pub reason: Vec<u8>,
}

/// What an application callback asks the node to do when it will not act.
#[derive(Clone, PartialEq, Eq, Debug)]
pub enum InterfaceError {
    /// Drop the request silently.
    Abort,
    /// Answer the requester with this error payload.
    Response(ResponseError),
}

/// Everything that can go wrong while the node processes one event.
#[derive(Clone, PartialEq, Eq, Debug)]
pub enum RoutingError {
    /// The initial dial could not reach any seed endpoint.
    FailedToBootstrap,
    /// The message's fingerprint was already in the duplicate filter; the
    /// message was dropped before any handler ran.
    FilterCheckFailed,
    /// The frame decoded, but its type tag has no handler.
    UnknownMessageType,
    /// The routing table already holds the peer a connect message offered.
    AlreadyConnected,
    /// A published identity was addressed to a group this node does not
    /// manage.
    BadAuthority,
    /// A frame or body did not decode.
    ParseFailure,
    /// An application callback declined or failed the request.
    Interface(InterfaceError),
    /// A relay target was addressed that the registry does not know.
    Other,
}

} // verus!
