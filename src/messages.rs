//! The messages one overlay session exchanges with another.
use vstd::prelude::*;
use crate::distance::Id256;

verus! {

/// A query sent to a peer.
#[derive(Clone, Debug, PartialEq, Eq)]
pub enum Request {
    /// Liveness probe, carrying the sender's record sequence and radius.
    Ping { enr_seq: u64, data_radius: Id256 },
    /// Asks for peers at the given logarithmic distances from the receiver.
    FindNodes { distances: Vec<u16> },
    /// Asks for the content under a key, in the key's wire form.
    FindContent { content_key: Vec<u8> },
}

/// What a `FindContent` query is answered with.
#[derive(Clone, Debug, PartialEq, Eq)]
pub enum Content {
    /// The content is too large for a datagram: fetch it over a reliable
    /// stream opened with this connection id.
    ConnectionId(u16),
    /// The content itself.
    Payload(Vec<u8>),
    /// The content is not held here; these peers are nearer to it.
    Peers(Vec<Id256>),
}

/// An answer to a `Request`.
#[derive(Clone, Debug, PartialEq, Eq)]
pub enum Response {
    Pong { enr_seq: u64, data_radius: Id256 },
    Nodes { nodes: Vec<Id256> },
    Content(Content),
}

/// How an outstanding query ended without an answer.
#[derive(Clone, Copy, Debug, PartialEq, Eq)]
pub enum RequestError {
    /// No answer came before the deadline.
    Timeout,
    /// The peer's record could not be found to send to.
    NoRoute,
    /// The peer refused the query.
    RemoteRejected,
    /// The answer does not fit the query.
    InvalidResponse,
    /// The content received failed validation.
    InvalidContent,
}

/// Whether `resp` is an answer of the kind that `req` asks for.
pub open spec fn answers(req: Request, resp: Response) -> bool {
    match req {
        Request::Ping { .. } => resp is Pong,
        Request::FindNodes { .. } => resp is Nodes,
        Request::FindContent { .. } => resp is Content,
    }
}

} // verus!
