//! One subnetwork's overlay session: its content store, routing table and
//! outstanding queries, and the decisions taken on each inbound request,
//! each answer and each deadline. Sending and receiving are the caller's.
use vstd::prelude::*;
use crate::content_key::{
    DASContentKey, DASValidator, DecodeError, SecureDASContentKey, SecureDASValidator,
    ValidationError, das_validity, sample_decoding, secure_das_validity,
};
use crate::distance::Id256;
use crate::messages::{Content, Request, RequestError, Response, answers};
use crate::requests::{Outstanding, RequestState, RequestTable, has_request, request_index};
use crate::routing::{
    RoutingTable, first_n, ids_at_distances, nearest_first, spec_failure, spec_failures,
    spec_insert, spec_insert_all, spec_success,
};
use crate::store::{ContentStore, has_id, item_index};

verus! {

/// Why an inbound request was not answered.
#[derive(Clone, Copy, Debug, PartialEq, Eq)]
pub enum ProcessError {
    Decode(DecodeError),
    Validation(ValidationError),
}

/// The identifier whose bytes are `body`.
pub open spec fn array_of(body: Seq<u8>) -> Id256 {
    choose|a: Id256| a@ == body
}

/// Which subnetwork a session serves: it fixes the content-key type and the
/// validator.
#[derive(Clone, Copy, Debug, PartialEq, Eq)]
pub enum Subnetwork {
    Das,
    SecureDas,
}

impl Subnetwork {
    /// The content id of the key `key` (in wire form) if it decodes and
    /// `content` passes the subnetwork's validator.
    pub open spec fn admits(self, key: Seq<u8>, content: Seq<u8>) -> Result<Seq<u8>, ProcessError> {
        match sample_decoding(key) {
            Err(e) => Err(ProcessError::Decode(e)),
            Ok(body) => {
                let v = match self {
                    Subnetwork::Das => das_validity(DASContentKey::Sample(array_of(body)), content),
                    Subnetwork::SecureDas => secure_das_validity(
                        SecureDASContentKey::Sample(array_of(body)),
                        content,
                    ),
                };
                match v {
                    Ok(_) => Ok(body),
                    Err(e) => Err(ProcessError::Validation(e)),
                }
            },
        }
    }

    /// The content id of a key in wire form.
    pub fn content_id(&self, key: &[u8]) -> (r: Result<Id256, DecodeError>)
        ensures
            match r {
                Ok(id) => sample_decoding(key@) == Ok::<Seq<u8>, DecodeError>(id@),
                Err(e) => sample_decoding(key@) == Err::<Seq<u8>, DecodeError>(e),
            },
    {
        match self {
            Subnetwork::Das => match DASContentKey::decode(key) {
                Ok(k) => Ok(k.content_id()),
                Err(e) => Err(e),
            },
            Subnetwork::SecureDas => match SecureDASContentKey::decode(key) {
                Ok(k) => Ok(k.content_id()),
                Err(e) => Err(e),
            },
        }
    }

    /// Decodes `key` and runs the subnetwork's validator on `content`.
    pub fn check_content(&self, key: &[u8], content: &[u8]) -> (r: Result<Id256, ProcessError>)
        ensures
            match r {
                Ok(id) => self.admits(key@, content@) == Ok::<Seq<u8>, ProcessError>(id@),
                Err(e) => self.admits(key@, content@) == Err::<Seq<u8>, ProcessError>(e),
            },
    {
        match self {
            Subnetwork::Das => match DASContentKey::decode(key) {
                Ok(k) => {
                    let id = k.content_id();
                    match DASValidator.validate_content(&k, content) {
                        Ok(()) => Ok(id),
                        Err(e) => Err(ProcessError::Validation(e)),
                    }
                },
                Err(e) => Err(ProcessError::Decode(e)),
            },
            Subnetwork::SecureDas => match SecureDASContentKey::decode(key) {
                Ok(k) => {
                    let id = k.content_id();
                    match SecureDASValidator.validate_content(&k, content) {
                        Ok(()) => Ok(id),
                        Err(e) => Err(ProcessError::Validation(e)),
                    }
                },
                Err(e) => Err(ProcessError::Decode(e)),
            },
        }
    }
}

/// Limits and timeouts of a session.
#[derive(Clone, Copy, Debug, PartialEq, Eq)]
pub struct SessionConfig {
    /// Largest payload answered inline; larger content goes over a stream.
    pub max_inline: usize,
    /// Time a peer has to answer a query.
    pub peer_timeout: u64,
    /// Time a stream transfer may take once announced.
    pub transfer_timeout: u64,
    /// Most peers listed in one answer.
    pub max_nodes: usize,
}

/// Content announced to a peer under a connection id, to be streamed when
/// the peer connects.
#[derive(Clone, Copy, Debug, PartialEq, Eq)]
pub struct Upload {
    pub connection_id: u16,
    pub content_id: Id256,
}

/// What became of an answer, a transfer or a failure for a query.
pub enum Resolution<R> {
    /// No query with this id is waiting for it (never issued, or resolved
    /// already): it is dropped and nothing changes.
    Unknown,
    /// The query is resolved with an answer, to be handed to `responder`.
    Answered { id: u64, responder: Option<R>, response: Response },
    /// The query is resolved with an error, to be handed to `responder`.
    Failed { id: u64, responder: Option<R>, error: RequestError },
    /// The content comes over a stream: open one to `peer` with
    /// `connection_id`. The query stays outstanding until the transfer ends.
    OpenStream { id: u64, peer: Id256, connection_id: u16 },
}

/// The peers listed in answer to `FindNodes`: the local node for distance 0,
/// then known peers at the distances asked for.
pub open spec fn nodes_answer(local: Id256, peers: Seq<crate::routing::PeerEntry>, ds: Seq<u16>, max: usize) -> Seq<Id256> {
    (if ds.contains(0u16) {
        seq![local]
    } else {
        Seq::<Id256>::empty()
    }) + first_n(ids_at_distances(peers, local, ds), max as int)
}

/// The answer `resp` is of the kind `req` asks for.
fn response_answers(req: &Request, resp: &Response) -> (r: bool)
    ensures
        r == answers(*req, *resp),
{
    match req {
        Request::Ping { .. } => matches!(resp, Response::Pong { .. }),
        Request::FindNodes { .. } => matches!(resp, Response::Nodes { .. }),
        Request::FindContent { .. } => matches!(resp, Response::Content(_)),
    }
}

/// Identifiers of the peers of a sequence of queries.
pub open spec fn peers_of<R>(s: Seq<Outstanding<R>>) -> Seq<Id256> {
    Seq::new(s.len(), |i: int| s[i].peer)
}

/// Position of the first upload announced under `cid`.
pub open spec fn upload_index(u: Seq<Upload>, cid: u16) -> int {
    choose|i: int| 0 <= i < u.len() && u[i].connection_id == cid && forall|j: int| 0 <= j < i ==> (#[trigger] u[j]).connection_id != cid
}

/// One subnetwork's session.
pub struct OverlaySession<R> {
    pub network: Subnetwork,
    /// The protocol tag under which the session's messages travel.
    pub tag: Vec<u8>,
    pub local_id: Id256,
    /// Sequence number of the local node record.
    pub enr_seq: u64,
    pub config: SessionConfig,
    pub store: ContentStore,
    pub routing: RoutingTable,
    pub requests: RequestTable<R>,
    pub uploads: Vec<Upload>,
    pub next_connection_id: u16,
}

impl<R> OverlaySession<R> {
    pub open spec fn wf(&self) -> bool {
        &&& self.store.wf()
        &&& self.routing.wf()
        &&& self.requests.wf()
        &&& self.store.local_id == self.local_id
        &&& self.routing.local_id == self.local_id
    }

    /// A session with an empty store, routing table and request table.
    pub fn new(
        network: Subnetwork,
        tag: Vec<u8>,
        local_id: Id256,
        enr_seq: u64,
        config: SessionConfig,
        store_capacity: usize,
        max_payload: usize,
        table_capacity: usize,
        max_failures: u32,
    ) -> (s: OverlaySession<R>)
        ensures
            s.wf(),
            s.network == network,
            s.tag@ == tag@,
            s.local_id == local_id,
            s.enr_seq == enr_seq,
            s.config == config,
            s.store@.len() == 0,
            s.store.capacity == store_capacity,
            s.store.max_payload == max_payload,
            s.routing.peers@.len() == 0,
            s.routing.capacity == table_capacity,
            s.routing.max_failures == max_failures,
            s.requests.entries@.len() == 0,
            s.requests.next_id == 0,
            s.uploads@.len() == 0,
            s.next_connection_id == 0,
    {
        OverlaySession {
            network,
            tag,
            local_id,
            enr_seq,
            config,
            store: ContentStore::new(local_id, store_capacity, max_payload),
            routing: RoutingTable::new(local_id, table_capacity, max_failures),
            requests: RequestTable::new(),
            uploads: Vec::new(),
            next_connection_id: 0,
        }
    }

    /// What answering `request` from `source` does: `old` becomes `fin`
    /// and `r` is the answer.
    pub open spec fn request_handled(old: Self, fin: Self, source: Id256, request: Request, r: Result<Response, ProcessError>) -> bool {
        &&& (fin.network == old.network)
        &&& (fin.tag == old.tag)
        &&& (fin.local_id == old.local_id)
        &&& (fin.enr_seq == old.enr_seq)
        &&& (fin.config == old.config)
        &&& (fin.store == old.store)
        &&& (fin.requests == old.requests)
        &&& (r is Ok ==> fin.routing.peers@ == spec_insert(
                old.routing.peers@,
                old.local_id,
                old.routing.capacity,
                source,
            ).0)
        &&& (r is Err ==> fin.routing == old.routing)
        &&& (fin.routing.capacity == old.routing.capacity)
        &&& (fin.routing.max_failures == old.routing.max_failures)
        &&& (!(r matches Ok(Response::Content(Content::ConnectionId(_)))) ==> fin.uploads@
                == old.uploads@ && fin.next_connection_id == old.next_connection_id)
        &&& (request matches Request::Ping { .. } ==> r matches Ok(Response::Pong { enr_seq, data_radius })
                && enr_seq == old.enr_seq && data_radius@ == old.store.spec_radius())
        &&& (request matches Request::FindNodes { distances } ==> r matches Ok(Response::Nodes { nodes })
                && nodes@ == nodes_answer(old.local_id, old.routing.peers@, distances@, old.config.max_nodes))
        &&& (request matches Request::FindContent { content_key } ==> match sample_decoding(content_key@) {
                Err(e) => r == Err::<Response, ProcessError>(ProcessError::Decode(e)),
                Ok(body) => if has_id(old.store@, body) {
                    let p = old.store@[item_index(old.store@, body)].1;
                    match old.network.admits(content_key@, p) {
                        Err(e) => r == Err::<Response, ProcessError>(e),
                        Ok(_) => if p.len() <= old.config.max_inline {
                            r matches Ok(Response::Content(Content::Payload(v))) && v@ == p
                        } else {
                            &&& r == Ok::<Response, ProcessError>(
                                Response::Content(Content::ConnectionId(old.next_connection_id)),
                            )
                            &&& fin.uploads@ == old.uploads@.push(
                                Upload { connection_id: old.next_connection_id, content_id: array_of(body) },
                            )
                            &&& fin.next_connection_id == old.next_connection_id.wrapping_add(1)
                        },
                    }
                } else {
                    r matches Ok(Response::Content(Content::Peers(ps))) && ps@.len() <= old.config.max_nodes
                        && nearest_first(old.routing.peers@, array_of(body), ps@) && (ps@.len()
                        < old.config.max_nodes ==> forall|q: int|
                        0 <= q < old.routing.peers@.len() ==> ps@.contains(
                            #[trigger] old.routing.peers@[q].id,
                        ))
                },
            })
    }

    /// Answers a request from `source`, and, when it is answered, notes
    /// `source` as a known peer. A refused request changes nothing.
    /// A ping is answered with the local record sequence and radius;
    /// `FindNodes` with the peers at the distances asked for; `FindContent`
    /// with the content (inline, or a connection id when it is larger than
    /// `max_inline`) or, when it is not held, with the nearest known peers.
    pub fn handle_request(&mut self, source: Id256, request: &Request) -> (r: Result<Response, ProcessError>)
        requires
            old(self).wf(),
        ensures
            final(self).wf(),
            Self::request_handled(*old(self), *final(self), source, *request, r),
    {
        let answer = match request {
            Request::Ping { .. } => {
                let radius = self.store.radius();
                Ok(Response::Pong { enr_seq: self.enr_seq, data_radius: radius })
            },
            Request::FindNodes { distances } => {
                let mut nodes: Vec<Id256> = Vec::new();
                let mut asks_self = false;
                let mut j: usize = 0;
                while j < distances.len()
                    invariant
                        j <= distances@.len(),
                        asks_self == (exists|k: int| 0 <= k < j && distances@[k] == 0u16),
                    decreases distances@.len() - j,
                {
                    if distances[j] == 0 {
                        asks_self = true;
                    }
                    j += 1;
                }
                if asks_self {
                    nodes.push(self.local_id);
                }
                let mut found = self.routing.nodes_at_distances(distances.as_slice(), self.config.max_nodes);
                let ghost before = nodes@;
                nodes.append(&mut found);
                proof {
                    if asks_self {
                        let k = choose|k: int| 0 <= k < distances@.len() && distances@[k] == 0u16;
                        assert(distances@.contains(0u16));
                        assert(before =~= seq![self.local_id]);
                    } else {
                        assert(!distances@.contains(0u16));
                        assert(before =~= Seq::<Id256>::empty());
                    }
                }
                Ok(Response::Nodes { nodes })
            },
            Request::FindContent { content_key } => self.answer_find_content(content_key),
        };
        if answer.is_ok() {
            self.routing.insert(source);
        }
        answer
    }

    fn answer_find_content(&mut self, content_key: &Vec<u8>) -> (r: Result<Response, ProcessError>)
        requires
            old(self).wf(),
        ensures
            final(self).wf(),
            final(self).network == old(self).network,
            final(self).tag == old(self).tag,
            final(self).local_id == old(self).local_id,
            final(self).enr_seq == old(self).enr_seq,
            final(self).config == old(self).config,
            final(self).store == old(self).store,
            final(self).requests == old(self).requests,
            final(self).routing == old(self).routing,
            !(r matches Ok(Response::Content(Content::ConnectionId(_)))) ==> final(self).uploads@
                == old(self).uploads@ && final(self).next_connection_id == old(self).next_connection_id,
            match sample_decoding(content_key@) {
                Err(e) => r == Err::<Response, ProcessError>(ProcessError::Decode(e)),
                Ok(body) => if has_id(old(self).store@, body) {
                    let p = old(self).store@[item_index(old(self).store@, body)].1;
                    match old(self).network.admits(content_key@, p) {
                        Err(e) => r == Err::<Response, ProcessError>(e),
                        Ok(_) => if p.len() <= old(self).config.max_inline {
                            r matches Ok(Response::Content(Content::Payload(v))) && v@ == p
                        } else {
                            &&& r == Ok::<Response, ProcessError>(
                                Response::Content(Content::ConnectionId(old(self).next_connection_id)),
                            )
                            &&& final(self).uploads@ == old(self).uploads@.push(
                                Upload { connection_id: old(self).next_connection_id, content_id: array_of(body) },
                            )
                            &&& final(self).next_connection_id == old(self).next_connection_id.wrapping_add(1)
                        },
                    }
                } else {
                    r matches Ok(Response::Content(Content::Peers(ps))) && ps@.len() <= old(self).config.max_nodes
                        && nearest_first(old(self).routing.peers@, array_of(body), ps@) && (ps@.len()
                        < old(self).config.max_nodes ==> forall|q: int|
                        0 <= q < old(self).routing.peers@.len() ==> ps@.contains(
                            #[trigger] old(self).routing.peers@[q].id,
                        ))
                },
            },
    {
        let id = match self.network.content_id(content_key.as_slice()) {
            Ok(id) => id,
            Err(e) => {
                return Err(ProcessError::Decode(e));
            },
        };
        proof {
            assert(id@ == array_of(id@)@);
            assert(id =~= array_of(id@));
        }
        match self.store.get(&id) {
            Some(payload) => {
                match self.network.check_content(content_key.as_slice(), payload.as_slice()) {
                    Ok(_) => {},
                    Err(e) => {
                        return Err(e);
                    },
                }
                if payload.len() <= self.config.max_inline {
                    Ok(Response::Content(Content::Payload(payload)))
                } else {
                    let cid = self.next_connection_id;
                    self.uploads.push(Upload { connection_id: cid, content_id: id });
                    self.next_connection_id = cid.wrapping_add(1);
                    Ok(Response::Content(Content::ConnectionId(cid)))
                }
            },
            None => {
                let peers = self.routing.closest(&id, self.config.max_nodes);
                Ok(Response::Content(Content::Peers(peers)))
            },
        }
    }
    /// The parts of the session that only its constructor sets.
    pub open spec fn same_setup(&self, other: &Self) -> bool {
        &&& self.network == other.network
        &&& self.tag == other.tag
        &&& self.local_id == other.local_id
        &&& self.enr_seq == other.enr_seq
        &&& self.config == other.config
        &&& self.routing.local_id == other.routing.local_id
        &&& self.routing.capacity == other.routing.capacity
        &&& self.routing.max_failures == other.routing.max_failures
        &&& self.store.local_id == other.store.local_id
        &&& self.store.capacity == other.store.capacity
        &&& self.store.max_payload == other.store.max_payload
    }

    /// What taking in the content `p` for the query `e` does: if the key
    /// asked for decodes and `p` passes the validator, `p` goes to the
    /// store and the query is answered with it; else the query fails as
    /// `InvalidContent` and counts as a failure of the peer.
    pub open spec fn payload_taken(old: Self, fin: Self, e: Outstanding<R>, p: Seq<u8>, r: Resolution<R>) -> bool {
        match e.request {
            Request::FindContent { content_key } => match old.network.admits(content_key@, p) {
                Ok(body) => {
                    &&& r matches Resolution::Answered { id, responder, response: Response::Content(Content::Payload(v)) }
                        && id == e.id && responder == e.responder && v@ == p
                    &&& fin.store@ == old.store.spec_put(body, p).0
                    &&& fin.routing.peers@ == spec_success(old.routing.peers@, e.peer)
                },
                Err(_) => {
                    &&& r == Resolution::<R>::Failed { id: e.id, responder: e.responder, error: RequestError::InvalidContent }
                    &&& fin.store == old.store
                    &&& fin.routing.peers@ == spec_failure(old.routing.peers@, old.routing.max_failures, e.peer).0
                },
            },
            _ => {
                &&& r == Resolution::<R>::Failed { id: e.id, responder: e.responder, error: RequestError::InvalidResponse }
                &&& fin.store == old.store
                &&& fin.routing.peers@ == spec_failure(old.routing.peers@, old.routing.max_failures, e.peer).0
            },
        }
    }

    fn take_payload(&mut self, e: Outstanding<R>, p: Vec<u8>) -> (r: Resolution<R>)
        requires
            old(self).wf(),
        ensures
            final(self).wf(),
            final(self).same_setup(old(self)),
            final(self).requests == old(self).requests,
            final(self).uploads == old(self).uploads,
            final(self).next_connection_id == old(self).next_connection_id,
            Self::payload_taken(*old(self), *final(self), e, p@, r),
    {
        match &e.request {
            Request::FindContent { content_key } => {
                match self.network.check_content(content_key.as_slice(), p.as_slice()) {
                    Ok(cid) => {
                        let copy = p.clone();
                        assert(copy@ =~= p@);
                        let _ = self.store.put(cid, p);
                        self.routing.record_success(&e.peer);
                        Resolution::Answered {
                            id: e.id,
                            responder: e.responder,
                            response: Response::Content(Content::Payload(copy)),
                        }
                    },
                    Err(_) => {
                        self.routing.record_failure(&e.peer);
                        Resolution::Failed { id: e.id, responder: e.responder, error: RequestError::InvalidContent }
                    },
                }
            },
            _ => {
                self.routing.record_failure(&e.peer);
                Resolution::Failed { id: e.id, responder: e.responder, error: RequestError::InvalidResponse }
            },
        }
    }

    /// Registers the query `request` to `peer`, sent at `now`.
    fn issue(&mut self, peer: Id256, request: Request, now: u64, responder: Option<R>) -> (r: Option<u64>)
        requires
            old(self).wf(),
        ensures
            final(self).wf(),
            final(self).same_setup(old(self)),
            final(self).store == old(self).store,
            final(self).routing == old(self).routing,
            final(self).uploads == old(self).uploads,
            final(self).next_connection_id == old(self).next_connection_id,
            old(self).requests.next_id == u64::MAX ==> r is None && final(self).requests == old(self).requests,
            old(self).requests.next_id < u64::MAX ==> r == Some(old(self).requests.next_id)
                && final(self).requests.next_id == old(self).requests.next_id + 1
                && final(self).requests.entries@ == old(self).requests.entries@.push(
                (Outstanding {
                    id: old(self).requests.next_id,
                    peer,
                    request,
                    responder,
                    issued_at: now,
                    deadline: now.saturating_add(old(self).config.peer_timeout),
                    attempts: 1,
                    state: RequestState::AwaitingResponse,
                }),
            ),
    {
        self.requests.register(peer, request, responder, now, self.config.peer_timeout)
    }

    /// Sends a liveness probe to `peer` at `now`: registers it and gives its
    /// id and the request to send, or `None` once request ids run out.
    pub fn start_ping(&mut self, peer: Id256, now: u64, responder: Option<R>) -> (r: Option<(u64, Request)>)
        requires
            old(self).wf(),
        ensures
            final(self).wf(),
            final(self).same_setup(old(self)),
            final(self).store == old(self).store,
            final(self).routing == old(self).routing,
            final(self).uploads == old(self).uploads,
            final(self).next_connection_id == old(self).next_connection_id,
            old(self).requests.next_id == u64::MAX ==> r is None && final(self).requests == old(self).requests,
            old(self).requests.next_id < u64::MAX ==> (r matches Some((id, req)) && {
                &&& id == old(self).requests.next_id
                &&& final(self).requests.next_id == id + 1
                &&& final(self).requests.entries@ == old(self).requests.entries@.push(
                    (Outstanding {
                        id,
                        peer,
                        request: req,
                        responder,
                        issued_at: now,
                        deadline: now.saturating_add(old(self).config.peer_timeout),
                        attempts: 1,
                        state: RequestState::AwaitingResponse,
                    }),
                )
                &&& (req matches Request::Ping { enr_seq, data_radius } && enr_seq == old(self).enr_seq
                    && data_radius@ == old(self).store.spec_radius())
            }),
    {
        let radius = self.store.radius();
        let req = Request::Ping { enr_seq: self.enr_seq, data_radius: radius };
        match self.issue(peer, req, now, responder) {
            Some(id) => Some((id, Request::Ping { enr_seq: self.enr_seq, data_radius: radius })),
            None => None,
        }
    }

    /// Asks `peer` at `now` for the peers at logarithmic distances
    /// `distances` from it: registers the query and gives its id and the
    /// request to send, or `None` once request ids run out.
    pub fn start_find_nodes(&mut self, peer: Id256, distances: Vec<u16>, now: u64, responder: Option<R>) -> (r:
        Option<(u64, Request)>)
        requires
            old(self).wf(),
        ensures
            final(self).wf(),
            final(self).same_setup(old(self)),
            final(self).store == old(self).store,
            final(self).routing == old(self).routing,
            final(self).uploads == old(self).uploads,
            final(self).next_connection_id == old(self).next_connection_id,
            old(self).requests.next_id == u64::MAX ==> r is None && final(self).requests == old(self).requests,
            old(self).requests.next_id < u64::MAX ==> (r matches Some((id, req)) && {
                &&& id == old(self).requests.next_id
                &&& (req matches Request::FindNodes { distances: d } && d@ == distances@)
                &&& final(self).requests.next_id == id + 1
                &&& final(self).requests.entries@.len() == old(self).requests.entries@.len() + 1
                &&& final(self).requests.entries@.drop_last() == old(self).requests.entries@
                &&& (final(self).requests.entries@.last() matches Outstanding {
                    id: eid,
                    peer: epeer,
                    request: Request::FindNodes { distances: ed },
                    responder: er,
                    issued_at,
                    deadline,
                    attempts,
                    state,
                } && eid == id && epeer == peer && ed@ == distances@ && er == responder && issued_at == now
                    && deadline == now.saturating_add(old(self).config.peer_timeout) && attempts == 1
                    && state == RequestState::AwaitingResponse)
            }),
    {
        let copy = distances.clone();
        assert(copy@ =~= distances@);
        let ghost before = self.requests.entries@;
        match self.issue(peer, Request::FindNodes { distances }, now, responder) {
            Some(id) => {
                assert(self.requests.entries@.drop_last() =~= before);
                Some((id, Request::FindNodes { distances: copy }))
            },
            None => None,
        }
    }

    /// Asks `peer` at `now` for the content under `content_key` (wire form):
    /// registers the query and gives its id and the request to send, or
    /// `None` once request ids run out.
    pub fn start_find_content(&mut self, peer: Id256, content_key: Vec<u8>, now: u64, responder: Option<R>) -> (r:
        Option<(u64, Request)>)
        requires
            old(self).wf(),
        ensures
            final(self).wf(),
            final(self).same_setup(old(self)),
            final(self).store == old(self).store,
            final(self).routing == old(self).routing,
            final(self).uploads == old(self).uploads,
            final(self).next_connection_id == old(self).next_connection_id,
            old(self).requests.next_id == u64::MAX ==> r is None && final(self).requests == old(self).requests,
            old(self).requests.next_id < u64::MAX ==> (r matches Some((id, req)) && {
                &&& id == old(self).requests.next_id
                &&& (req matches Request::FindContent { content_key: k } && k@ == content_key@)
                &&& final(self).requests.next_id == id + 1
                &&& final(self).requests.entries@.len() == old(self).requests.entries@.len() + 1
                &&& final(self).requests.entries@.drop_last() == old(self).requests.entries@
                &&& (final(self).requests.entries@.last() matches Outstanding {
                    id: eid,
                    peer: epeer,
                    request: Request::FindContent { content_key: ek },
                    responder: er,
                    issued_at,
                    deadline,
                    attempts,
                    state,
                } && eid == id && epeer == peer && ek@ == content_key@ && er == responder && issued_at == now
                    && deadline == now.saturating_add(old(self).config.peer_timeout) && attempts == 1
                    && state == RequestState::AwaitingResponse)
            }),
    {
        let copy = content_key.clone();
        assert(copy@ =~= content_key@);
        let ghost before = self.requests.entries@;
        match self.issue(peer, Request::FindContent { content_key }, now, responder) {
            Some(id) => {
                assert(self.requests.entries@.drop_last() =~= before);
                Some((id, Request::FindContent { content_key: copy }))
            },
            None => None,
        }
    }

    /// What matching `outcome` to the query `id` at `now` does: `old`
    /// becomes `fin` and `r` says what the caller is to do.
    pub open spec fn response_handled(old: Self, fin: Self, id: u64, outcome: Result<Response, RequestError>, now: u64, r: Resolution<R>) -> bool {
        &&& (fin.same_setup(&old))
        &&& (fin.uploads == old.uploads)
        &&& (fin.next_connection_id == old.next_connection_id)
        &&& (fin.requests.next_id == old.requests.next_id)
        &&& (({
                let s = old.requests.entries@;
                let i = request_index(s, id);
                let e = s[i];
                let peers = old.routing.peers@;
                let local = old.local_id;
                let cap = old.routing.capacity;
                if !(has_request(s, id) && e.state == RequestState::AwaitingResponse) {
                    r is Unknown && fin == old
                } else {
                    match outcome {
                        Err(err) => {
                            &&& r == Resolution::<R>::Failed { id, responder: e.responder, error: err }
                            &&& fin.requests.entries@ == s.remove(i)
                            &&& fin.store == old.store
                            &&& fin.routing.peers@ == spec_failure(peers, old.routing.max_failures, e.peer).0
                        },
                        Ok(resp) => if !answers(e.request, resp) {
                            &&& r == Resolution::<R>::Failed { id, responder: e.responder, error: RequestError::InvalidResponse }
                            &&& fin.requests.entries@ == s.remove(i)
                            &&& fin.store == old.store
                            &&& fin.routing.peers@ == spec_failure(peers, old.routing.max_failures, e.peer).0
                        } else {
                            match resp {
                                Response::Content(Content::ConnectionId(cid)) => {
                                    &&& r == Resolution::<R>::OpenStream { id, peer: e.peer, connection_id: cid }
                                    &&& fin.requests.entries@ == s.remove(i).push(
                                        Outstanding {
                                            deadline: now.saturating_add(old.config.transfer_timeout),
                                            state: RequestState::AwaitingTransfer(cid),
                                            ..e
                                        },
                                    )
                                    &&& fin.store == old.store
                                    &&& fin.routing.peers@ == spec_success(peers, e.peer)
                                },
                                Response::Content(Content::Payload(p)) => {
                                    &&& fin.requests.entries@ == s.remove(i)
                                    &&& Self::payload_taken(old, fin, e, p@, r)
                                },
                                Response::Content(Content::Peers(ps)) => {
                                    &&& r == Resolution::<R>::Answered { id, responder: e.responder, response: resp }
                                    &&& fin.requests.entries@ == s.remove(i)
                                    &&& fin.store == old.store
                                    &&& fin.routing.peers@ == spec_success(spec_insert_all(peers, local, cap, ps@), e.peer)
                                },
                                Response::Nodes { nodes } => {
                                    &&& r == Resolution::<R>::Answered { id, responder: e.responder, response: resp }
                                    &&& fin.requests.entries@ == s.remove(i)
                                    &&& fin.store == old.store
                                    &&& fin.routing.peers@ == spec_success(spec_insert_all(peers, local, cap, nodes@), e.peer)
                                },
                                Response::Pong { .. } => {
                                    &&& r == Resolution::<R>::Answered { id, responder: e.responder, response: resp }
                                    &&& fin.requests.entries@ == s.remove(i)
                                    &&& fin.store == old.store
                                    &&& fin.routing.peers@ == spec_success(spec_insert(peers, local, cap, e.peer).0, e.peer)
                                },
                            }
                        },
                    }
                }
            }))
    }

    /// Matches the answer (or the failure) `outcome` to the query `id`, at
    /// `now`. Only a query waiting for a datagram answer takes it; anything
    /// else is dropped. A connection id keeps the query outstanding, now
    /// waiting for the stream; every other outcome resolves it. Answers
    /// teach the routing table: the peer passed a liveness check, and the
    /// peers it lists are added. Failures and wrong answers count against
    /// the peer.
    pub fn handle_response(&mut self, id: u64, outcome: Result<Response, RequestError>, now: u64) -> (r: Resolution<R>)
        requires
            old(self).wf(),
        ensures
            final(self).wf(),
            Self::response_handled(*old(self), *final(self), id, outcome, now, r),
    {
        match self.requests.state_of(id) {
            Some(RequestState::AwaitingResponse) => {},
            _ => {
                return Resolution::Unknown;
            },
        }
        let e = match self.requests.resolve(id) {
            Some(e) => e,
            None => {
                return Resolution::Unknown;
            },
        };
        let resp = match outcome {
            Err(err) => {
                self.routing.record_failure(&e.peer);
                return Resolution::Failed { id, responder: e.responder, error: err };
            },
            Ok(resp) => resp,
        };
        if !response_answers(&e.request, &resp) {
            self.routing.record_failure(&e.peer);
            return Resolution::Failed { id, responder: e.responder, error: RequestError::InvalidResponse };
        }
        match resp {
            Response::Content(Content::ConnectionId(cid)) => {
                let peer = e.peer;
                self.routing.record_success(&peer);
                let waiting = Outstanding {
                    deadline: now.saturating_add(self.config.transfer_timeout),
                    state: RequestState::AwaitingTransfer(cid),
                    ..e
                };
                self.requests.restore(waiting);
                Resolution::OpenStream { id, peer, connection_id: cid }
            },
            Response::Content(Content::Payload(p)) => self.take_payload(e, p),
            Response::Content(Content::Peers(ps)) => {
                self.routing.insert_all(&ps);
                self.routing.record_success(&e.peer);
                Resolution::Answered { id, responder: e.responder, response: Response::Content(Content::Peers(ps)) }
            },
            Response::Nodes { nodes } => {
                self.routing.insert_all(&nodes);
                self.routing.record_success(&e.peer);
                Resolution::Answered { id, responder: e.responder, response: Response::Nodes { nodes } }
            },
            Response::Pong { enr_seq, data_radius } => {
                self.routing.insert(e.peer);
                self.routing.record_success(&e.peer);
                Resolution::Answered { id, responder: e.responder, response: Response::Pong { enr_seq, data_radius } }
            },
        }
    }

    /// Ends the stream transfer announced for query `id`: the content
    /// received, or the transfer's failure, resolves the query as an inline
    /// answer would. Queries not waiting for a transfer are left alone.
    pub fn complete_transfer(&mut self, id: u64, outcome: Result<Vec<u8>, RequestError>) -> (r: Resolution<R>)
        requires
            old(self).wf(),
        ensures
            final(self).wf(),
            final(self).same_setup(old(self)),
            final(self).uploads == old(self).uploads,
            final(self).next_connection_id == old(self).next_connection_id,
            final(self).requests.next_id == old(self).requests.next_id,
            ({
                let s = old(self).requests.entries@;
                let i = request_index(s, id);
                let e = s[i];
                if !(has_request(s, id) && e.state is AwaitingTransfer) {
                    r is Unknown && *final(self) == *old(self)
                } else {
                    &&& final(self).requests.entries@ == s.remove(i)
                    &&& match outcome {
                        Err(err) => {
                            &&& r == Resolution::<R>::Failed { id, responder: e.responder, error: err }
                            &&& final(self).store == old(self).store
                            &&& final(self).routing.peers@ == spec_failure(old(self).routing.peers@, old(self).routing.max_failures, e.peer).0
                        },
                        Ok(p) => Self::payload_taken(*old(self), *final(self), e, p@, r),
                    }
                }
            }),
    {
        match self.requests.state_of(id) {
            Some(RequestState::AwaitingTransfer(_)) => {},
            _ => {
                return Resolution::Unknown;
            },
        }
        let e = match self.requests.resolve(id) {
            Some(e) => e,
            None => {
                return Resolution::Unknown;
            },
        };
        match outcome {
            Err(err) => {
                self.routing.record_failure(&e.peer);
                Resolution::Failed { id, responder: e.responder, error: err }
            },
            Ok(p) => self.take_payload(e, p),
        }
    }

    /// Resolves as timed out every query whose deadline has come at `now`
    /// and hands them back; each counts as a failed liveness check of its
    /// peer.
    pub fn sweep_expired(&mut self, now: u64) -> (expired: Vec<Outstanding<R>>)
        requires
            old(self).wf(),
        ensures
            final(self).wf(),
            final(self).same_setup(old(self)),
            final(self).store == old(self).store,
            final(self).uploads == old(self).uploads,
            final(self).next_connection_id == old(self).next_connection_id,
            final(self).requests.next_id == old(self).requests.next_id,
            final(self).requests.entries@ == old(self).requests.entries@.filter(crate::requests::live_at::<R>(now)),
            expired@ == old(self).requests.entries@.filter(crate::requests::expired_at::<R>(now)),
            final(self).routing.peers@ == spec_failures(old(self).routing.peers@, old(self).routing.max_failures, peers_of(expired@)),
    {
        let expired = self.requests.sweep_expired(now);
        let mut peers: Vec<Id256> = Vec::new();
        let mut i: usize = 0;
        while i < expired.len()
            invariant
                i <= expired@.len(),
                peers@ == peers_of(expired@.subrange(0, i as int)),
            decreases expired@.len() - i,
        {
            peers.push(expired[i].peer);
            i += 1;
            assert(peers@ =~= peers_of(expired@.subrange(0, i as int)));
        }
        assert(expired@.subrange(0, i as int) =~= expired@);
        self.routing.record_failures(&peers);
        expired
    }

    /// Hands out the content announced under connection id `cid`, once,
    /// for streaming to the peer that connected with it: `None` if nothing
    /// was announced under `cid`, or the content is no longer held.
    pub fn take_upload(&mut self, cid: u16) -> (r: Option<Vec<u8>>)
        requires
            old(self).wf(),
        ensures
            final(self).wf(),
            final(self).same_setup(old(self)),
            final(self).store == old(self).store,
            final(self).routing == old(self).routing,
            final(self).requests == old(self).requests,
            final(self).next_connection_id == old(self).next_connection_id,
            ({
                let u = old(self).uploads@;
                let i = upload_index(u, cid);
                if exists|j: int| 0 <= j < u.len() && (#[trigger] u[j]).connection_id == cid {
                    &&& final(self).uploads@ == u.remove(i)
                    &&& match r {
                        Some(p) => has_id(old(self).store@, u[i].content_id@) && p@ == old(self).store@[item_index(
                            old(self).store@,
                            u[i].content_id@,
                        )].1,
                        None => !has_id(old(self).store@, u[i].content_id@),
                    }
                } else {
                    r is None && final(self).uploads == old(self).uploads
                }
            }),
    {
        let mut i: usize = 0;
        while i < self.uploads.len()
            invariant
                *self == *old(self),
                self.wf(),
                i <= self.uploads@.len(),
                forall|j: int| 0 <= j < i ==> (#[trigger] self.uploads@[j]).connection_id != cid,
            decreases self.uploads@.len() - i,
        {
            if self.uploads[i].connection_id == cid {
                let ghost u = self.uploads@;
                assert(u[i as int].connection_id == cid && forall|j: int| 0 <= j < i ==> (#[trigger] u[j]).connection_id != cid);
                let ghost k = upload_index(u, cid);
                assert(k == i) by {
                    if k < i {
                        assert(u[k].connection_id != cid);
                    } else if k > i {
                        assert(u[i as int].connection_id != cid);
                    }
                }
                let up = self.uploads.remove(i);
                return self.store.get(&up.content_id);
            }
            i += 1;
        }
        None
    }

    /// The known peers, whose liveness the periodic ping round checks.
    pub fn peers_to_ping(&self) -> (r: Vec<Id256>)
        ensures
            r@ == crate::routing::peer_ids(self.routing.peers@),
    {
        self.routing.peer_ids()
    }
}

/// A query resolves once: after an answer or a failure has resolved query
/// `id` (anything but the announcement of a stream), a second outcome for
/// `id`, whatever it is, is dropped and changes nothing.
pub proof fn lemma_second_outcome_dropped<R>(
    s0: OverlaySession<R>,
    s1: OverlaySession<R>,
    s2: OverlaySession<R>,
    id: u64,
    first: Result<Response, RequestError>,
    second: Result<Response, RequestError>,
    t1: u64,
    t2: u64,
    r1: Resolution<R>,
    r2: Resolution<R>,
)
    requires
        s0.wf(),
        OverlaySession::response_handled(s0, s1, id, first, t1, r1),
        !(r1 is OpenStream),
        OverlaySession::response_handled(s1, s2, id, second, t2, r2),
    ensures
        r2 is Unknown,
        s2 == s1,
{
    let s = s0.requests.entries@;
    if has_request(s, id) && s[request_index(s, id)].state == RequestState::AwaitingResponse {
        crate::requests::lemma_resolved_once(s, s0.requests.next_id, request_index(s, id));
        assert(s1.requests.entries@ == s.remove(request_index(s, id)));
        assert(!has_request(s1.requests.entries@, id));
    }
}

} // verus!
