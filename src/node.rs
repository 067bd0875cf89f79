//! A node of the simulated network: its DAS and Secure-DAS sessions behind
//! one registry, their default configuration, and the choice of peers that
//! seeds each node's discovery table.
use vstd::prelude::*;
use rand::Rng;
use crate::distance::{Id256, max_seq};
use crate::lookup::{Lookup, spec_add_all};
use crate::registry::{Registry, has_tag};
use crate::session::{OverlaySession, SessionConfig, Subnetwork};

verus! {

/// Nodes in the simulated network.
pub const NUMBER_OF_NODES: usize = 10;

/// Peers each node adds to its discovery table at start.
pub const PEERS_PER_NODE: usize = 3;

/// Time a peer has to answer a query, in milliseconds.
pub const QUERY_PEER_TIMEOUT_MS: u64 = 30000;

/// Time a whole query may take, in milliseconds: the deadline of a lookup,
/// and of a stream transfer once announced.
pub const QUERY_TIMEOUT_MS: u64 = 60000;

/// Queries a lookup keeps out at once.
pub const QUERY_PARALLELISM: usize = 3;

/// Answers after which a lookup ends: no ceiling.
pub const QUERY_NUM_RESULTS: usize = usize::MAX;

/// Largest payload answered inline, in bytes.
pub const MAX_INLINE_PAYLOAD: usize = 1000;

/// Most peers listed in one answer.
pub const MAX_NODES_PER_ANSWER: usize = 16;

/// Items a content store holds before it evicts.
pub const STORE_CAPACITY: usize = 100000;

/// Largest payload a content store admits, in bytes.
pub const MAX_STORED_PAYLOAD: usize = 1048576;

/// Peers a routing table holds.
pub const ROUTING_CAPACITY: usize = 4096;

/// Failed liveness checks in a row after which a peer is dropped.
pub const MAX_PING_FAILURES: u32 = 3;

/// Protocol tag of the DAS subnetwork: `DAS`.
pub open spec fn das_tag() -> Seq<u8> {
    seq![68u8, 65u8, 83u8]
}

/// Protocol tag of the Secure-DAS subnetwork: `SECURE_DAS`.
pub open spec fn secure_das_tag() -> Seq<u8> {
    seq![83u8, 69u8, 67u8, 85u8, 82u8, 69u8, 95u8, 68u8, 65u8, 83u8]
}

/// The bytes of the DAS protocol tag.
pub fn das_protocol_tag() -> (r: Vec<u8>)
    ensures
        r@ == das_tag(),
{
    let r: Vec<u8> = vec![68u8, 65u8, 83u8];
    assert(r@ =~= das_tag());
    r
}

/// The bytes of the Secure-DAS protocol tag.
pub fn secure_das_protocol_tag() -> (r: Vec<u8>)
    ensures
        r@ == secure_das_tag(),
{
    let r: Vec<u8> = vec![83u8, 69u8, 67u8, 85u8, 82u8, 69u8, 95u8, 68u8, 65u8, 83u8];
    assert(r@ =~= secure_das_tag());
    r
}

/// The configuration every session of the simulation uses.
pub open spec fn default_config() -> SessionConfig {
    SessionConfig {
        max_inline: MAX_INLINE_PAYLOAD,
        peer_timeout: QUERY_PEER_TIMEOUT_MS,
        transfer_timeout: QUERY_TIMEOUT_MS,
        max_nodes: MAX_NODES_PER_ANSWER,
    }
}

/// A session as the factories below make it: the default configuration and
/// bounds, nothing stored, no known peer, no query or upload yet, and the
/// largest radius advertised.
pub open spec fn fresh_session<R>(s: OverlaySession<R>, network: Subnetwork, tag: Seq<u8>, local_id: Id256, enr_seq: u64) -> bool {
    &&& s.wf()
    &&& s.network == network
    &&& s.tag@ == tag
    &&& s.local_id == local_id
    &&& s.enr_seq == enr_seq
    &&& s.config == default_config()
    &&& s.store@.len() == 0
    &&& s.store.capacity == STORE_CAPACITY
    &&& s.store.max_payload == MAX_STORED_PAYLOAD
    &&& s.store.spec_radius() == max_seq(32)
    &&& s.routing.peers@.len() == 0
    &&& s.routing.capacity == ROUTING_CAPACITY
    &&& s.routing.max_failures == MAX_PING_FAILURES
    &&& s.requests.entries@.len() == 0
    &&& s.requests.next_id == 0
    &&& s.uploads@.len() == 0
    &&& s.next_connection_id == 0
}

/// A fresh session of `network` under `tag` for the node `local_id`, with
/// the default limits and timeouts.
pub fn create_overlay<R>(network: Subnetwork, tag: Vec<u8>, local_id: Id256, enr_seq: u64) -> (s:
    OverlaySession<R>)
    ensures
        fresh_session(s, network, tag@, local_id, enr_seq),
{
    let config = SessionConfig {
        max_inline: MAX_INLINE_PAYLOAD,
        peer_timeout: QUERY_PEER_TIMEOUT_MS,
        transfer_timeout: QUERY_TIMEOUT_MS,
        max_nodes: MAX_NODES_PER_ANSWER,
    };
    OverlaySession::new(
        network,
        tag,
        local_id,
        enr_seq,
        config,
        STORE_CAPACITY,
        MAX_STORED_PAYLOAD,
        ROUTING_CAPACITY,
        MAX_PING_FAILURES,
    )
}

/// A fresh DAS session for the node `local_id`.
pub fn create_das_overlay<R>(local_id: Id256, enr_seq: u64) -> (s: OverlaySession<R>)
    ensures
        fresh_session(s, Subnetwork::Das, das_tag(), local_id, enr_seq),
{
    create_overlay(Subnetwork::Das, das_protocol_tag(), local_id, enr_seq)
}

/// A fresh Secure-DAS session for the node `local_id`.
pub fn create_secure_das_overlay<R>(local_id: Id256, enr_seq: u64) -> (s: OverlaySession<R>)
    ensures
        fresh_session(s, Subnetwork::SecureDas, secure_das_tag(), local_id, enr_seq),
{
    create_overlay(Subnetwork::SecureDas, secure_das_protocol_tag(), local_id, enr_seq)
}

/// A lookup towards `target` by the node `local_id`, begun at `now` from
/// the peers `seeds`: it ends at the latest `QUERY_TIMEOUT_MS` later
/// (saturating).
pub fn start_lookup(target: Id256, local_id: Id256, seeds: &Vec<Id256>, now: u64) -> (l: Lookup)
    ensures
        l.wf(),
        l.target == target,
        l.local_id == local_id,
        l.max_results == QUERY_NUM_RESULTS,
        l.parallelism == QUERY_PARALLELISM,
        l.deadline == now.saturating_add(QUERY_TIMEOUT_MS),
        l.candidates@ == spec_add_all(Seq::empty(), target, local_id, QUERY_NUM_RESULTS, seeds@),
        l.round_best is None,
        !l.stalled,
{
    Lookup::new(target, local_id, QUERY_NUM_RESULTS, QUERY_PARALLELISM, now.saturating_add(QUERY_TIMEOUT_MS), seeds)
}

/// One node: its id and its sessions, one per subnetwork.
pub struct DASNode<R> {
    pub node_id: Id256,
    pub overlays: Registry<R>,
    pub samples: [u8; 8],
    pub handled_ids: i32,
}

impl<R> DASNode<R> {
    /// Well-formed: the registry is, and holds a DAS and a Secure-DAS
    /// session of this node.
    pub open spec fn wf(&self) -> bool {
        &&& self.overlays.wf()
        &&& self.overlays.sessions@.len() == 2
        &&& self.overlays.sessions@[0].tag@ == das_tag()
        &&& self.overlays.sessions@[0].network == Subnetwork::Das
        &&& self.overlays.sessions@[1].tag@ == secure_das_tag()
        &&& self.overlays.sessions@[1].network == Subnetwork::SecureDas
        &&& forall|i: int| 0 <= i < 2 ==> (#[trigger] self.overlays.sessions@[i]).local_id == self.node_id
    }

    /// A node `node_id` with a fresh session for each subnetwork.
    pub fn new(node_id: Id256, enr_seq: u64) -> (n: DASNode<R>)
        ensures
            n.wf(),
            n.node_id == node_id,
            n.handled_ids == 0,
            n.samples@ == seq![0u8, 0u8, 0u8, 0u8, 0u8, 0u8, 0u8, 0u8],
            fresh_session(n.overlays.sessions@[0], Subnetwork::Das, das_tag(), node_id, enr_seq),
            fresh_session(n.overlays.sessions@[1], Subnetwork::SecureDas, secure_das_tag(), node_id, enr_seq),
            has_tag(n.overlays.sessions@, das_tag()),
            has_tag(n.overlays.sessions@, secure_das_tag()),
    {
        let mut overlays: Registry<R> = Registry::new();
        let das = create_das_overlay(node_id, enr_seq);
        let secure = create_secure_das_overlay(node_id, enr_seq);
        let r1 = overlays.register(das);
        assert(!has_tag(Seq::<OverlaySession<R>>::empty(), das_tag()));
        let r2 = overlays.register(secure);
        proof {
            reveal_with_fuel(has_tag, 1);
            assert(overlays.sessions@[0].tag@ == das_tag());
            assert(das_tag() != secure_das_tag()) by {
                assert(das_tag().len() != secure_das_tag().len());
            }
            assert(overlays.sessions@.len() == 2);
        }
        let samples: [u8; 8] = [0u8; 8];
        assert(samples@ =~= seq![0u8, 0u8, 0u8, 0u8, 0u8, 0u8, 0u8, 0u8]);
        let n = DASNode { node_id, overlays, samples, handled_ids: 0 };
        assert(n.overlays.sessions@[0].tag@ == das_tag());
        assert(n.overlays.sessions@[1].tag@ == secure_das_tag());
        n
    }
}

/// Builds the nodes of the simulation, one per id, in order.
pub fn run_nodes<R>(node_ids: &Vec<Id256>) -> (nodes: Vec<DASNode<R>>)
    ensures
        nodes@.len() == node_ids@.len(),
        forall|i: int| 0 <= i < nodes@.len() ==> (#[trigger] nodes@[i]).wf() && nodes@[i].node_id == node_ids@[i],
{
    let mut nodes: Vec<DASNode<R>> = Vec::new();
    let mut i: usize = 0;
    while i < node_ids.len()
        invariant
            i <= node_ids@.len(),
            nodes@.len() == i,
            forall|j: int| 0 <= j < i ==> (#[trigger] nodes@[j]).wf() && nodes@[j].node_id == node_ids@[j],
        decreases node_ids@.len() - i,
    {
        nodes.push(DASNode::new(node_ids[i], 1));
        i += 1;
    }
    nodes
}

/// Relies on `rand::thread_rng` and `Rng::gen_range`: a value drawn from
/// `0..bound`, which must not be empty.
#[verifier::external_body]
fn random_below(bound: usize) -> (r: usize)
    requires
        bound > 0,
    ensures
        r < bound,
{
    rand::thread_rng().gen_range(0..bound)
}

/// The choice of the peers with which one node seeds its discovery table:
/// distinct other nodes, chosen at random until enough were added.
pub struct PeerSeeding {
    pub local_index: usize,
    pub node_count: usize,
    /// Peers still to add.
    pub remaining: usize,
    /// Nodes added so far.
    pub used: Vec<usize>,
}

impl PeerSeeding {
    pub open spec fn wf(&self) -> bool {
        &&& forall|i: int| 0 <= i < self.used@.len() ==> (#[trigger] self.used@[i]) != self.local_index
            && self.used@[i] < self.node_count
        &&& forall|i: int, j: int|
            0 <= i < j < self.used@.len() ==> (#[trigger] self.used@[i]) != (#[trigger] self.used@[j])
    }

    /// Seeding of node `local_index` among `node_count` nodes with `count`
    /// peers.
    pub fn new(local_index: usize, node_count: usize, count: usize) -> (s: PeerSeeding)
        ensures
            s.wf(),
            s.local_index == local_index,
            s.node_count == node_count,
            s.remaining == count,
            s.used@.len() == 0,
    {
        PeerSeeding { local_index, node_count, remaining: count, used: Vec::new() }
    }

    /// Whether enough peers were added.
    pub fn is_done(&self) -> (r: bool)
        ensures
            r == (self.remaining == 0),
    {
        self.remaining == 0
    }

    /// Whether node `candidate` may be added: another node, in range, not
    /// added yet.
    pub fn accepts(&self, candidate: usize) -> (r: bool)
        ensures
            r == (candidate != self.local_index && candidate < self.node_count && !self.used@.contains(
                candidate,
            )),
    {
        if candidate == self.local_index || candidate >= self.node_count {
            return false;
        }
        let mut i: usize = 0;
        while i < self.used.len()
            invariant
                i <= self.used@.len(),
                forall|j: int| 0 <= j < i ==> self.used@[j] != candidate,
            decreases self.used@.len() - i,
        {
            if self.used[i] == candidate {
                assert(self.used@[i as int] == candidate);
                return false;
            }
            i += 1;
        }
        true
    }

    /// A node drawn at random, to be offered to `accepts`.
    pub fn draw_candidate(&self) -> (r: usize)
        requires
            self.node_count > 0,
        ensures
            r < self.node_count,
    {
        random_below(self.node_count)
    }

    /// Notes whether adding the accepted node `candidate` to the discovery
    /// table succeeded: if so it counts as one of the peers.
    pub fn record(&mut self, candidate: usize, added: bool)
        requires
            old(self).wf(),
            candidate != old(self).local_index,
            candidate < old(self).node_count,
            !old(self).used@.contains(candidate),
        ensures
            final(self).wf(),
            final(self).local_index == old(self).local_index,
            final(self).node_count == old(self).node_count,
            added && old(self).remaining > 0 ==> final(self).used@ == old(self).used@.push(candidate)
                && final(self).remaining == old(self).remaining - 1,
            !(added && old(self).remaining > 0) ==> final(self).used@ == old(self).used@
                && final(self).remaining == old(self).remaining,
    {
        if added && self.remaining > 0 {
            self.used.push(candidate);
            self.remaining = self.remaining - 1;
            proof {
                let u = self.used@;
                assert forall|i: int, j: int| 0 <= i < j < u.len() implies (#[trigger] u[i]) != (#[trigger] u[j]) by {
                    if j == u.len() - 1 {
                        assert(old(self).used@[i] == u[i]);
                    }
                }
            }
        }
    }
}

} // verus!
