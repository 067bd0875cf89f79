//! The routing table of one session: known peers by node id, with their
//! consecutive liveness failures, queried by distance.
use vstd::prelude::*;
use crate::distance::{Id256, xor_seq, lex_lt, log2_seq, distance, id_eq, id_lt, log2_distance,
    lemma_lex_transitive, lemma_lex_total, lemma_lex_irreflexive, lemma_distance_injective};

verus! {

/// A known peer.
#[derive(Clone, Copy, Debug, PartialEq, Eq)]
pub struct PeerEntry {
    pub id: Id256,
    /// Liveness checks failed in a row.
    pub failures: u32,
}

/// What `insert` did.
#[derive(Clone, Copy, Debug, PartialEq, Eq)]
pub enum InsertOutcome {
    Inserted,
    AlreadyPresent,
    /// The local node is never its own peer.
    LocalNode,
    TableFull,
}

/// Whether some entry of `s` is the peer `id`.
pub open spec fn has_peer(s: Seq<PeerEntry>, id: Id256) -> bool {
    exists|i: int| 0 <= i < s.len() && (#[trigger] s[i]).id == id
}

/// Distance of `x` from `t`.
pub open spec fn dist(t: Id256, x: Id256) -> Seq<u8> {
    xor_seq(t@, x@)
}

/// The ids of the entries of `s`, in order.
pub open spec fn peer_ids(s: Seq<PeerEntry>) -> Seq<Id256> {
    Seq::new(s.len(), |i: int| s[i].id)
}

/// The ids of the entries of `s` at one of the logarithmic distances `ds`
/// from `local`, in order.
pub open spec fn ids_at_distances(s: Seq<PeerEntry>, local: Id256, ds: Seq<u16>) -> Seq<Id256> {
    peer_ids(s).filter(|id: Id256| ds.contains(log2_seq(dist(local, id)) as u16))
}

/// At most the first `n` items of `s`.
pub open spec fn first_n<A>(s: Seq<A>, n: int) -> Seq<A> {
    if s.len() <= n {
        s
    } else {
        s.take(n)
    }
}

/// `r` lists distinct peers of `s` nearest to `target` first, and every peer
/// of `s` left out is farther from `target` than every peer listed.
pub open spec fn nearest_first(s: Seq<PeerEntry>, target: Id256, r: Seq<Id256>) -> bool {
    &&& forall|i: int, j: int|
        0 <= i < j < r.len() ==> lex_lt(dist(target, #[trigger] r[i]), dist(target, #[trigger] r[j]))
    &&& forall|i: int| 0 <= i < r.len() ==> has_peer(s, #[trigger] r[i])
    &&& forall|p: int, i: int|
        0 <= p < s.len() && !r.contains(s[p].id) && 0 <= i < r.len() ==> lex_lt(
            dist(target, #[trigger] r[i]),
            dist(target, (#[trigger] s[p]).id),
        )
}

/// Position of the peer `id` in `s`, when it is there.
pub open spec fn peer_index(s: Seq<PeerEntry>, id: Id256) -> int {
    choose|i: int| 0 <= i < s.len() && s[i].id == id
}

/// The entries after adding `id`, and what the addition did.
pub open spec fn spec_insert(s: Seq<PeerEntry>, local: Id256, capacity: usize, id: Id256) -> (Seq<
    PeerEntry,
>, InsertOutcome) {
    if id == local {
        (s, InsertOutcome::LocalNode)
    } else if has_peer(s, id) {
        (s, InsertOutcome::AlreadyPresent)
    } else if s.len() >= capacity {
        (s, InsertOutcome::TableFull)
    } else {
        (s.push(PeerEntry { id, failures: 0 }), InsertOutcome::Inserted)
    }
}

/// The entries after adding each of `ids` in turn.
pub open spec fn spec_insert_all(s: Seq<PeerEntry>, local: Id256, capacity: usize, ids: Seq<Id256>) -> Seq<
    PeerEntry,
>
    decreases ids.len(),
{
    if ids.len() == 0 {
        s
    } else {
        spec_insert(spec_insert_all(s, local, capacity, ids.drop_last()), local, capacity, ids.last()).0
    }
}

/// The entries after a passed liveness check of `id`.
pub open spec fn spec_success(s: Seq<PeerEntry>, id: Id256) -> Seq<PeerEntry> {
    if has_peer(s, id) {
        s.update(peer_index(s, id), PeerEntry { id, failures: 0 })
    } else {
        s
    }
}

/// The entries after a failed liveness check of `id`, and whether it was
/// dropped.
pub open spec fn spec_failure(s: Seq<PeerEntry>, max_failures: u32, id: Id256) -> (Seq<PeerEntry>, bool) {
    if has_peer(s, id) {
        let i = peer_index(s, id);
        let f = s[i].failures.saturating_add(1);
        if f >= max_failures {
            (s.remove(i), true)
        } else {
            (s.update(i, PeerEntry { id, failures: f }), false)
        }
    } else {
        (s, false)
    }
}

/// The entries after a failed liveness check of each of `ids` in turn.
pub open spec fn spec_failures(s: Seq<PeerEntry>, max_failures: u32, ids: Seq<Id256>) -> Seq<PeerEntry>
    decreases ids.len(),
{
    if ids.len() == 0 {
        s
    } else {
        spec_failure(spec_failures(s, max_failures, ids.drop_last()), max_failures, ids.last()).0
    }
}

/// The known peers of one session.
pub struct RoutingTable {
    pub local_id: Id256,
    /// Largest number of peers held.
    pub capacity: usize,
    /// Failed liveness checks in a row after which a peer is dropped.
    pub max_failures: u32,
    pub peers: Vec<PeerEntry>,
}

impl RoutingTable {
    /// Well-formed: peers are distinct, the local node is not among them, and
    /// their number is within capacity.
    pub open spec fn wf(&self) -> bool {
        &&& self.peers@.len() <= self.capacity
        &&& forall|i: int, j: int|
            0 <= i < self.peers@.len() && 0 <= j < self.peers@.len() && i != j ==> (#[trigger] self.peers@[i]).id
                != (#[trigger] self.peers@[j]).id
        &&& !has_peer(self.peers@, self.local_id)
    }

    /// An empty table for the node `local_id`.
    pub fn new(local_id: Id256, capacity: usize, max_failures: u32) -> (t: RoutingTable)
        ensures
            t.wf(),
            t.peers@.len() == 0,
            t.local_id == local_id,
            t.capacity == capacity,
            t.max_failures == max_failures,
    {
        RoutingTable { local_id, capacity, max_failures, peers: Vec::new() }
    }

    /// Number of peers held.
    pub fn len(&self) -> (n: usize)
        ensures
            n == self.peers@.len(),
    {
        self.peers.len()
    }

    fn position(&self, id: &Id256) -> (r: Option<usize>)
        ensures
            match r {
                Some(i) => i < self.peers@.len() && self.peers@[i as int].id == *id,
                None => !has_peer(self.peers@, *id),
            },
    {
        let mut i: usize = 0;
        while i < self.peers.len()
            invariant
                i <= self.peers@.len(),
                forall|j: int| 0 <= j < i ==> (#[trigger] self.peers@[j]).id != *id,
            decreases self.peers@.len() - i,
        {
            if id_eq(&self.peers[i].id, id) {
                assert(self.peers@[i as int].id =~= *id);
                return Some(i);
            }
            i += 1;
        }
        None
    }

    /// Whether `id` is a known peer.
    pub fn contains(&self, id: &Id256) -> (r: bool)
        ensures
            r == has_peer(self.peers@, *id),
    {
        self.position(id).is_some()
    }

    /// Adds the peer `id`, with no failures, unless it is the local node, is
    /// known already, or the table is full.
    pub fn insert(&mut self, id: Id256) -> (r: InsertOutcome)
        requires
            old(self).wf(),
        ensures
            final(self).wf(),
            final(self).local_id == old(self).local_id,
            final(self).capacity == old(self).capacity,
            final(self).max_failures == old(self).max_failures,
            (final(self).peers@, r) == spec_insert(old(self).peers@, old(self).local_id, old(self).capacity, id),
    {
        if id_eq(&id, &self.local_id) {
            assert(id =~= self.local_id);
            return InsertOutcome::LocalNode;
        }
        if self.position(&id).is_some() {
            return InsertOutcome::AlreadyPresent;
        }
        if self.peers.len() >= self.capacity {
            return InsertOutcome::TableFull;
        }
        self.peers.push(PeerEntry { id, failures: 0 });
        InsertOutcome::Inserted
    }

    /// Adds each of `ids` in turn, as `insert` does.
    pub fn insert_all(&mut self, ids: &Vec<Id256>)
        requires
            old(self).wf(),
        ensures
            final(self).wf(),
            final(self).local_id == old(self).local_id,
            final(self).capacity == old(self).capacity,
            final(self).max_failures == old(self).max_failures,
            final(self).peers@ == spec_insert_all(old(self).peers@, old(self).local_id, old(self).capacity, ids@),
    {
        let mut i: usize = 0;
        while i < ids.len()
            invariant
                i <= ids@.len(),
                self.wf(),
                self.local_id == old(self).local_id,
                self.capacity == old(self).capacity,
                self.max_failures == old(self).max_failures,
                self.peers@ == spec_insert_all(old(self).peers@, self.local_id, self.capacity, ids@.subrange(0, i as int)),
            decreases ids@.len() - i,
        {
            self.insert(ids[i]);
            assert(ids@.subrange(0, i + 1).drop_last() =~= ids@.subrange(0, i as int));
            i += 1;
        }
        assert(ids@.subrange(0, i as int) =~= ids@);
    }

    /// Index of the peer `id`, known to be present.
    proof fn lemma_index_unique(&self, id: Id256, i: int)
        requires
            self.wf(),
            0 <= i < self.peers@.len(),
            self.peers@[i].id == id,
        ensures
            has_peer(self.peers@, id),
            peer_index(self.peers@, id) == i,
    {
        assert(has_peer(self.peers@, id));
    }

    /// Notes a passed liveness check of `id`: its failure count goes back to
    /// zero. Unknown peers are ignored.
    pub fn record_success(&mut self, id: &Id256)
        requires
            old(self).wf(),
        ensures
            final(self).wf(),
            final(self).local_id == old(self).local_id,
            final(self).capacity == old(self).capacity,
            final(self).max_failures == old(self).max_failures,
            final(self).peers@ == spec_success(old(self).peers@, *id),
    {
        match self.position(id) {
            Some(i) => {
                proof {
                    self.lemma_index_unique(*id, i as int);
                }
                self.peers.set(i, PeerEntry { id: *id, failures: 0 });
            },
            None => {},
        }
    }

    /// Notes a failed liveness check of `id`. Once it has failed
    /// `max_failures` times in a row it is dropped, and `true` comes back.
    /// Unknown peers are ignored.
    pub fn record_failure(&mut self, id: &Id256) -> (dropped: bool)
        requires
            old(self).wf(),
        ensures
            final(self).wf(),
            final(self).local_id == old(self).local_id,
            final(self).capacity == old(self).capacity,
            final(self).max_failures == old(self).max_failures,
            (final(self).peers@, dropped) == spec_failure(old(self).peers@, old(self).max_failures, *id),
    {
        match self.position(id) {
            Some(i) => {
                proof {
                    self.lemma_index_unique(*id, i as int);
                }
                let f = self.peers[i].failures.saturating_add(1);
                if f >= self.max_failures {
                    self.peers.remove(i);
                    true
                } else {
                    self.peers.set(i, PeerEntry { id: *id, failures: f });
                    false
                }
            },
            None => false,
        }
    }

    /// Notes a failed liveness check of each of `ids` in turn, as
    /// `record_failure` does.
    pub fn record_failures(&mut self, ids: &Vec<Id256>)
        requires
            old(self).wf(),
        ensures
            final(self).wf(),
            final(self).local_id == old(self).local_id,
            final(self).capacity == old(self).capacity,
            final(self).max_failures == old(self).max_failures,
            final(self).peers@ == spec_failures(old(self).peers@, old(self).max_failures, ids@),
    {
        let mut i: usize = 0;
        while i < ids.len()
            invariant
                i <= ids@.len(),
                self.wf(),
                self.local_id == old(self).local_id,
                self.capacity == old(self).capacity,
                self.max_failures == old(self).max_failures,
                self.peers@ == spec_failures(old(self).peers@, self.max_failures, ids@.subrange(0, i as int)),
            decreases ids@.len() - i,
        {
            self.record_failure(&ids[i]);
            assert(ids@.subrange(0, i + 1).drop_last() =~= ids@.subrange(0, i as int));
            i += 1;
        }
        assert(ids@.subrange(0, i as int) =~= ids@);
    }

    /// The ids of all known peers, in table order.
    pub fn peer_ids(&self) -> (r: Vec<Id256>)
        ensures
            r@ == peer_ids(self.peers@),
    {
        let mut r: Vec<Id256> = Vec::new();
        let mut i: usize = 0;
        while i < self.peers.len()
            invariant
                i <= self.peers@.len(),
                r@ == peer_ids(self.peers@.subrange(0, i as int)),
            decreases self.peers@.len() - i,
        {
            r.push(self.peers[i].id);
            i += 1;
            assert(r@ =~= peer_ids(self.peers@.subrange(0, i as int)));
        }
        assert(self.peers@.subrange(0, i as int) =~= self.peers@);
        r
    }

    /// Up to `limit` known peers at one of the logarithmic distances
    /// `distances` from the local node, in table order.
    pub fn nodes_at_distances(&self, distances: &[u16], limit: usize) -> (r: Vec<Id256>)
        ensures
            r@ == first_n(ids_at_distances(self.peers@, self.local_id, distances@), limit as int),
    {
        let ghost pred = |id: Id256| distances@.contains(log2_seq(dist(self.local_id, id)) as u16);
        let ghost all = peer_ids(self.peers@);
        let mut r: Vec<Id256> = Vec::new();
        let mut i: usize = 0;
        assert(all.subrange(0, 0).filter(pred) =~= Seq::<Id256>::empty()) by {
            reveal(Seq::filter);
        }
        while i < self.peers.len() && r.len() < limit
            invariant
                i <= self.peers@.len(),
                all == peer_ids(self.peers@),
                pred == (|id: Id256| distances@.contains(log2_seq(dist(self.local_id, id)) as u16)),
                r@ == all.subrange(0, i as int).filter(pred),
                r@.len() <= limit,
            decreases self.peers@.len() - i,
        {
            let id = self.peers[i].id;
            let d = log2_distance(&self.local_id, &id);
            let mut hit = false;
            let mut j: usize = 0;
            while j < distances.len()
                invariant
                    j <= distances@.len(),
                    hit == (exists|k: int| 0 <= k < j && distances@[k] == d),
                decreases distances@.len() - j,
            {
                if distances[j] == d {
                    hit = true;
                }
                j += 1;
            }
            proof {
                assert(all.subrange(0, i + 1) =~= all.subrange(0, i as int).push(id));
                reveal(Seq::filter);
                assert(all.subrange(0, i + 1).drop_last() =~= all.subrange(0, i as int));
                assert(hit == pred(id));
            }
            if hit {
                r.push(id);
            }
            i += 1;
        }
        proof {
            broadcast use vstd::seq_lib::group_filter_ensures;

            let k = i as int;
            assert(all =~= all.subrange(0, k) + all.subrange(k, all.len() as int));
            Seq::filter_distributes_over_add(
                all.subrange(0, k),
                all.subrange(k, all.len() as int),
                pred,
            );
            if k == all.len() {
                assert(all.subrange(k, all.len() as int).filter(pred) =~= Seq::<Id256>::empty()) by {
                    reveal(Seq::filter);
                }
                assert(all.subrange(0, k) =~= all);
            } else {
                assert(r@.len() == limit);
                assert(all.filter(pred).take(limit as int) =~= r@);
            }
        }
        r
    }

    /// Up to `k` known peers nearest to `target`, nearest first.
    pub fn closest(&self, target: &Id256, k: usize) -> (r: Vec<Id256>)
        requires
            self.wf(),
        ensures
            r@.len() <= k,
            nearest_first(self.peers@, *target, r@),
            r@.len() < k ==> forall|p: int|
                0 <= p < self.peers@.len() ==> r@.contains(#[trigger] self.peers@[p].id),
    {
        let ghost s = self.peers@;
        let mut r: Vec<Id256> = Vec::new();
        let mut done = false;
        while r.len() < k && !done
            invariant
                s == self.peers@,
                self.wf(),
                r@.len() <= k,
                forall|i: int, j: int|
                    0 <= i < j < r@.len() ==> lex_lt(dist(*target, #[trigger] r@[i]), dist(*target, #[trigger] r@[j])),
                forall|i: int| 0 <= i < r@.len() ==> has_peer(s, #[trigger] r@[i]),
                forall|p: int|
                    0 <= p < s.len() ==> (r@.contains(#[trigger] s[p].id) <==> (r@.len() > 0 && !lex_lt(
                        dist(*target, r@.last()),
                        dist(*target, s[p].id),
                    ))),
                done ==> forall|p: int| 0 <= p < s.len() ==> r@.contains(#[trigger] s[p].id),
            decreases k - r@.len(), if done { 0int } else { 1int },
        {
            let has_last = r.len() > 0;
            let mut last_d: Id256 = [0u8; 32];
            if has_last {
                last_d = distance(target, &r[r.len() - 1]);
            }
            // The nearest peer beyond the last one chosen.
            let mut best: usize = 0;
            let mut found = false;
            let mut best_d: Id256 = [0u8; 32];
            let mut i: usize = 0;
            while i < self.peers.len()
                invariant
                    s == self.peers@,
                    i <= s.len(),
                    has_last == (r@.len() > 0),
                    has_last ==> last_d@ == dist(*target, r@.last()),
                    found ==> best < i && best_d@ == dist(*target, s[best as int].id) && (!has_last
                        || lex_lt(last_d@, best_d@)),
                    forall|j: int|
                        0 <= j < i && (!has_last || lex_lt(last_d@, dist(*target, (#[trigger] s[j]).id))) ==> found
                            && !lex_lt(dist(*target, s[j].id), best_d@),
                decreases s.len() - i,
            {
                let d = distance(target, &self.peers[i].id);
                if !has_last || id_lt(&last_d, &d) {
                    if !found || id_lt(&d, &best_d) {
                        proof {
                            assert forall|j: int|
                                0 <= j < i && (!has_last || lex_lt(last_d@, dist(*target, (#[trigger] s[j]).id))) implies !lex_lt(
                                dist(*target, s[j].id),
                                d@,
                            ) by {
                                if found && lex_lt(dist(*target, s[j].id), d@) {
                                    lemma_lex_transitive(dist(*target, s[j].id), d@, best_d@);
                                }
                            }
                            lemma_lex_irreflexive(d@);
                        }
                        best = i;
                        best_d = d;
                        found = true;
                    }
                }
                i += 1;
            }
            if !found {
                proof {
                    assert forall|p: int| 0 <= p < s.len() implies r@.contains(#[trigger] s[p].id) by {
                        assert(p < i);
                        let sp = s[p];
                        assert(0 <= p < i && (!has_last || lex_lt(last_d@, dist(*target, sp.id))) ==> found);
                        assert(!has_last ==> !(r@.len() > 0));
                        assert(!(!has_last || lex_lt(last_d@, dist(*target, sp.id))));
                    }
                }
                done = true;
            } else {
                let ghost old_r = r@;
                let id = self.peers[best].id;
                r.push(id);
                proof {
                    let db = dist(*target, id);
                    assert(r@.last() == id);
                    assert forall|i: int, j: int|
                        0 <= i < j < r@.len() implies lex_lt(dist(*target, #[trigger] r@[i]), dist(*target, #[trigger] r@[j])) by {
                        if j == r@.len() - 1 && i < j {
                            assert(r@[i] == old_r[i]);
                            if i < old_r.len() - 1 {
                                assert(lex_lt(dist(*target, old_r[i]), dist(*target, old_r.last())));
                                lemma_lex_transitive(dist(*target, old_r[i]), last_d@, db);
                            }
                        } else {
                            assert(r@[i] == old_r[i]);
                            assert(r@[j] == old_r[j]);
                        }
                    }
                    assert forall|i: int| 0 <= i < r@.len() implies has_peer(s, #[trigger] r@[i]) by {
                        if i == r@.len() - 1 {
                            assert(s[best as int].id == id);
                        } else {
                            assert(r@[i] == old_r[i]);
                        }
                    }
                    assert forall|p: int| 0 <= p < s.len() implies (r@.contains(#[trigger] s[p].id) <==> !lex_lt(
                        db,
                        dist(*target, s[p].id),
                    )) by {
                        let dp = dist(*target, s[p].id);
                        if r@.contains(s[p].id) {
                            let q = choose|q: int| 0 <= q < r@.len() && r@[q] == s[p].id;
                            if q == r@.len() - 1 {
                                lemma_lex_irreflexive(db);
                            } else {
                                assert(old_r[q] == s[p].id);
                                assert(old_r.contains(s[p].id));
                                if lex_lt(db, dp) {
                                    lemma_lex_transitive(last_d@, db, dp);
                                }
                            }
                        } else {
                            if !lex_lt(db, dp) {
                                assert(!old_r.contains(s[p].id)) by {
                                    if old_r.contains(s[p].id) {
                                        let q = choose|q: int| 0 <= q < old_r.len() && old_r[q] == s[p].id;
                                        assert(r@[q] == s[p].id);
                                    }
                                }
                                if has_last {
                                    lemma_lex_total(last_d@, dp);
                                }
                                assert(!lex_lt(dp, db));
                                lemma_lex_total(dp, db);
                                lemma_distance_injective(target@, s[p].id@, id@);
                                assert(s[p].id =~= id);
                                assert(r@[r@.len() - 1] == s[p].id);
                            }
                        }
                    }
                }
            }
        }
        proof {
            assert forall|p: int, i: int|
                0 <= p < s.len() && !r@.contains(s[p].id) && 0 <= i < r@.len() implies lex_lt(
                dist(*target, #[trigger] r@[i]),
                dist(*target, (#[trigger] s[p]).id),
            ) by {
                let dp = dist(*target, s[p].id);
                lemma_lex_total(dist(*target, r@.last()), dp);
                if i < r@.len() - 1 {
                    lemma_lex_transitive(dist(*target, r@[i]), dist(*target, r@.last()), dp);
                }
            }
        }
        r
    }
}

} // verus!
