//! The iterative lookup: a bounded set of candidates sorted by distance to
//! a target, queried a few at a time, refined by each answer, until nothing
//! is left to ask, enough peers answered, or the deadline passes.
use vstd::prelude::*;
use crate::distance::{Id256, lex_lt, lex_le, lemma_lex_transitive, lemma_lex_le_transitive, lemma_lex_total, lemma_lex_irreflexive,
    lemma_distance_injective, is_nearer, id_eq};
use crate::routing::dist;

verus! {

/// Where a candidate of a lookup stands.
#[derive(Clone, Copy, Debug, PartialEq, Eq, Structural)]
pub enum CandidateState {
    NotContacted,
    Waiting,
    Succeeded,
    Failed,
}

/// A peer the lookup knows of.
#[derive(Clone, Copy, Debug, PartialEq, Eq)]
pub struct Candidate {
    pub id: Id256,
    pub state: CandidateState,
}

/// Candidates sorted strictly by distance to `target`, nearest first.
pub open spec fn sorted_by(target: Id256, s: Seq<Candidate>) -> bool {
    forall|i: int, j: int| 0 <= i < j < s.len() ==> lex_lt(dist(target, #[trigger] s[i].id), dist(target, #[trigger] s[j].id))
}

/// Whether the peer `id` is a candidate of `s`.
pub open spec fn has_candidate(s: Seq<Candidate>, id: Id256) -> bool {
    exists|i: int| 0 <= i < s.len() && (#[trigger] s[i]).id == id
}

/// Where `id` goes in `s`: after every candidate nearer to `target`.
pub open spec fn insert_pos(s: Seq<Candidate>, target: Id256, id: Id256) -> int
    decreases s.len(),
{
    if s.len() == 0 {
        0
    } else if lex_lt(dist(target, s[0].id), dist(target, id)) {
        1 + insert_pos(s.drop_first(), target, id)
    } else {
        0
    }
}

/// The candidates after learning of `id`: it takes its place by distance,
/// and the farthest candidate drops out when there are more than `max`.
pub open spec fn spec_add(s: Seq<Candidate>, target: Id256, local: Id256, max: usize, id: Id256) -> Seq<Candidate> {
    if id == local || has_candidate(s, id) {
        s
    } else {
        let t = s.insert(insert_pos(s, target, id), Candidate { id, state: CandidateState::NotContacted });
        if t.len() > max {
            t.take(max as int)
        } else {
            t
        }
    }
}

/// The candidates after learning of each of `ids` in turn.
pub open spec fn spec_add_all(s: Seq<Candidate>, target: Id256, local: Id256, max: usize, ids: Seq<Id256>) -> Seq<Candidate>
    decreases ids.len(),
{
    if ids.len() == 0 {
        s
    } else {
        spec_add(spec_add_all(s, target, local, max, ids.drop_last()), target, local, max, ids.last())
    }
}

/// Position of the candidate `id`, when it is one.
pub open spec fn candidate_index(s: Seq<Candidate>, id: Id256) -> int {
    choose|i: int| 0 <= i < s.len() && s[i].id == id
}

/// The candidates after the peer `id` moved to `state`.
pub open spec fn spec_mark(s: Seq<Candidate>, id: Id256, state: CandidateState) -> Seq<Candidate> {
    if has_candidate(s, id) {
        s.update(candidate_index(s, id), Candidate { id, state })
    } else {
        s
    }
}

/// Ids of the candidates not contacted yet, in order.
pub open spec fn fresh_ids(s: Seq<Candidate>) -> Seq<Id256> {
    let f = s.filter(|c: Candidate| c.state == CandidateState::NotContacted);
    Seq::new(f.len(), |k: int| f[k].id)
}

/// Ids of the candidates that answered, in order.
pub open spec fn succeeded_ids(s: Seq<Candidate>) -> Seq<Id256> {
    let f = s.filter(|c: Candidate| c.state == CandidateState::Succeeded);
    Seq::new(f.len(), |k: int| f[k].id)
}

/// Whether a round that began with `best` as the nearest candidate ended,
/// with candidates `c`, without finding anything nearer.
pub open spec fn round_stalled(target: Id256, c: Seq<Candidate>, best: Id256) -> bool {
    c.len() == 0 || !lex_lt(dist(target, c[0].id), dist(target, best))
}

/// Candidates waiting for an answer.
pub open spec fn waiting_count(c: Seq<Candidate>) -> nat {
    c.filter(|x: Candidate| x.state == CandidateState::Waiting).len()
}

/// The best distance known after adding a peer is no worse than before:
/// the lookup never moves away from its target.
pub proof fn lemma_best_never_worsens(s: Seq<Candidate>, target: Id256, local: Id256, max: usize, id: Id256)
    requires
        sorted_by(target, s),
        s.len() > 0,
        max > 0,
    ensures
        spec_add(s, target, local, max, id).len() > 0,
        lex_le(dist(target, spec_add(s, target, local, max, id)[0].id), dist(target, s[0].id)),
{
    lemma_lex_irreflexive(dist(target, s[0].id));
    if !(id == local || has_candidate(s, id)) {
        let p = insert_pos(s, target, id);
        lemma_insert_pos_bounds(s, target, id);
        if p > 0 {
            assert(s.insert(p, Candidate { id, state: CandidateState::NotContacted })[0] == s[0]);
        } else {
            let c = Candidate { id, state: CandidateState::NotContacted };
            assert(s.insert(p, c)[0] == c);
            assert(!lex_lt(dist(target, s[0].id), dist(target, id)));
        }
    }
}

proof fn lemma_insert_pos_bounds(s: Seq<Candidate>, target: Id256, id: Id256)
    ensures
        0 <= insert_pos(s, target, id) <= s.len(),
        forall|j: int| 0 <= j < insert_pos(s, target, id) ==> lex_lt(dist(target, (#[trigger] s[j]).id), dist(target, id)),
        insert_pos(s, target, id) < s.len() ==> !lex_lt(dist(target, s[insert_pos(s, target, id)].id), dist(target, id)),
    decreases s.len(),
{
    if s.len() > 0 && lex_lt(dist(target, s[0].id), dist(target, id)) {
        lemma_insert_pos_bounds(s.drop_first(), target, id);
        assert forall|j: int| 0 <= j < insert_pos(s, target, id) implies lex_lt(dist(target, (#[trigger] s[j]).id), dist(target, id)) by {
            if j > 0 {
                assert(s[j] == s.drop_first()[j - 1]);
            }
        }
    }
}

/// One iterative lookup.
pub struct Lookup {
    pub target: Id256,
    pub local_id: Id256,
    /// Most candidates kept, and the number of answers that ends the lookup.
    pub max_results: usize,
    /// Most queries outstanding at once.
    pub parallelism: usize,
    /// The lookup ends once this time has come.
    pub deadline: u64,
    /// The candidates, nearest first.
    pub candidates: Vec<Candidate>,
    /// While a round of queries is out: the nearest candidate when it began.
    pub round_best: Option<Id256>,
    /// A round ended without finding a candidate nearer than that.
    pub stalled: bool,
}

impl Lookup {
    pub open spec fn wf(&self) -> bool {
        &&& sorted_by(self.target, self.candidates@)
        &&& self.candidates@.len() <= self.max_results
        &&& !has_candidate(self.candidates@, self.local_id)
    }

    /// A lookup for `target`, seeded with `seeds`.
    pub fn new(target: Id256, local_id: Id256, max_results: usize, parallelism: usize, deadline: u64, seeds: &Vec<Id256>) -> (l: Lookup)
        ensures
            l.wf(),
            l.target == target,
            l.local_id == local_id,
            l.max_results == max_results,
            l.parallelism == parallelism,
            l.deadline == deadline,
            l.candidates@ == spec_add_all(Seq::empty(), target, local_id, max_results, seeds@),
            l.round_best is None,
            !l.stalled,
    {
        let mut l = Lookup {
            target,
            local_id,
            max_results,
            parallelism,
            deadline,
            candidates: Vec::new(),
            round_best: None,
            stalled: false,
        };
        let mut i: usize = 0;
        assert(l.candidates@ =~= Seq::<Candidate>::empty());
        while i < seeds.len()
            invariant
                i <= seeds@.len(),
                l.candidates@ == spec_add_all(Seq::empty(), target, local_id, max_results, seeds@.subrange(0, i as int)),
                l.wf(),
                l.target == target,
                l.local_id == local_id,
                l.max_results == max_results,
                l.parallelism == parallelism,
                l.deadline == deadline,
                l.round_best is None,
                !l.stalled,
            decreases seeds@.len() - i,
        {
            l.add(seeds[i]);
            assert(seeds@.subrange(0, i + 1).drop_last() =~= seeds@.subrange(0, i as int));
            i += 1;
        }
        assert(seeds@.subrange(0, i as int) =~= seeds@);
        l
    }

    fn position(&self, id: &Id256) -> (r: Option<usize>)
        ensures
            match r {
                Some(i) => i < self.candidates@.len() && self.candidates@[i as int].id == *id,
                None => !has_candidate(self.candidates@, *id),
            },
    {
        let mut i: usize = 0;
        while i < self.candidates.len()
            invariant
                i <= self.candidates@.len(),
                forall|j: int| 0 <= j < i ==> (#[trigger] self.candidates@[j]).id != *id,
            decreases self.candidates@.len() - i,
        {
            if id_eq(&self.candidates[i].id, id) {
                assert(self.candidates@[i as int].id =~= *id);
                return Some(i);
            }
            i += 1;
        }
        None
    }

    /// Learns of the peer `id`: it joins the candidates in its place by
    /// distance, unless it is the local node or known already; the farthest
    /// candidate drops out when there are too many.
    pub fn add(&mut self, id: Id256)
        requires
            old(self).wf(),
        ensures
            final(self).wf(),
            final(self).target == old(self).target,
            final(self).local_id == old(self).local_id,
            final(self).max_results == old(self).max_results,
            final(self).parallelism == old(self).parallelism,
            final(self).deadline == old(self).deadline,
            final(self).candidates@ == spec_add(old(self).candidates@, old(self).target, old(self).local_id, old(self).max_results, id),
            final(self).round_best == old(self).round_best,
            final(self).stalled == old(self).stalled,
            old(self).candidates@.len() > 0 && old(self).max_results > 0 ==> final(self).candidates@.len() > 0
                && lex_le(dist(old(self).target, final(self).candidates@[0].id), dist(old(self).target, old(self).candidates@[0].id)),
    {
        proof {
            if old(self).candidates@.len() > 0 && old(self).max_results > 0 {
                lemma_best_never_worsens(old(self).candidates@, old(self).target, old(self).local_id, old(self).max_results, id);
            }
        }
        if id_eq(&id, &self.local_id) {
            assert(id =~= self.local_id);
            return;
        }
        if self.position(&id).is_some() {
            return;
        }
        let ghost s = self.candidates@;
        let target = self.target;
        let mut i: usize = 0;
        proof {
            assert(s.subrange(0, s.len() as int) =~= s);
        }
        while i < self.candidates.len() && is_nearer(&target, &self.candidates[i].id, &id)
            invariant
                s == self.candidates@,
                target == self.target,
                i <= s.len(),
                insert_pos(s, target, id) == i + insert_pos(s.subrange(i as int, s.len() as int), target, id),
            decreases s.len() - i,
        {
            proof {
                let rest = s.subrange(i as int, s.len() as int);
                assert(rest[0] == s[i as int]);
                assert(rest.drop_first() =~= s.subrange(i + 1, s.len() as int));
            }
            i += 1;
        }
        proof {
            let rest = s.subrange(i as int, s.len() as int);
            if i < s.len() {
                assert(rest[0] == s[i as int]);
            }
            assert(insert_pos(s, target, id) == i);
            lemma_insert_pos_bounds(s, target, id);
        }
        let c = Candidate { id, state: CandidateState::NotContacted };
        self.candidates.insert(i, c);
        proof {
            let t = self.candidates@;
            assert(t == s.insert(i as int, c));
            assert forall|a: int, b: int| 0 <= a < b < t.len() implies lex_lt(dist(target, #[trigger] t[a].id), dist(target, #[trigger] t[b].id)) by {
                let di = dist(target, id);
                if b < i {
                    assert(t[a] == s[a] && t[b] == s[b]);
                } else if b == i {
                    assert(t[a] == s[a] && t[b] == c);
                } else if a == i {
                    assert(t[b] == s[b - 1] && t[a] == c);
                    let ds = dist(target, s[i as int].id);
                    lemma_lex_total(ds, di);
                    if ds == di {
                        lemma_distance_injective(target@, s[i as int].id@, id@);
                        assert(s[i as int].id =~= id);
                        assert(has_candidate(s, id));
                    }
                    if b - 1 > i {
                        lemma_lex_transitive(di, ds, dist(target, s[b - 1].id));
                    }
                } else if a < i {
                    assert(t[a] == s[a] && t[b] == s[b - 1]);
                    let ds = dist(target, s[i as int].id);
                    lemma_lex_total(ds, di);
                    if ds == di {
                        lemma_distance_injective(target@, s[i as int].id@, id@);
                        assert(s[i as int].id =~= id);
                        assert(has_candidate(s, id));
                    }
                    lemma_lex_transitive(dist(target, s[a].id), di, ds);
                    if b - 1 > i {
                        lemma_lex_transitive(dist(target, s[a].id), ds, dist(target, s[b - 1].id));
                    }
                } else {
                    assert(t[a] == s[a - 1] && t[b] == s[b - 1]);
                }
            }
            assert(!has_candidate(t, self.local_id)) by {
                if has_candidate(t, self.local_id) {
                    let k = choose|k: int| 0 <= k < t.len() && t[k].id == self.local_id;
                    if k < i {
                        assert(t[k] == s[k]);
                    } else if k > i {
                        assert(t[k] == s[k - 1]);
                    }
                }
            }
        }
        if self.candidates.len() > self.max_results {
            self.candidates.truncate(self.max_results);
            proof {
                let t = s.insert(i as int, c);
                assert forall|k: int| 0 <= k < self.candidates@.len() implies #[trigger] self.candidates@[k] == t[k] by {}
                assert(!has_candidate(self.candidates@, self.local_id)) by {
                    if has_candidate(self.candidates@, self.local_id) {
                        let k = choose|k: int| 0 <= k < self.candidates@.len() && self.candidates@[k].id == self.local_id;
                        assert(t[k].id == self.local_id);
                    }
                }
            }
        }
    }

    /// Candidates waiting for an answer.
    pub fn waiting(&self) -> (n: usize)
        ensures
            n <= self.candidates@.len(),
            n == self.candidates@.filter(|c: Candidate| c.state == CandidateState::Waiting).len(),
    {
        let ghost pred = |c: Candidate| c.state == CandidateState::Waiting;
        let mut n: usize = 0;
        let mut i: usize = 0;
        proof {
            reveal(Seq::filter);
            assert(self.candidates@.subrange(0, 0).filter(pred) =~= Seq::<Candidate>::empty());
        }
        while i < self.candidates.len()
            invariant
                i <= self.candidates@.len(),
                pred == (|c: Candidate| c.state == CandidateState::Waiting),
                n == self.candidates@.subrange(0, i as int).filter(pred).len(),
                n <= i,
            decreases self.candidates@.len() - i,
        {
            proof {
                reveal(Seq::filter);
                assert(self.candidates@.subrange(0, i + 1).drop_last() =~= self.candidates@.subrange(0, i as int));
            }
            if self.candidates[i].state == CandidateState::Waiting {
                n += 1;
            }
            i += 1;
        }
        assert(self.candidates@.subrange(0, i as int) =~= self.candidates@);
        n
    }

    /// How many more queries the parallelism allows while `waiting` are
    /// outstanding.
    pub open spec fn room(&self, waiting: nat) -> int {
        if waiting >= self.parallelism {
            0
        } else {
            self.parallelism - waiting
        }
    }

    /// The peers to query now, nearest first: the candidates not contacted
    /// yet, as many as the parallelism leaves room for. They become waiting.
    pub fn next_queries(&mut self) -> (r: Vec<Id256>)
        requires
            old(self).wf(),
        ensures
            final(self).wf(),
            final(self).target == old(self).target,
            final(self).local_id == old(self).local_id,
            final(self).max_results == old(self).max_results,
            final(self).parallelism == old(self).parallelism,
            final(self).deadline == old(self).deadline,
            ({
                let s = old(self).candidates@;
                let room = old(self).room(s.filter(|c: Candidate| c.state == CandidateState::Waiting).len());
                &&& r@ == crate::routing::first_n(fresh_ids(s), room)
                &&& final(self).stalled == old(self).stalled
                &&& final(self).round_best == if waiting_count(s) == 0 && r@.len() > 0 && s.len() > 0 {
                    Some(s[0].id)
                } else {
                    old(self).round_best
                }
                &&& final(self).candidates@.len() == s.len()
                &&& forall|k: int|
                    0 <= k < s.len() ==> #[trigger] final(self).candidates@[k] == (if s[k].state
                        == CandidateState::NotContacted && fresh_ids(s.subrange(0, k)).len() < room {
                        Candidate { id: s[k].id, state: CandidateState::Waiting }
                    } else {
                        s[k]
                    })
            }),
    {
        let busy = self.waiting();
        let first: Option<Id256> = if self.candidates.len() > 0 { Some(self.candidates[0].id) } else { None };
        let room: usize = if busy >= self.parallelism { 0 } else { self.parallelism - busy };
        let mut r: Vec<Id256> = Vec::new();
        let mut i: usize = 0;
        let ghost s = self.candidates@;
        proof {
            reveal(Seq::filter);
            assert(fresh_ids(s.subrange(0, 0)) =~= Seq::<Id256>::empty());
        }
        while i < self.candidates.len()
            invariant
                self.target == old(self).target,
                self.local_id == old(self).local_id,
                self.max_results == old(self).max_results,
                self.parallelism == old(self).parallelism,
                self.deadline == old(self).deadline,
                self.round_best == old(self).round_best,
                self.stalled == old(self).stalled,
                s == old(self).candidates@,
                self.candidates@.len() == s.len(),
                i <= s.len(),
                r@ == crate::routing::first_n(fresh_ids(s.subrange(0, i as int)), room as int),
                forall|k: int| i <= k < s.len() ==> (#[trigger] self.candidates@[k]) == s[k],
                forall|k: int|
                    0 <= k < i ==> #[trigger] self.candidates@[k] == (if s[k].state == CandidateState::NotContacted
                        && fresh_ids(s.subrange(0, k)).len() < room {
                        Candidate { id: s[k].id, state: CandidateState::Waiting }
                    } else {
                        s[k]
                    }),
            decreases s.len() - i,
        {
            let ghost x = s.subrange(0, i as int);
            proof {
                reveal(Seq::filter);
                assert(s.subrange(0, i + 1).drop_last() =~= x);
                assert(s.subrange(0, i + 1).last() == s[i as int]);
            }
            if self.candidates[i].state == CandidateState::NotContacted && r.len() < room {
                let id = self.candidates[i].id;
                self.candidates.set(i, Candidate { id, state: CandidateState::Waiting });
                r.push(id);
                proof {
                    assert(fresh_ids(x).len() < room);
                    assert(r@ =~= crate::routing::first_n(fresh_ids(s.subrange(0, i + 1)), room as int));
                }
            } else {
                proof {
                    if s[i as int].state == CandidateState::NotContacted {
                        assert(fresh_ids(x).len() >= room);
                        assert(crate::routing::first_n(fresh_ids(s.subrange(0, i + 1)), room as int) =~= crate::routing::first_n(fresh_ids(x), room as int));
                    } else {
                        assert(fresh_ids(s.subrange(0, i + 1)) =~= fresh_ids(x));
                    }
                }
            }
            i += 1;
        }
        proof {
            assert(s.subrange(0, i as int) =~= s);
            let t = self.candidates@;
            assert forall|a: int, b: int| 0 <= a < b < t.len() implies lex_lt(dist(self.target, #[trigger] t[a].id), dist(self.target, #[trigger] t[b].id)) by {
                assert(t[a].id == s[a].id && t[b].id == s[b].id);
            }
            assert(!has_candidate(t, self.local_id)) by {
                if has_candidate(t, self.local_id) {
                    let k = choose|k: int| 0 <= k < t.len() && t[k].id == self.local_id;
                    assert(s[k].id == self.local_id);
                }
            }
        }
        if busy == 0 && r.len() > 0 {
            match first {
                Some(b) => {
                    self.round_best = Some(b);
                },
                None => {},
            }
        }
        r
    }

    /// Ends the round of queries once none is waiting any more, noting
    /// whether it found a candidate nearer than the one it began with.
    fn close_round(&mut self)
        requires
            old(self).wf(),
        ensures
            final(self).wf(),
            final(self).target == old(self).target,
            final(self).local_id == old(self).local_id,
            final(self).max_results == old(self).max_results,
            final(self).parallelism == old(self).parallelism,
            final(self).deadline == old(self).deadline,
            final(self).candidates == old(self).candidates,
            match old(self).round_best {
                Some(b) => if waiting_count(old(self).candidates@) == 0 {
                    final(self).round_best is None && final(self).stalled == round_stalled(
                        old(self).target,
                        old(self).candidates@,
                        b,
                    )
                } else {
                    final(self).round_best == old(self).round_best && final(self).stalled == old(self).stalled
                },
                None => final(self).round_best == old(self).round_best && final(self).stalled == old(self).stalled,
            },
    {
        match self.round_best {
            Some(b) => {
                if self.waiting() == 0 {
                    let stalled = if self.candidates.len() == 0 {
                        true
                    } else {
                        let c0 = self.candidates[0].id;
                        !is_nearer(&self.target, &c0, &b)
                    };
                    self.stalled = stalled;
                    self.round_best = None;
                }
            },
            None => {},
        }
    }

    fn set_state(&mut self, peer: &Id256, state: CandidateState)
        requires
            old(self).wf(),
        ensures
            final(self).wf(),
            final(self).target == old(self).target,
            final(self).local_id == old(self).local_id,
            final(self).max_results == old(self).max_results,
            final(self).parallelism == old(self).parallelism,
            final(self).deadline == old(self).deadline,
            final(self).candidates@ == spec_mark(old(self).candidates@, *peer, state),
            final(self).round_best == old(self).round_best,
            final(self).stalled == old(self).stalled,
    {
        match self.position(peer) {
            Some(i) => {
                let ghost s = self.candidates@;
                proof {
                    assert(has_candidate(s, *peer));
                    let k = candidate_index(s, *peer);
                    if k != i as int {
                        if k < i {
                            assert(lex_lt(dist(self.target, s[k].id), dist(self.target, s[i as int].id)));
                        } else {
                            assert(lex_lt(dist(self.target, s[i as int].id), dist(self.target, s[k].id)));
                        }
                        lemma_lex_irreflexive(dist(self.target, *peer));
                    }
                }
                self.candidates.set(i, Candidate { id: *peer, state });
                proof {
                    let t = self.candidates@;
                    assert forall|a: int, b: int| 0 <= a < b < t.len() implies lex_lt(dist(self.target, #[trigger] t[a].id), dist(self.target, #[trigger] t[b].id)) by {
                        assert(t[a].id == s[a].id && t[b].id == s[b].id);
                    }
                    assert(!has_candidate(t, self.local_id)) by {
                        if has_candidate(t, self.local_id) {
                            let k = choose|k: int| 0 <= k < t.len() && t[k].id == self.local_id;
                            assert(s[k].id == self.local_id);
                        }
                    }
                }
            },
            None => {},
        }
    }

    /// Takes in the answer of `peer`: it succeeded, and the peers it lists
    /// join the candidates.
    pub fn on_response(&mut self, peer: &Id256, found: &Vec<Id256>)
        requires
            old(self).wf(),
        ensures
            final(self).wf(),
            final(self).target == old(self).target,
            final(self).local_id == old(self).local_id,
            final(self).max_results == old(self).max_results,
            final(self).parallelism == old(self).parallelism,
            final(self).deadline == old(self).deadline,
            old(self).candidates@.len() > 0 && old(self).max_results > 0 ==> final(self).candidates@.len() > 0
                && lex_le(dist(old(self).target, final(self).candidates@[0].id), dist(old(self).target, old(self).candidates@[0].id)),
            final(self).candidates@ == spec_add_all(
                spec_mark(old(self).candidates@, *peer, CandidateState::Succeeded),
                old(self).target,
                old(self).local_id,
                old(self).max_results,
                found@,
            ),
            match old(self).round_best {
                Some(b) => if waiting_count(final(self).candidates@) == 0 {
                    final(self).round_best is None && final(self).stalled == round_stalled(
                        old(self).target,
                        final(self).candidates@,
                        b,
                    )
                } else {
                    final(self).round_best == old(self).round_best && final(self).stalled == old(self).stalled
                },
                None => final(self).round_best == old(self).round_best && final(self).stalled == old(self).stalled,
            },
    {
        self.set_state(peer, CandidateState::Succeeded);
        let ghost marked = self.candidates@;
        proof {
            if old(self).candidates@.len() > 0 {
                lemma_lex_irreflexive(dist(old(self).target, old(self).candidates@[0].id));
                assert(self.candidates@[0].id == old(self).candidates@[0].id);
            }
        }
        let mut i: usize = 0;
        while i < found.len()
            invariant
                i <= found@.len(),
                self.candidates@ == spec_add_all(marked, self.target, self.local_id, self.max_results, found@.subrange(0, i as int)),
                old(self).candidates@.len() > 0 && old(self).max_results > 0 ==> self.candidates@.len() > 0
                    && lex_le(dist(old(self).target, self.candidates@[0].id), dist(old(self).target, old(self).candidates@[0].id)),
                self.wf(),
                self.target == old(self).target,
                self.local_id == old(self).local_id,
                self.max_results == old(self).max_results,
                self.parallelism == old(self).parallelism,
                self.deadline == old(self).deadline,
                self.round_best == old(self).round_best,
                self.stalled == old(self).stalled,
            decreases found@.len() - i,
        {
            let ghost before = self.candidates@;
            self.add(found[i]);
            proof {
                if old(self).candidates@.len() > 0 && old(self).max_results > 0 {
                    lemma_lex_le_transitive(
                        dist(old(self).target, self.candidates@[0].id),
                        dist(old(self).target, before[0].id),
                        dist(old(self).target, old(self).candidates@[0].id),
                    );
                }
                assert(found@.subrange(0, i + 1).drop_last() =~= found@.subrange(0, i as int));
            }
            i += 1;
        }
        assert(found@.subrange(0, i as int) =~= found@);
        self.close_round();
    }

    /// Notes that `peer` did not answer.
    pub fn on_failure(&mut self, peer: &Id256)
        requires
            old(self).wf(),
        ensures
            final(self).wf(),
            final(self).target == old(self).target,
            final(self).local_id == old(self).local_id,
            final(self).max_results == old(self).max_results,
            final(self).parallelism == old(self).parallelism,
            final(self).deadline == old(self).deadline,
            final(self).candidates@ == spec_mark(old(self).candidates@, *peer, CandidateState::Failed),
            match old(self).round_best {
                Some(b) => if waiting_count(final(self).candidates@) == 0 {
                    final(self).round_best is None && final(self).stalled == round_stalled(
                        old(self).target,
                        final(self).candidates@,
                        b,
                    )
                } else {
                    final(self).round_best == old(self).round_best && final(self).stalled == old(self).stalled
                },
                None => final(self).round_best == old(self).round_best && final(self).stalled == old(self).stalled,
            },
    {
        self.set_state(peer, CandidateState::Failed);
        self.close_round();
    }

    /// Whether the lookup is over at `now`: the deadline has come, or
    /// `max_results` candidates answered, or a full round found no nearer
    /// candidate, or no candidate is left to ask or waited for.
    pub fn is_finished(&self, now: u64) -> (r: bool)
        ensures
            r == (now >= self.deadline || self.stalled || self.candidates@.filter(|c: Candidate| c.state == CandidateState::Succeeded).len()
                >= self.max_results || forall|k: int|
                0 <= k < self.candidates@.len() ==> (#[trigger] self.candidates@[k]).state != CandidateState::NotContacted
                    && self.candidates@[k].state != CandidateState::Waiting),
    {
        if now >= self.deadline || self.stalled {
            return true;
        }
        let ghost pred = |c: Candidate| c.state == CandidateState::Succeeded;
        let mut succeeded: usize = 0;
        let mut open = false;
        let mut i: usize = 0;
        proof {
            reveal(Seq::filter);
            assert(self.candidates@.subrange(0, 0).filter(pred) =~= Seq::<Candidate>::empty());
        }
        while i < self.candidates.len()
            invariant
                i <= self.candidates@.len(),
                pred == (|c: Candidate| c.state == CandidateState::Succeeded),
                succeeded == self.candidates@.subrange(0, i as int).filter(pred).len(),
                succeeded <= i,
                open == (exists|k: int|
                    0 <= k < i && ((#[trigger] self.candidates@[k]).state == CandidateState::NotContacted
                        || self.candidates@[k].state == CandidateState::Waiting)),
            decreases self.candidates@.len() - i,
        {
            proof {
                reveal(Seq::filter);
                assert(self.candidates@.subrange(0, i + 1).drop_last() =~= self.candidates@.subrange(0, i as int));
            }
            let st = self.candidates[i].state;
            if st == CandidateState::Succeeded {
                succeeded += 1;
            }
            if st == CandidateState::NotContacted || st == CandidateState::Waiting {
                open = true;
            }
            i += 1;
        }
        assert(self.candidates@.subrange(0, i as int) =~= self.candidates@);
        succeeded >= self.max_results || !open
    }

    /// The peers that answered, nearest to the target first.
    pub fn result(&self) -> (r: Vec<Id256>)
        ensures
            r@ == succeeded_ids(self.candidates@),
    {
        let ghost pred = |c: Candidate| c.state == CandidateState::Succeeded;
        let mut r: Vec<Id256> = Vec::new();
        let mut i: usize = 0;
        proof {
            reveal(Seq::filter);
            assert(self.candidates@.subrange(0, 0).filter(pred) =~= Seq::<Candidate>::empty());
        }
        while i < self.candidates.len()
            invariant
                i <= self.candidates@.len(),
                pred == (|c: Candidate| c.state == CandidateState::Succeeded),
                r@ == Seq::new(
                    self.candidates@.subrange(0, i as int).filter(pred).len(),
                    |k: int| self.candidates@.subrange(0, i as int).filter(pred)[k].id,
                ),
            decreases self.candidates@.len() - i,
        {
            proof {
                reveal(Seq::filter);
                assert(self.candidates@.subrange(0, i + 1).drop_last() =~= self.candidates@.subrange(0, i as int));
            }
            if self.candidates[i].state == CandidateState::Succeeded {
                let id = self.candidates[i].id;
                r.push(id);
            }
            proof {
                let f = self.candidates@.subrange(0, i + 1).filter(pred);
                assert(r@ =~= Seq::new(f.len(), |k: int| f[k].id));
            }
            i += 1;
        }
        assert(self.candidates@.subrange(0, i as int) =~= self.candidates@);
        assert(r@ =~= succeeded_ids(self.candidates@));
        r
    }
}

} // verus!
