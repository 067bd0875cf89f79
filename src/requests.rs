//! The correlation table: outstanding queries by request id, each resolved
//! exactly once, by an answer, a failure or its deadline.
use vstd::prelude::*;
use crate::distance::Id256;
use crate::messages::Request;

verus! {

/// Where an outstanding query stands.
#[derive(Clone, Copy, Debug, PartialEq, Eq)]
pub enum RequestState {
    /// Sent; no answer yet.
    AwaitingResponse,
    /// Answered with a connection id; the content is coming over a stream.
    AwaitingTransfer(u16),
}

/// One outstanding query. `R` is whatever the caller waits on for the
/// outcome (a channel end, a callback token).
pub struct Outstanding<R> {
    pub id: u64,
    /// The node the query went to.
    pub peer: Id256,
    /// The query as sent.
    pub request: Request,
    pub responder: Option<R>,
    pub issued_at: u64,
    pub deadline: u64,
    /// How many times the query has been sent.
    pub attempts: u32,
    pub state: RequestState,
}

/// Whether some entry of `s` has id `id`.
pub open spec fn has_request<R>(s: Seq<Outstanding<R>>, id: u64) -> bool {
    exists|i: int| 0 <= i < s.len() && (#[trigger] s[i]).id == id
}

/// Position of the entry with id `id`, when there is one.
pub open spec fn request_index<R>(s: Seq<Outstanding<R>>, id: u64) -> int {
    choose|i: int| 0 <= i < s.len() && s[i].id == id
}

/// Entries still running at time `now`.
pub open spec fn live_at<R>(now: u64) -> spec_fn(Outstanding<R>) -> bool {
    |e: Outstanding<R>| e.deadline > now
}

/// Entries whose deadline has come at time `now`.
pub open spec fn expired_at<R>(now: u64) -> spec_fn(Outstanding<R>) -> bool {
    |e: Outstanding<R>| e.deadline <= now
}

/// Request ids are unique and below the next id to hand out.
pub open spec fn ids_fresh<R>(s: Seq<Outstanding<R>>, next_id: u64) -> bool {
    &&& forall|i: int, j: int|
        0 <= i < s.len() && 0 <= j < s.len() && i != j ==> (#[trigger] s[i]).id != (#[trigger] s[j]).id
    &&& forall|i: int| 0 <= i < s.len() ==> (#[trigger] s[i]).id < next_id
}

/// Once an entry is taken out of a table with unique ids, no entry with its
/// id is left: a second resolution of the same id finds nothing.
pub proof fn lemma_resolved_once<R>(s: Seq<Outstanding<R>>, next_id: u64, i: int)
    requires
        ids_fresh(s, next_id),
        0 <= i < s.len(),
    ensures
        !has_request(s.remove(i), s[i].id),
        ids_fresh(s.remove(i), next_id),
{
    let t = s.remove(i);
    assert forall|j: int| 0 <= j < t.len() implies (#[trigger] t[j]).id != s[i].id by {
        if j < i {
            assert(t[j] == s[j]);
        } else {
            assert(t[j] == s[j + 1]);
        }
    }
}

/// A query registered with deadline `t` stays outstanding through every
/// sweep before `t`, and the first sweep at or after `t` resolves it as
/// timed out.
pub proof fn lemma_sweep_timing<R>(s: Seq<Outstanding<R>>, i: int, now: u64)
    requires
        0 <= i < s.len(),
    ensures
        now < s[i].deadline ==> s.filter(live_at::<R>(now)).contains(s[i]) && !s.filter(
            expired_at::<R>(now),
        ).contains(s[i]),
        now >= s[i].deadline ==> s.filter(expired_at::<R>(now)).contains(s[i]) && !s.filter(
            live_at::<R>(now),
        ).contains(s[i]),
{
    broadcast use vstd::seq_lib::group_filter_ensures;

    if now < s[i].deadline {
        assert(live_at::<R>(now)(s[i]));
        if s.filter(expired_at::<R>(now)).contains(s[i]) {
            let k = choose|k: int|
                0 <= k < s.filter(expired_at::<R>(now)).len() && s.filter(expired_at::<R>(now))[k]
                    == s[i];
            assert(expired_at::<R>(now)(s.filter(expired_at::<R>(now))[k]));
        }
    } else {
        assert(expired_at::<R>(now)(s[i]));
        if s.filter(live_at::<R>(now)).contains(s[i]) {
            let k = choose|k: int|
                0 <= k < s.filter(live_at::<R>(now)).len() && s.filter(live_at::<R>(now))[k]
                    == s[i];
            assert(live_at::<R>(now)(s.filter(live_at::<R>(now))[k]));
        }
    }
}

/// A query sent at `issued` with `timeout` stays outstanding through every
/// sweep before `issued + timeout`, and the first sweep at or after that time
/// resolves it as timed out, whenever that time fits in a `u64` (beyond it
/// the deadline saturates at `u64::MAX`).
pub proof fn lemma_query_times_out_at_deadline<R>(s: Seq<Outstanding<R>>, i: int, issued: u64, timeout: u64, now: u64)
    requires
        0 <= i < s.len(),
        s[i].deadline == issued.saturating_add(timeout),
        issued + timeout <= u64::MAX,
    ensures
        now < issued + timeout ==> s.filter(live_at::<R>(now)).contains(s[i]) && !s.filter(
            expired_at::<R>(now),
        ).contains(s[i]),
        now >= issued + timeout ==> s.filter(expired_at::<R>(now)).contains(s[i]) && !s.filter(
            live_at::<R>(now),
        ).contains(s[i]),
{
    lemma_sweep_timing(s, i, now);
}

/// Some entry among the first `n` of `s` has id `id`.
pub open spec fn id_in_prefix<R>(s: Seq<Outstanding<R>>, n: int, id: u64) -> bool {
    exists|j: int| 0 <= j < n && (#[trigger] s[j]).id == id
}

proof fn lemma_filter_push<A>(s: Seq<A>, x: A, p: spec_fn(A) -> bool)
    ensures
        s.push(x).filter(p) == if p(x) {
            s.filter(p).push(x)
        } else {
            s.filter(p)
        },
{
    reveal(Seq::filter);
    assert(s.push(x).drop_last() =~= s);
}

/// Outstanding queries of one session.
pub struct RequestTable<R> {
    pub entries: Vec<Outstanding<R>>,
    /// The id the next query gets.
    pub next_id: u64,
}

impl<R> RequestTable<R> {
    pub open spec fn wf(&self) -> bool {
        ids_fresh(self.entries@, self.next_id)
    }

    /// An empty table.
    pub fn new() -> (t: RequestTable<R>)
        ensures
            t.wf(),
            t.entries@.len() == 0,
            t.next_id == 0,
    {
        RequestTable { entries: Vec::new(), next_id: 0 }
    }

    /// Number of outstanding queries.
    pub fn len(&self) -> (n: usize)
        ensures
            n == self.entries@.len(),
    {
        self.entries.len()
    }

    /// Records a query sent to `peer` at `now`, due by `now + timeout`
    /// (saturating). Gives the query a fresh id, or `None` once ids run out.
    pub fn register(
        &mut self,
        peer: Id256,
        request: Request,
        responder: Option<R>,
        now: u64,
        timeout: u64,
    ) -> (r: Option<u64>)
        requires
            old(self).wf(),
        ensures
            final(self).wf(),
            old(self).next_id == u64::MAX ==> r is None && *final(self) == *old(self),
            old(self).next_id < u64::MAX ==> r == Some(old(self).next_id) && final(self).next_id
                == old(self).next_id + 1 && final(self).entries@ == old(self).entries@.push(
                (Outstanding {
                    id: old(self).next_id,
                    peer,
                    request,
                    responder,
                    issued_at: now,
                    deadline: now.saturating_add(timeout),
                    attempts: 1,
                    state: RequestState::AwaitingResponse,
                }),
            ),
    {
        if self.next_id == u64::MAX {
            return None;
        }
        let id = self.next_id;
        let entry = Outstanding {
            id,
            peer,
            request,
            responder,
            issued_at: now,
            deadline: now.saturating_add(timeout),
            attempts: 1,
            state: RequestState::AwaitingResponse,
        };
        self.entries.push(entry);
        self.next_id = id + 1;
        Some(id)
    }

    /// Position of the entry with id `id`.
    fn position(&self, id: u64) -> (r: Option<usize>)
        ensures
            match r {
                Some(i) => i < self.entries@.len() && self.entries@[i as int].id == id,
                None => !has_request(self.entries@, id),
            },
    {
        let mut i: usize = 0;
        while i < self.entries.len()
            invariant
                i <= self.entries@.len(),
                forall|j: int| 0 <= j < i ==> (#[trigger] self.entries@[j]).id != id,
            decreases self.entries@.len() - i,
        {
            if self.entries[i].id == id {
                return Some(i);
            }
            i += 1;
        }
        None
    }

    /// Whether a query with id `id` is outstanding.
    pub fn contains(&self, id: u64) -> (r: bool)
        ensures
            r == has_request(self.entries@, id),
    {
        self.position(id).is_some()
    }

    /// Where the query `id` stands, if it is outstanding.
    pub fn state_of(&self, id: u64) -> (r: Option<RequestState>)
        requires
            self.wf(),
        ensures
            match r {
                Some(st) => has_request(self.entries@, id) && st == self.entries@[request_index(
                    self.entries@,
                    id,
                )].state,
                None => !has_request(self.entries@, id),
            },
    {
        match self.position(id) {
            Some(i) => {
                assert(has_request(self.entries@, id));
                Some(self.entries[i].state)
            },
            None => None,
        }
    }

    /// Resolves the query `id`: takes it out of the table and hands it back,
    /// once. For an id that is not outstanding (never issued, or resolved
    /// already) nothing changes and `None` comes back.
    pub fn resolve(&mut self, id: u64) -> (r: Option<Outstanding<R>>)
        requires
            old(self).wf(),
        ensures
            final(self).wf(),
            final(self).next_id == old(self).next_id,
            !has_request(old(self).entries@, id) ==> r is None && *final(self) == *old(self),
            has_request(old(self).entries@, id) ==> r == Some(
                old(self).entries@[request_index(old(self).entries@, id)],
            ) && final(self).entries@ == old(self).entries@.remove(
                request_index(old(self).entries@, id),
            ),
            !has_request(final(self).entries@, id),
    {
        match self.position(id) {
            Some(i) => {
                assert(has_request(self.entries@, id));
                proof {
                    lemma_resolved_once(self.entries@, self.next_id, i as int);
                }
                let e = self.entries.remove(i);
                Some(e)
            },
            None => None,
        }
    }

    /// Puts back an entry taken out by `resolve`, as it now stands.
    pub fn restore(&mut self, entry: Outstanding<R>)
        requires
            old(self).wf(),
            entry.id < old(self).next_id,
            !has_request(old(self).entries@, entry.id),
        ensures
            final(self).wf(),
            final(self).next_id == old(self).next_id,
            final(self).entries@ == old(self).entries@.push(entry),
    {
        self.entries.push(entry);
    }

    /// Notes that query `id` was sent again at `now`: one more attempt, and a
    /// new deadline `now + timeout` (saturating). False if `id` is not
    /// outstanding.
    pub fn retry(&mut self, id: u64, now: u64, timeout: u64) -> (r: bool)
        requires
            old(self).wf(),
        ensures
            final(self).wf(),
            final(self).next_id == old(self).next_id,
            r == has_request(old(self).entries@, id),
            !r ==> *final(self) == *old(self),
            r ==> exists|i: int|
                0 <= i < old(self).entries@.len() && (#[trigger] old(self).entries@[i]).id == id
                    && final(self).entries@ == old(self).entries@.update(
                    i,
                    (Outstanding {
                        issued_at: now,
                        deadline: now.saturating_add(timeout),
                        attempts: old(self).entries@[i].attempts.saturating_add(1),
                        ..old(self).entries@[i]
                    }),
                ),
    {
        match self.position(id) {
            Some(i) => {
                let ghost before = self.entries@;
                let mut e = self.entries.remove(i);
                e.issued_at = now;
                e.deadline = now.saturating_add(timeout);
                e.attempts = e.attempts.saturating_add(1);
                self.entries.insert(i, e);
                assert(self.entries@ =~= before.update(
                    i as int,
                    Outstanding {
                        issued_at: now,
                        deadline: now.saturating_add(timeout),
                        attempts: before[i as int].attempts.saturating_add(1),
                        ..before[i as int]
                    },
                ));
                true
            },
            None => false,
        }
    }

    /// Resolves, as timed out, every query whose deadline has come at `now`,
    /// and hands them back in table order. The others stay, in order.
    pub fn sweep_expired(&mut self, now: u64) -> (expired: Vec<Outstanding<R>>)
        requires
            old(self).wf(),
        ensures
            final(self).wf(),
            final(self).next_id == old(self).next_id,
            final(self).entries@ == old(self).entries@.filter(live_at::<R>(now)),
            expired@ == old(self).entries@.filter(expired_at::<R>(now)),
    {
        broadcast use vstd::seq_lib::group_filter_ensures;

        let ghost orig = self.entries@;
        let mut rest: Vec<Outstanding<R>> = Vec::new();
        std::mem::swap(&mut rest, &mut self.entries);
        let mut expired: Vec<Outstanding<R>> = Vec::new();
        assert(orig.subrange(0, 0).filter(live_at::<R>(now)) =~= Seq::<Outstanding<R>>::empty())
            by {
            reveal(Seq::filter);
        }
        assert(orig.subrange(0, 0).filter(expired_at::<R>(now)) =~= Seq::<Outstanding<R>>::empty())
            by {
            reveal(Seq::filter);
        }
        assert(orig.subrange(0, orig.len() as int) =~= orig);
        while rest.len() > 0
            invariant
                ids_fresh(orig, self.next_id),
                self.next_id == old(self).next_id,
                rest@.len() <= orig.len(),
                rest@ == orig.subrange(orig.len() - rest@.len(), orig.len() as int),
                self.entries@ == orig.subrange(0, orig.len() - rest@.len()).filter(live_at::<R>(now)),
                expired@ == orig.subrange(0, orig.len() - rest@.len()).filter(expired_at::<R>(now)),
                ids_fresh(self.entries@, self.next_id),
                forall|i: int|
                    0 <= i < self.entries@.len() ==> id_in_prefix(
                        orig,
                        orig.len() - rest@.len(),
                        #[trigger] self.entries@[i].id,
                    ),
            decreases rest@.len(),
        {
            let ghost k = orig.len() - rest@.len();
            let e = rest.remove(0);
            proof {
                assert(orig.subrange(0, k + 1) =~= orig.subrange(0, k).push(orig[k]));
                lemma_filter_push(orig.subrange(0, k), orig[k], live_at::<R>(now));
                lemma_filter_push(orig.subrange(0, k), orig[k], expired_at::<R>(now));
                assert(rest@ =~= orig.subrange(k + 1, orig.len() as int));
            }
            if e.deadline <= now {
                expired.push(e);
            } else {
                proof {
                    assert forall|i: int| 0 <= i < self.entries@.len() implies (#[trigger] self.entries@[i]).id != orig[k].id by {
                        assert(id_in_prefix(orig, k, self.entries@[i].id));
                        let j = choose|j: int| 0 <= j < k && orig[j].id == self.entries@[i].id;
                    }
                }
                self.entries.push(e);
                assert(id_in_prefix(orig, k + 1, orig[k].id));
            }
        }
        assert(orig.subrange(0, orig.len() as int) =~= orig);
        expired
    }
}

} // verus!
