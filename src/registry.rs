//! The subnetwork registry: one session per protocol tag, and the dispatch of
//! each inbound message to the one session its tag names.
use vstd::prelude::*;
use crate::distance::Id256;
use crate::messages::{Request, RequestError, Response};
use crate::session::{OverlaySession, ProcessError, Resolution};

verus! {

/// Why a message was not delivered to a session.
#[derive(Clone, Copy, Debug, PartialEq, Eq)]
pub enum DispatchError {
    /// No session is registered under the message's tag.
    UnknownProtocol,
    /// A session is registered under this tag already.
    DuplicateProtocol,
    /// The session refused the request.
    Process(ProcessError),
}

/// Whether the bytes of `a` and `b` are equal.
pub fn tags_equal(a: &[u8], b: &[u8]) -> (r: bool)
    ensures
        r == (a@ == b@),
{
    if a.len() != b.len() {
        return false;
    }
    let mut i: usize = 0;
    while i < a.len()
        invariant
            i <= a@.len(),
            a@.len() == b@.len(),
            forall|j: int| 0 <= j < i ==> a@[j] == b@[j],
        decreases a@.len() - i,
    {
        if a[i] != b[i] {
            return false;
        }
        i += 1;
    }
    assert(a@ =~= b@);
    true
}

/// Whether some session of `s` is registered under `tag`.
pub open spec fn has_tag<R>(s: Seq<OverlaySession<R>>, tag: Seq<u8>) -> bool {
    exists|i: int| 0 <= i < s.len() && (#[trigger] s[i]).tag@ == tag
}

/// Position of the session registered under `tag`, when there is one.
pub open spec fn tag_index<R>(s: Seq<OverlaySession<R>>, tag: Seq<u8>) -> int {
    choose|i: int| 0 <= i < s.len() && s[i].tag@ == tag
}

/// The request result a session gives, as the dispatcher reports it.
pub open spec fn lift_result(r: Result<Response, ProcessError>) -> Result<Response, DispatchError> {
    match r {
        Ok(resp) => Ok(resp),
        Err(e) => Err(DispatchError::Process(e)),
    }
}

/// The sessions of one node, by protocol tag.
pub struct Registry<R> {
    pub sessions: Vec<OverlaySession<R>>,
}

impl<R> Registry<R> {
    /// Well-formed: every session is, and no two share a tag.
    pub open spec fn wf(&self) -> bool {
        &&& forall|i: int| 0 <= i < self.sessions@.len() ==> (#[trigger] self.sessions@[i]).wf()
        &&& forall|i: int, j: int|
            0 <= i < self.sessions@.len() && 0 <= j < self.sessions@.len() && i != j ==> (#[trigger] self.sessions@[i]).tag@
                != (#[trigger] self.sessions@[j]).tag@
    }

    /// A registry with no session.
    pub fn new() -> (r: Registry<R>)
        ensures
            r.wf(),
            r.sessions@.len() == 0,
    {
        Registry { sessions: Vec::new() }
    }

    /// Number of sessions registered.
    pub fn len(&self) -> (n: usize)
        ensures
            n == self.sessions@.len(),
    {
        self.sessions.len()
    }

    /// Position of the session registered under `tag`.
    pub fn find(&self, tag: &[u8]) -> (r: Option<usize>)
        requires
            self.wf(),
        ensures
            match r {
                Some(i) => has_tag(self.sessions@, tag@) && i == tag_index(self.sessions@, tag@),
                None => !has_tag(self.sessions@, tag@),
            },
    {
        let mut i: usize = 0;
        while i < self.sessions.len()
            invariant
                self.wf(),
                i <= self.sessions@.len(),
                forall|j: int| 0 <= j < i ==> (#[trigger] self.sessions@[j]).tag@ != tag@,
            decreases self.sessions@.len() - i,
        {
            if tags_equal(self.sessions[i].tag.as_slice(), tag) {
                assert(has_tag(self.sessions@, tag@));
                let ghost k = tag_index(self.sessions@, tag@);
                assert(k == i) by {
                    if k != i {
                        assert(self.sessions@[k].tag@ != self.sessions@[i as int].tag@);
                    }
                }
                return Some(i);
            }
            i += 1;
        }
        None
    }

    /// Adds `session` under its tag, unless a session holds that tag already.
    pub fn register(&mut self, session: OverlaySession<R>) -> (r: Result<(), DispatchError>)
        requires
            old(self).wf(),
            session.wf(),
        ensures
            final(self).wf(),
            has_tag(old(self).sessions@, session.tag@) ==> r == Err::<(), DispatchError>(
                DispatchError::DuplicateProtocol,
            ) && final(self).sessions@ == old(self).sessions@,
            !has_tag(old(self).sessions@, session.tag@) ==> r is Ok && final(self).sessions@ == old(
                self,
            ).sessions@.push(session),
    {
        match self.find(session.tag.as_slice()) {
            Some(_) => Err(DispatchError::DuplicateProtocol),
            None => {
                self.sessions.push(session);
                Ok(())
            },
        }
    }

    /// Hands a request tagged `tag` from `source` to the one session
    /// registered under `tag`, and gives its answer. No other session
    /// changes; with no session under `tag`, nothing changes and the request
    /// is reported undeliverable.
    pub fn dispatch_request(&mut self, tag: &[u8], source: Id256, request: &Request) -> (r: Result<
        Response,
        DispatchError,
    >)
        requires
            old(self).wf(),
        ensures
            final(self).wf(),
            final(self).sessions@.len() == old(self).sessions@.len(),
            !has_tag(old(self).sessions@, tag@) ==> r == Err::<Response, DispatchError>(
                DispatchError::UnknownProtocol,
            ) && final(self).sessions@ == old(self).sessions@,
            has_tag(old(self).sessions@, tag@) ==> ({
                let i = tag_index(old(self).sessions@, tag@);
                &&& exists|inner: Result<Response, ProcessError>|
                    OverlaySession::request_handled(
                        old(self).sessions@[i],
                        final(self).sessions@[i],
                        source,
                        *request,
                        inner,
                    ) && r == lift_result(inner)
                &&& forall|j: int|
                    0 <= j < old(self).sessions@.len() && j != i ==> #[trigger] final(self).sessions@[j]
                        == old(self).sessions@[j]
            }),
    {
        let i = match self.find(tag) {
            Some(i) => i,
            None => {
                return Err(DispatchError::UnknownProtocol);
            },
        };
        let ghost before = self.sessions@;
        let mut session = self.sessions.remove(i);
        let inner = session.handle_request(source, request);
        self.sessions.insert(i, session);
        proof {
            assert(OverlaySession::request_handled(before[i as int], self.sessions@[i as int], source, *request, inner));
            assert(lift_result(inner) == (match inner {
                Ok(resp) => Ok::<Response, DispatchError>(resp),
                Err(e) => Err::<Response, DispatchError>(DispatchError::Process(e)),
            }));
            assert(self.sessions@ =~= before.update(i as int, self.sessions@[i as int]));
            assert forall|a: int, b: int|
                0 <= a < self.sessions@.len() && 0 <= b < self.sessions@.len() && a != b implies (#[trigger] self.sessions@[a]).tag@
                != (#[trigger] self.sessions@[b]).tag@ by {
                assert(self.sessions@[i as int].tag == before[i as int].tag);
                if a != i && b != i {
                    assert(self.sessions@[a] == before[a]);
                    assert(self.sessions@[b] == before[b]);
                }
            }
        }
        match inner {
            Ok(resp) => Ok(resp),
            Err(e) => Err(DispatchError::Process(e)),
        }
    }

    /// Hands the answer (or failure) `outcome` of query `id`, tagged `tag`,
    /// to the one session registered under `tag`. No other session changes;
    /// with no session under `tag`, nothing changes.
    pub fn dispatch_response(
        &mut self,
        tag: &[u8],
        id: u64,
        outcome: Result<Response, RequestError>,
        now: u64,
    ) -> (r: Result<Resolution<R>, DispatchError>)
        requires
            old(self).wf(),
        ensures
            final(self).wf(),
            final(self).sessions@.len() == old(self).sessions@.len(),
            !has_tag(old(self).sessions@, tag@) ==> r == Err::<Resolution<R>, DispatchError>(
                DispatchError::UnknownProtocol,
            ) && final(self).sessions@ == old(self).sessions@,
            has_tag(old(self).sessions@, tag@) ==> ({
                let i = tag_index(old(self).sessions@, tag@);
                &&& r matches Ok(res) && OverlaySession::response_handled(
                    old(self).sessions@[i],
                    final(self).sessions@[i],
                    id,
                    outcome,
                    now,
                    res,
                )
                &&& forall|j: int|
                    0 <= j < old(self).sessions@.len() && j != i ==> #[trigger] final(self).sessions@[j]
                        == old(self).sessions@[j]
            }),
    {
        let i = match self.find(tag) {
            Some(i) => i,
            None => {
                return Err(DispatchError::UnknownProtocol);
            },
        };
        let ghost before = self.sessions@;
        let mut session = self.sessions.remove(i);
        let res = session.handle_response(id, outcome, now);
        self.sessions.insert(i, session);
        proof {
            assert(self.sessions@ =~= before.update(i as int, self.sessions@[i as int]));
            assert forall|a: int, b: int|
                0 <= a < self.sessions@.len() && 0 <= b < self.sessions@.len() && a != b implies (#[trigger] self.sessions@[a]).tag@
                != (#[trigger] self.sessions@[b]).tag@ by {
                assert(self.sessions@[i as int].tag == before[i as int].tag);
                if a != i && b != i {
                    assert(self.sessions@[a] == before[a]);
                    assert(self.sessions@[b] == before[b]);
                }
            }
        }
        Ok(res)
    }
}

} // verus!
