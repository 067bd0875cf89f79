//! The in-memory content store of one subnetwork: content indexed by id,
//! bounded in count and in payload size, evicting the content farthest from
//! the local node first.
use vstd::prelude::*;
use crate::distance::{Id256, xor_seq, lex_lt, lex_le, max_seq, zero_seq, distance, id_eq, id_lt,
    max_distance, lemma_lex_transitive, lemma_lex_total, lemma_lex_irreflexive};

verus! {

/// Why content was not stored.
#[derive(Clone, Copy, Debug, PartialEq, Eq)]
pub enum StoreError {
    /// The payload is over the size ceiling, or the store is full of content
    /// nearer to the local node.
    CapacityExceeded,
}

/// One stored piece of content.
pub struct StoredItem {
    pub id: Id256,
    pub payload: Vec<u8>,
}

/// Content held by one subnetwork, oldest first.
pub struct ContentStore {
    /// Identifier of the local node, from which distances are measured.
    pub local_id: Id256,
    /// Largest number of items held.
    pub capacity: usize,
    /// Largest payload admitted, in bytes.
    pub max_payload: usize,
    /// The items, in order of insertion.
    pub items: Vec<StoredItem>,
}

/// Index of the first item of `ids[..n]` that is farthest from `local`: on
/// equal distance the oldest item wins.
pub open spec fn farthest_in(local: Seq<u8>, ids: Seq<Seq<u8>>, n: int) -> int
    decreases n,
{
    if n <= 1 {
        0
    } else {
        let f = farthest_in(local, ids, n - 1);
        if lex_lt(xor_seq(local, ids[f]), xor_seq(local, ids[n - 1])) {
            n - 1
        } else {
            f
        }
    }
}

/// Identifiers of a sequence of (id, payload) entries.
pub open spec fn ids_of(entries: Seq<(Seq<u8>, Seq<u8>)>) -> Seq<Seq<u8>> {
    Seq::new(entries.len(), |i: int| entries[i].0)
}

/// Position of the entry with identifier `id`, if any.
pub open spec fn has_id(entries: Seq<(Seq<u8>, Seq<u8>)>, id: Seq<u8>) -> bool {
    exists|i: int| 0 <= i < entries.len() && #[trigger] entries[i].0 == id
}

/// The farthest entry is at least as far from `local` as every entry, and
/// strictly farther than every older entry: eviction order is fixed.
pub proof fn lemma_farthest_first(local: Seq<u8>, ids: Seq<Seq<u8>>, n: int)
    requires
        0 < n <= ids.len(),
        forall|i: int| 0 <= i < ids.len() ==> (#[trigger] ids[i]).len() == local.len(),
    ensures
        0 <= farthest_in(local, ids, n) < n,
        forall|j: int|
            0 <= j < n ==> lex_le(
                #[trigger] xor_seq(local, ids[j]),
                xor_seq(local, ids[farthest_in(local, ids, n)]),
            ),
        forall|j: int|
            0 <= j < farthest_in(local, ids, n) ==> lex_lt(
                #[trigger] xor_seq(local, ids[j]),
                xor_seq(local, ids[farthest_in(local, ids, n)]),
            ),
    decreases n,
{
    let f = farthest_in(local, ids, n);
    if n == 1 {
        lemma_lex_irreflexive(xor_seq(local, ids[0]));
    } else {
        lemma_farthest_first(local, ids, n - 1);
        let g = farthest_in(local, ids, n - 1);
        let dg = xor_seq(local, ids[g]);
        let dn = xor_seq(local, ids[n - 1]);
        if lex_lt(dg, dn) {
            assert forall|j: int| 0 <= j < n implies lex_le(#[trigger] xor_seq(local, ids[j]), dn) by {
                let dj = xor_seq(local, ids[j]);
                if j == n - 1 {
                    lemma_lex_irreflexive(dn);
                } else if lex_lt(dn, dj) {
                    lemma_lex_total(dj, dg);
                    if lex_lt(dg, dj) {
                        lemma_lex_transitive(dg, dj, dg);
                        lemma_lex_irreflexive(dg);
                    } else if lex_lt(dj, dg) {
                        lemma_lex_transitive(dn, dj, dg);
                        lemma_lex_transitive(dn, dg, dn);
                        lemma_lex_irreflexive(dn);
                    } else {
                        lemma_lex_transitive(dn, dg, dn);
                        lemma_lex_irreflexive(dn);
                    }
                }
            }
            assert forall|j: int| 0 <= j < n - 1 implies lex_lt(#[trigger] xor_seq(local, ids[j]), dn) by {
                let dj = xor_seq(local, ids[j]);
                lemma_lex_total(dj, dg);
                if lex_lt(dj, dg) {
                    lemma_lex_transitive(dj, dg, dn);
                } else if lex_lt(dg, dj) {
                    assert(lex_le(dj, dg));
                }
            }
        }
    }
}

/// Position of the entry with identifier `id`, when there is one.
pub open spec fn item_index(entries: Seq<(Seq<u8>, Seq<u8>)>, id: Seq<u8>) -> int {
    choose|i: int| 0 <= i < entries.len() && entries[i].0 == id
}

impl View for ContentStore {
    type V = Seq<(Seq<u8>, Seq<u8>)>;

    open spec fn view(&self) -> Seq<(Seq<u8>, Seq<u8>)> {
        Seq::new(self.items@.len(), |i: int| (self.items@[i].id@, self.items@[i].payload@))
    }
}

impl ContentStore {
    /// Well-formed: identifiers are unique, and count and payloads are
    /// within their bounds.
    pub open spec fn wf(&self) -> bool {
        &&& self@.len() <= self.capacity
        &&& forall|i: int, j: int|
            0 <= i < self@.len() && 0 <= j < self@.len() && i != j ==> (#[trigger] self@[i]).0
                != (#[trigger] self@[j]).0
        &&& forall|i: int| 0 <= i < self@.len() ==> (#[trigger] self@[i]).1.len() <= self.max_payload
    }

    /// Index of the item that is evicted first when the store is full.
    pub open spec fn eviction_index(&self) -> int {
        farthest_in(self.local_id@, ids_of(self@), self@.len() as int)
    }

    /// The radius the node covers: every distance while there is room,
    /// else the distance of the farthest item held.
    pub open spec fn spec_radius(&self) -> Seq<u8> {
        if self@.len() < self.capacity {
            max_seq(32)
        } else if self@.len() == 0 {
            zero_seq(32)
        } else {
            xor_seq(self.local_id@, self@[self.eviction_index()].0)
        }
    }

    /// The entries after storing `payload` under `id`, and the outcome.
    pub open spec fn spec_put(&self, id: Seq<u8>, payload: Seq<u8>) -> (Seq<(Seq<u8>, Seq<u8>)>, Result<(), StoreError>) {
        if payload.len() > self.max_payload {
            (self@, Err(StoreError::CapacityExceeded))
        } else if has_id(self@, id) {
            (self@.update(item_index(self@, id), (id, payload)), Ok(()))
        } else if self@.len() < self.capacity {
            (self@.push((id, payload)), Ok(()))
        } else if self@.len() > 0 && lex_lt(
            xor_seq(self.local_id@, id),
            xor_seq(self.local_id@, self@[self.eviction_index()].0),
        ) {
            (self@.remove(self.eviction_index()).push((id, payload)), Ok(()))
        } else {
            (self@, Err(StoreError::CapacityExceeded))
        }
    }

    /// An empty store for the node `local_id`.
    pub fn new(local_id: Id256, capacity: usize, max_payload: usize) -> (s: ContentStore)
        ensures
            s.wf(),
            s@ == Seq::<(Seq<u8>, Seq<u8>)>::empty(),
            s.local_id == local_id,
            s.capacity == capacity,
            s.max_payload == max_payload,
    {
        let s = ContentStore { local_id, capacity, max_payload, items: Vec::new() };
        assert(s@ =~= Seq::<(Seq<u8>, Seq<u8>)>::empty());
        s
    }

    /// Number of items held.
    pub fn len(&self) -> (n: usize)
        ensures
            n == self@.len(),
    {
        self.items.len()
    }

    /// Position of the item with identifier `id`.
    fn find(&self, id: &Id256) -> (r: Option<usize>)
        ensures
            match r {
                Some(i) => i < self@.len() && self@[i as int].0 == id@,
                None => !has_id(self@, id@),
            },
    {
        let mut i: usize = 0;
        while i < self.items.len()
            invariant
                i <= self@.len(),
                forall|j: int| 0 <= j < i ==> (#[trigger] self@[j]).0 != id@,
            decreases self@.len() - i,
        {
            if id_eq(&self.items[i].id, id) {
                return Some(i);
            }
            i += 1;
        }
        None
    }

    /// Whether content with identifier `id` is held.
    pub fn contains(&self, id: &Id256) -> (r: bool)
        ensures
            r == has_id(self@, id@),
    {
        self.find(id).is_some()
    }

    /// The payload held under `id`.
    pub fn get(&self, id: &Id256) -> (r: Option<Vec<u8>>)
        requires
            self.wf(),
        ensures
            match r {
                Some(p) => has_id(self@, id@) && p@ == self@[item_index(self@, id@)].1,
                None => !has_id(self@, id@),
            },
    {
        match self.find(id) {
            Some(i) => {
                assert(has_id(self@, id@));
                let p = self.items[i].payload.clone();
                assert(p@ =~= self@[i as int].1);
                Some(p)
            },
            None => None,
        }
    }

    /// Index of the item farthest from the local node, the oldest on ties.
    fn farthest(&self) -> (f: usize)
        requires
            self@.len() > 0,
        ensures
            f == self.eviction_index(),
            f < self@.len(),
    {
        let ghost ids = ids_of(self@);
        let mut best: usize = 0;
        let mut best_d = distance(&self.local_id, &self.items[0].id);
        let mut i: usize = 1;
        while i < self.items.len()
            invariant
                1 <= i <= self@.len(),
                ids == ids_of(self@),
                best as int == farthest_in(self.local_id@, ids, i as int),
                best < i,
                best_d@ == xor_seq(self.local_id@, ids[best as int]),
            decreases self@.len() - i,
        {
            let d = distance(&self.local_id, &self.items[i].id);
            if id_lt(&best_d, &d) {
                best = i;
                best_d = d;
            }
            i += 1;
        }
        best
    }

    /// The radius the node covers.
    pub fn radius(&self) -> (r: Id256)
        ensures
            r@ == self.spec_radius(),
    {
        if self.items.len() < self.capacity {
            max_distance()
        } else if self.items.len() == 0 {
            let z: Id256 = [0u8; 32];
            assert(z@ =~= zero_seq(32));
            z
        } else {
            let f = self.farthest();
            distance(&self.local_id, &self.items[f].id)
        }
    }

    /// Stores `payload` under `id`. Content already held is replaced in
    /// place. When the store is full, the farthest item (the oldest on equal
    /// distance) gives way if the new content is nearer; else nothing changes.
    pub fn put(&mut self, id: Id256, payload: Vec<u8>) -> (r: Result<(), StoreError>)
        requires
            old(self).wf(),
        ensures
            final(self).wf(),
            final(self).local_id == old(self).local_id,
            final(self).capacity == old(self).capacity,
            final(self).max_payload == old(self).max_payload,
            (final(self)@, r) == old(self).spec_put(id@, payload@),
    {
        if payload.len() > self.max_payload {
            return Err(StoreError::CapacityExceeded);
        }
        let ghost pv = payload@;
        match self.find(&id) {
            Some(i) => {
                let ghost before = self@;
                assert(has_id(before, id@));
                self.items.set(i, StoredItem { id, payload });
                assert(self@ =~= before.update(i as int, (id@, pv)));
                assert(self.wf());
                return Ok(());
            },
            None => {},
        }
        if self.items.len() < self.capacity {
            let ghost before = self@;
            self.items.push(StoredItem { id, payload });
            assert(self@ =~= before.push((id@, pv)));
            return Ok(());
        }
        if self.items.len() == 0 {
            return Err(StoreError::CapacityExceeded);
        }
        let f = self.farthest();
        let d_new = distance(&self.local_id, &id);
        let d_far = distance(&self.local_id, &self.items[f].id);
        if id_lt(&d_new, &d_far) {
            let ghost before = self@;
            self.items.remove(f);
            self.items.push(StoredItem { id, payload });
            assert(self@ =~= before.remove(f as int).push((id@, pv)));
            Ok(())
        } else {
            Err(StoreError::CapacityExceeded)
        }
    }
}

/// A full store given new content no farther from the local node than any
/// item it holds takes it: the farthest item (the oldest among equally far
/// ones) is the one evicted, every other item stays in order, and the new
/// content is held last.
pub proof fn lemma_full_put_evicts_farthest(s: ContentStore, id: Seq<u8>, payload: Seq<u8>)
    requires
        s.wf(),
        s@.len() == s.capacity,
        s.capacity > 0,
        id.len() == 32,
        payload.len() <= s.max_payload,
        !has_id(s@, id),
        forall|j: int|
            0 <= j < s@.len() ==> lex_le(xor_seq(s.local_id@, id), xor_seq(s.local_id@, (#[trigger] s@[j]).0)),
    ensures
        s.spec_put(id, payload).1 == Ok::<(), StoreError>(()),
        s.spec_put(id, payload).0 == s@.remove(s.eviction_index()).push((id, payload)),
        0 <= s.eviction_index() < s@.len(),
{
    let ids = ids_of(s@);
    assert forall|i: int| 0 <= i < ids.len() implies (#[trigger] ids[i]).len() == s.local_id@.len() by {
        assert(ids[i] == s.items@[i].id@);
    }
    lemma_farthest_first(s.local_id@, ids, s@.len() as int);
    let f = s.eviction_index();
    let dn = xor_seq(s.local_id@, id);
    let df = xor_seq(s.local_id@, s@[f].0);
    assert(ids[f] == s@[f].0);
    assert(lex_le(dn, df));
    lemma_lex_total(dn, df);
    if dn == df {
        crate::distance::lemma_distance_injective(s.local_id@, id, s@[f].0);
        assert(has_id(s@, id));
    }
}

/// Two stores with equal entries and equal bounds, given the same content,
/// give the same outcome and end with the same entries: eviction is a
/// function of what is held.
pub proof fn lemma_put_deterministic(a: ContentStore, b: ContentStore, id: Seq<u8>, payload: Seq<u8>)
    requires
        a@ == b@,
        a.local_id == b.local_id,
        a.capacity == b.capacity,
        a.max_payload == b.max_payload,
    ensures
        a.spec_put(id, payload) == b.spec_put(id, payload),
{
}

} // verus!
