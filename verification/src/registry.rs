//! The connection registry: the one piece of state shared by every
//! connection. It maps each live identifier to that connection's
//! outbound queue of serialized payloads. The abstract model is a map
//! from identifier to queue, and every operation's contract is stated
//! over that model.

use vstd::prelude::*;

verus! {

/// One live connection: its identifier and its outbound queue of
/// serialized payloads awaiting transmission, oldest first. The queue
/// is consumed only by that connection's own outbound pump.
struct Entry {
    identifier: String,
    outbound: Vec<String>,
}

/// The model of one outbound queue: its payloads in transmission order.
spec fn entry_queue(e: Entry) -> Seq<Seq<char>> {
    e.outbound@.map_values(|p: String| p@)
}

/// The abstract state of the registry: each live identifier mapped to
/// its queued payloads.
pub type RegistryModel = Map<Seq<char>, Seq<Seq<char>>>;

/// The broadcast fan-out on the registry model: every registered queue
/// gets the payload appended; no identifier appears or vanishes.
pub open spec fn broadcast_model(m: RegistryModel, payload: Seq<char>) -> RegistryModel {
    Map::new(|k: Seq<char>| m.contains_key(k), |k: Seq<char>| m[k].push(payload))
}

spec fn has_id(s: Seq<Entry>, k: Seq<char>) -> bool {
    exists|i: int| 0 <= i < s.len() && s[i].identifier@ == k
}

spec fn idx_of(s: Seq<Entry>, k: Seq<char>) -> int {
    choose|i: int| 0 <= i < s.len() && s[i].identifier@ == k
}

spec fn distinct_ids(s: Seq<Entry>) -> bool {
    forall|i: int, j: int|
        0 <= i < j < s.len() ==> s[i].identifier@ != s[j].identifier@
}

proof fn lemma_idx_of_valid(s: Seq<Entry>, k: Seq<char>)
    requires
        has_id(s, k),
    ensures
        0 <= idx_of(s, k) < s.len(),
        s[idx_of(s, k)].identifier@ == k,
{
}

proof fn lemma_idx_of_unique(s: Seq<Entry>, i: int)
    requires
        distinct_ids(s),
        0 <= i < s.len(),
    ensures
        has_id(s, s[i].identifier@),
        idx_of(s, s[i].identifier@) == i,
{
    let k = s[i].identifier@;
    assert(has_id(s, k));
    let j = idx_of(s, k);
    lemma_idx_of_valid(s, k);
    if j < i {
        assert(s[j].identifier@ != s[i].identifier@);
    } else if i < j {
        assert(s[i].identifier@ != s[j].identifier@);
    }
}

/// The connection registry. The invariant `wf` (no identifier
/// collision) is established by `new` and preserved by every operation.
pub struct Registry {
    entries: Vec<Entry>,
}

impl View for Registry {
    type V = RegistryModel;

    closed spec fn view(&self) -> RegistryModel {
        Map::new(
            |k: Seq<char>| has_id(self.entries@, k),
            |k: Seq<char>| entry_queue(self.entries@[idx_of(self.entries@, k)]),
        )
    }
}

impl Registry {
    /// The registry invariant: no two entries share an identifier.
    pub closed spec fn wf(self) -> bool {
        distinct_ids(self.entries@)
    }

    /// An empty registry: no connection is live.
    pub fn new() -> (r: Registry)
        ensures
            r.wf(),
            r@ == RegistryModel::empty(),
    {
        let r = Registry { entries: Vec::new() };
        proof {
            assert(r@ =~= RegistryModel::empty());
        }
        r
    }

    /// The position of this identifier's entry, if the connection is live.
    fn find_index(&self, identifier: &String) -> (r: Option<usize>)
        requires
            self.wf(),
        ensures
            match r {
                Some(i) => i < self.entries@.len() && self.entries@[i as int].identifier@
                    == identifier@,
                None => !self@.contains_key(identifier@),
            },
    {
        let n = self.entries.len();
        let mut i: usize = 0;
        while i < n
            invariant
                n == self.entries@.len(),
                i <= n,
                forall|j: int| 0 <= j < i ==> self.entries@[j].identifier@ != identifier@,
            decreases n - i,
        {
            if self.entries[i].identifier == *identifier {
                return Some(i);
            }
            i = i + 1;
        }
        proof {
            assert(!has_id(self.entries@, identifier@));
        }
        None
    }

    /// Whether a connection with this identifier is currently live.
    pub fn is_registered(&self, identifier: &String) -> (present: bool)
        requires
            self.wf(),
        ensures
            present == self@.contains_key(identifier@),
    {
        match self.find_index(identifier) {
            Some(i) => {
                proof {
                    assert(has_id(self.entries@, identifier@));
                }
                true
            },
            None => false,
        }
    }

    /// Inserts a fresh entry with an empty outbound queue. Returns false
    /// and changes nothing only if the identifier is already live — the
    /// invariant violation the caller treats as fatal.
    pub fn register(&mut self, identifier: String) -> (fresh: bool)
        requires
            old(self).wf(),
        ensures
            final(self).wf(),
            fresh == !old(self)@.contains_key(identifier@),
            fresh ==> final(self)@ == old(self)@.insert(
                identifier@,
                Seq::<Seq<char>>::empty(),
            ),
            !fresh ==> final(self)@ == old(self)@,
    {
        let ghost k = identifier@;
        if self.is_registered(&identifier) {
            return false;
        }
        let ghost s1 = self.entries@;
        let entry = Entry { identifier, outbound: Vec::new() };
        self.entries.push(entry);
        proof {
            let s2 = self.entries@;
            assert(!has_id(s1, k));
            assert forall|i: int, j: int| 0 <= i < j < s2.len() implies s2[i].identifier@
                != s2[j].identifier@ by {
                if j < s1.len() {
                    assert(s1[i].identifier@ != s1[j].identifier@);
                } else {
                    assert(s2[j].identifier@ == k);
                    assert(s2[i] == s1[i]);
                }
            }
            let m1 = old(self)@;
            let m2 = self@;
            let target = m1.insert(k, Seq::<Seq<char>>::empty());
            assert forall|k2: Seq<char>| #[trigger] m2.contains_key(k2) implies target.contains_key(
                k2,
            ) by {
                let i = idx_of(s2, k2);
                lemma_idx_of_valid(s2, k2);
                if i < s1.len() {
                    assert(has_id(s1, k2));
                }
            }
            assert forall|k2: Seq<char>| #[trigger] target.contains_key(k2) implies m2.contains_key(
                k2,
            ) by {
                if k2 == k {
                    assert(s2[s1.len() as int].identifier@ == k2);
                    assert(has_id(s2, k2));
                } else {
                    let i = idx_of(s1, k2);
                    lemma_idx_of_valid(s1, k2);
                    assert(s2[i].identifier@ == k2);
                    assert(has_id(s2, k2));
                }
            }
            assert forall|k2: Seq<char>| #[trigger] m2.contains_key(k2) implies m2[k2]
                == target[k2] by {
                if k2 == k {
                    lemma_idx_of_unique(s2, s1.len() as int);
                    assert(m2[k2] == entry_queue(s2[s1.len() as int]));
                    assert(m2[k2] =~= Seq::<Seq<char>>::empty());
                } else {
                    let i = idx_of(s1, k2);
                    lemma_idx_of_valid(s1, k2);
                    assert(s2[i] == s1[i]);
                    lemma_idx_of_unique(s2, i);
                    lemma_idx_of_unique(s1, i);
                    assert(m2[k2] == entry_queue(s2[i]));
                    assert(target[k2] == m1[k2]);
                    assert(m1[k2] == entry_queue(s1[i]));
                }
            }
            assert(m2 =~= target);
        }
        true
    }

    /// Removes the entry for this identifier if it is live; an absent
    /// identifier is a no-op, so teardown can run idempotently. Either
    /// way the identifier is absent afterwards and every other
    /// connection is untouched.
    pub fn unregister(&mut self, identifier: &String)
        requires
            old(self).wf(),
        ensures
            final(self).wf(),
            final(self)@ == old(self)@.remove(identifier@),
            !final(self)@.contains_key(identifier@),
    {
        let ghost k = identifier@;
        match self.find_index(identifier) {
            Some(i) => {
                let ghost s1 = self.entries@;
                self.entries.remove(i);
                proof {
                    let s2 = self.entries@;
                    s1.remove_ensures(i as int);
                    assert(s2 == s1.remove(i as int));
                    assert forall|i2: int, j2: int| 0 <= i2 < j2 < s2.len() implies s2[i2].identifier@
                        != s2[j2].identifier@ by {
                        let oi = if i2 < i { i2 } else { i2 + 1 };
                        let oj = if j2 < i { j2 } else { j2 + 1 };
                        assert(s2[i2] == s1[oi]);
                        assert(s2[j2] == s1[oj]);
                        assert(s1[oi].identifier@ != s1[oj].identifier@);
                    }
                    let m1 = old(self)@;
                    let m2 = self@;
                    let target = m1.remove(k);
                    assert forall|k2: Seq<char>| #[trigger] m2.contains_key(k2) implies
                        target.contains_key(k2) && m2[k2] == target[k2] by {
                        let i2 = idx_of(s2, k2);
                        lemma_idx_of_valid(s2, k2);
                        let oi = if i2 < i { i2 } else { i2 + 1 };
                        assert(s2[i2] == s1[oi]);
                        assert(s1[oi].identifier@ == k2);
                        lemma_idx_of_unique(s1, oi);
                        assert(k2 != k);
                        assert(has_id(s1, k2));
                        lemma_idx_of_unique(s2, i2);
                        assert(m2[k2] == entry_queue(s2[i2]));
                        assert(target[k2] == entry_queue(s1[oi]));
                    }
                    assert forall|k2: Seq<char>| #[trigger] target.contains_key(k2) implies
                        m2.contains_key(k2) by {
                        let oi = idx_of(s1, k2);
                        lemma_idx_of_valid(s1, k2);
                        assert(k2 != k);
                        assert(s1[i as int].identifier@ == k);
                        assert(oi != i);
                        let i2 = if oi < i { oi } else { oi - 1 };
                        assert(s2[i2] == s1[oi]);
                        assert(has_id(s2, k2));
                    }
                    assert(m2 =~= target);
                }
            },
            None => {
                proof {
                    assert(!has_id(self.entries@, k));
                    let m1 = old(self)@;
                    let m2 = self@;
                    assert forall|k2: Seq<char>| #[trigger] m2.contains_key(k2) implies m1.remove(
                        k,
                    ).contains_key(k2) && m2[k2] == m1.remove(k)[k2] by {
                        assert(k2 != k);
                    }
                    assert forall|k2: Seq<char>| #[trigger] m1.remove(k).contains_key(k2) implies
                        m2.contains_key(k2) by {}
                    assert(m2 =~= m1.remove(k));
                }
            },
        }
    }

    /// Appends one serialized payload to every live connection's
    /// outbound queue: the broadcast fan-out, sender included.
    pub fn enqueue_all(&mut self, payload: &String)
        requires
            old(self).wf(),
        ensures
            final(self).wf(),
            final(self)@ == broadcast_model(old(self)@, payload@),
    {
        let n = self.entries.len();
        let mut i: usize = 0;
        while i < n
            invariant
                n == self.entries@.len(),
                i <= n,
                forall|j: int| 0 <= j < n ==> #[trigger] self.entries@[j].identifier@
                    == old(self).entries@[j].identifier@,
                forall|j: int| 0 <= j < i ==> #[trigger] self.entries@[j].outbound@
                    == old(self).entries@[j].outbound@.push(*payload),
                forall|j: int| i <= j < n ==> #[trigger] self.entries@[j].outbound@
                    == old(self).entries@[j].outbound@,
                old(self).wf(),
            decreases n - i,
        {
            self.entries[i].outbound.push(payload.clone());
            i = i + 1;
        }
        proof {
            let s1 = old(self).entries@;
            let s2 = self.entries@;
            assert forall|i2: int, j2: int| 0 <= i2 < j2 < s2.len() implies s2[i2].identifier@
                != s2[j2].identifier@ by {
                assert(s1[i2].identifier@ != s1[j2].identifier@);
            }
            let m1 = old(self)@;
            let m2 = self@;
            let target = broadcast_model(m1, payload@);
            assert forall|k2: Seq<char>| #[trigger] m2.contains_key(k2) implies
                target.contains_key(k2) && m2[k2] == target[k2] by {
                let i2 = idx_of(s2, k2);
                lemma_idx_of_valid(s2, k2);
                assert(s1[i2].identifier@ == k2);
                assert(has_id(s1, k2));
                lemma_idx_of_unique(s1, i2);
                lemma_idx_of_unique(s2, i2);
                assert(m2[k2] == entry_queue(s2[i2]));
                assert(m1[k2] == entry_queue(s1[i2]));
                assert(s2[i2].outbound@ == s1[i2].outbound@.push(*payload));
                assert(entry_queue(s2[i2]) =~= entry_queue(s1[i2]).push(payload@));
            }
            assert forall|k2: Seq<char>| #[trigger] target.contains_key(k2) implies m2.contains_key(
                k2,
            ) by {
                let i2 = idx_of(s1, k2);
                lemma_idx_of_valid(s1, k2);
                assert(s2[i2].identifier@ == k2);
                assert(has_id(s2, k2));
            }
            assert(m2 =~= target);
        }
    }

    /// Takes the next payload queued for this connection, oldest first —
    /// delivery order equals dispatch order. Returns nothing exactly
    /// when the identifier is absent or its queue is empty.
    pub fn pop_outbound(&mut self, identifier: &String) -> (r: Option<String>)
        requires
            old(self).wf(),
        ensures
            final(self).wf(),
            match r {
                Some(payload) => {
                    &&& old(self)@.contains_key(identifier@)
                    &&& old(self)@[identifier@].len() > 0
                    &&& payload@ == old(self)@[identifier@][0]
                    &&& final(self)@ == old(self)@.insert(
                        identifier@,
                        old(self)@[identifier@].drop_first(),
                    )
                },
                None => {
                    &&& final(self)@ == old(self)@
                    &&& old(self)@.contains_key(identifier@) ==> old(self)@[identifier@].len()
                        == 0
                },
            },
    {
        let ghost k = identifier@;
        match self.find_index(identifier) {
            Some(i) => {
                proof {
                    lemma_idx_of_unique(self.entries@, i as int);
                    assert(has_id(self.entries@, k));
                    assert(self@.contains_key(k));
                }
                if self.entries[i].outbound.len() == 0 {
                    proof {
                        assert(self@[k] == entry_queue(self.entries@[i as int]));
                        assert(self@[k].len() == 0);
                    }
                    return None;
                }
                let ghost s1 = self.entries@;
                let payload = self.entries[i].outbound.remove(0);
                proof {
                    let s2 = self.entries@;
                    assert(s2[i as int].identifier@ == s1[i as int].identifier@);
                    assert forall|j: int| 0 <= j < s2.len() && j != i implies s2[j] == s1[j] by {}
                    assert forall|i2: int, j2: int| 0 <= i2 < j2 < s2.len() implies s2[i2].identifier@
                        != s2[j2].identifier@ by {
                        assert(s1[i2].identifier@ != s1[j2].identifier@);
                    }
                    let m1 = old(self)@;
                    let m2 = self@;
                    let q1 = entry_queue(s1[i as int]);
                    assert(has_id(s1, k));
                    assert(idx_of(s1, k) == i);
                    assert(m1.contains_key(k));
                    assert(m1[k] == q1);
                    assert(payload@ == q1[0]);
                    let target = m1.insert(k, q1.drop_first());
                    assert forall|k2: Seq<char>| #[trigger] m2.contains_key(k2) implies
                        target.contains_key(k2) && m2[k2] == target[k2] by {
                        let i2 = idx_of(s2, k2);
                        lemma_idx_of_valid(s2, k2);
                        assert(s1[i2].identifier@ == k2);
                        assert(has_id(s1, k2));
                        lemma_idx_of_unique(s1, i2);
                        lemma_idx_of_unique(s2, i2);
                        assert(m2[k2] == entry_queue(s2[i2]));
                        if i2 == i {
                            assert(k2 == k);
                            s1[i as int].outbound@.remove_ensures(0);
                            assert(s2[i as int].outbound@ == s1[i as int].outbound@.remove(0));
                            assert(entry_queue(s2[i2]) =~= q1.drop_first());
                        } else {
                            assert(k2 != k);
                            assert(s2[i2] == s1[i2]);
                            assert(target[k2] == m1[k2]);
                            assert(m1[k2] == entry_queue(s1[i2]));
                        }
                    }
                    assert forall|k2: Seq<char>| #[trigger] target.contains_key(k2) implies
                        m2.contains_key(k2) by {
                        let i2 = idx_of(s1, k2);
                        lemma_idx_of_valid(s1, k2);
                        assert(s2[i2].identifier@ == k2);
                        assert(has_id(s2, k2));
                    }
                    assert(m2 =~= target);
                }
                Some(payload)
            },
            None => None,
        }
    }

    /// A consistent snapshot of the live identifiers at this instant:
    /// one per registered connection, no duplicates, nothing else.
    pub fn snapshot_ids(&self) -> (ids: Vec<String>)
        requires
            self.wf(),
        ensures
            forall|j: int| 0 <= j < ids@.len() ==> self@.contains_key(#[trigger] ids@[j]@),
            forall|k: Seq<char>| self@.contains_key(k) ==> exists|j: int|
                0 <= j < ids@.len() && #[trigger] ids@[j]@ == k,
            forall|j1: int, j2: int| 0 <= j1 < j2 < ids@.len() ==> ids@[j1]@ != ids@[j2]@,
    {
        let n = self.entries.len();
        let mut ids: Vec<String> = Vec::new();
        let mut i: usize = 0;
        while i < n
            invariant
                n == self.entries@.len(),
                i <= n,
                ids@.len() == i,
                forall|j: int| 0 <= j < i ==> #[trigger] ids@[j]@ == self.entries@[j].identifier@,
            decreases n - i,
        {
            ids.push(self.entries[i].identifier.clone());
            i = i + 1;
        }
        proof {
            assert forall|j: int| 0 <= j < ids@.len() implies self@.contains_key(
                #[trigger] ids@[j]@,
            ) by {
                assert(has_id(self.entries@, self.entries@[j].identifier@));
            }
            assert forall|k: Seq<char>| self@.contains_key(k) implies exists|j: int|
                0 <= j < ids@.len() && #[trigger] ids@[j]@ == k by {
                let i2 = idx_of(self.entries@, k);
                lemma_idx_of_valid(self.entries@, k);
                assert(ids@[i2]@ == k);
            }
        }
        ids
    }
}

} // verus!
