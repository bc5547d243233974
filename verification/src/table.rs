//! A small peer table keyed by peer id, viewed as a `Map` from id to
//! peer state. Backed by a vector of entries with pairwise-distinct
//! ids, so that peer selection can also walk it in a fixed order.

use vstd::prelude::*;

use crate::peer::Peer;

verus! {

/// One table entry: a peer id and the peer's state.
pub struct PeerEntry {
    pub id: String,
    pub peer: Peer,
}

/// The map a sequence of entries stands for; a later entry for the
/// same id would win, though a well-formed table never holds two.
pub open spec fn map_of(s: Seq<PeerEntry>) -> Map<Seq<char>, Peer>
    decreases s.len(),
{
    if s.len() == 0 {
        Map::empty()
    } else {
        map_of(s.drop_last()).insert(s.last().id@, s.last().peer)
    }
}

/// Entries carry pairwise-distinct ids.
pub open spec fn distinct_ids(s: Seq<PeerEntry>) -> bool {
    forall|i: int, j: int| 0 <= i < j < s.len() ==> s[i].id@ != s[j].id@
}

/// A key is in the map exactly when some entry carries it.
pub proof fn lemma_map_of_contains(s: Seq<PeerEntry>, k: Seq<char>)
    ensures
        map_of(s).contains_key(k) <==> exists|i: int| 0 <= i < s.len() && s[i].id@ == k,
    decreases s.len(),
{
    if s.len() > 0 {
        lemma_map_of_contains(s.drop_last(), k);
        if s.last().id@ == k {
            assert(s[s.len() - 1].id@ == k);
        } else if map_of(s).contains_key(k) {
            let i = choose|i: int| 0 <= i < s.drop_last().len() && s.drop_last()[i].id@ == k;
            assert(s[i].id@ == k);
        } else if exists|i: int| 0 <= i < s.len() && s[i].id@ == k {
            let i = choose|i: int| 0 <= i < s.len() && s[i].id@ == k;
            assert(s.drop_last()[i].id@ == k);
        }
    }
}

/// The map's domain is finite and exactly as large as a well-formed
/// entry list.
pub proof fn lemma_map_of_len(s: Seq<PeerEntry>)
    requires
        distinct_ids(s),
    ensures
        map_of(s).dom().finite(),
        map_of(s).dom().len() == s.len(),
    decreases s.len(),
{
    if s.len() == 0 {
        assert(map_of(s).dom() =~= Set::<Seq<char>>::empty());
    } else {
        lemma_map_of_len(s.drop_last());
        lemma_map_of_contains(s.drop_last(), s.last().id@);
        assert(forall|i: int|
            0 <= i < s.drop_last().len() ==> s.drop_last()[i].id@ != s.last().id@);
        assert(!map_of(s.drop_last()).contains_key(s.last().id@));
        assert(map_of(s).dom() =~= map_of(s.drop_last()).dom().insert(s.last().id@));
    }
}

/// In a well-formed table, the entry holding a key gives its value.
pub proof fn lemma_map_of_get(s: Seq<PeerEntry>, i: int)
    requires
        distinct_ids(s),
        0 <= i < s.len(),
    ensures
        map_of(s).contains_key(s[i].id@),
        map_of(s)[s[i].id@] == s[i].peer,
    decreases s.len(),
{
    if i == s.len() - 1 {
    } else {
        lemma_map_of_get(s.drop_last(), i);
        assert(s.drop_last()[i] == s[i]);
    }
}

/// Removing an entry removes exactly its key from the map.
pub proof fn lemma_map_of_remove(s: Seq<PeerEntry>, i: int)
    requires
        distinct_ids(s),
        0 <= i < s.len(),
    ensures
        map_of(s.remove(i)) =~= map_of(s).remove(s[i].id@),
    decreases s.len(),
{
    if i == s.len() - 1 {
        assert(s.remove(i) =~= s.drop_last());
        lemma_map_of_contains(s.drop_last(), s[i].id@);
        assert(!map_of(s.drop_last()).contains_key(s[i].id@));
        assert(map_of(s.drop_last()).remove(s[i].id@) =~= map_of(s.drop_last()));
    } else {
        lemma_map_of_remove(s.drop_last(), i);
        assert(s.remove(i).drop_last() =~= s.drop_last().remove(i));
        assert(s.remove(i).last() == s.last());
    }
}

/// Replacing the peer of an entry in place updates exactly its key.
pub proof fn lemma_map_of_update(s: Seq<PeerEntry>, i: int, e: PeerEntry)
    requires
        distinct_ids(s),
        0 <= i < s.len(),
        e.id@ == s[i].id@,
    ensures
        map_of(s.update(i, e)) =~= map_of(s).insert(e.id@, e.peer),
    decreases s.len(),
{
    if i == s.len() - 1 {
        assert(s.update(i, e).drop_last() =~= s.drop_last());
    } else {
        lemma_map_of_update(s.drop_last(), i, e);
        assert(s.update(i, e).drop_last() =~= s.drop_last().update(i, e));
        assert(s.update(i, e).last() == s.last());
        assert(s[i].id@ != s.last().id@);
    }
}

/// The peer table itself.
pub struct PeerTable {
    entries: Vec<PeerEntry>,
}

impl View for PeerTable {
    type V = Map<Seq<char>, Peer>;

    closed spec fn view(&self) -> Map<Seq<char>, Peer> {
        map_of(self.entries@)
    }
}

impl PeerTable {
    /// Well-formed: no id is held twice.
    pub closed spec fn wf(&self) -> bool {
        distinct_ids(self.entries@)
    }

    /// The peers in the table's own walking order.
    pub closed spec fn peers_seq(&self) -> Seq<Peer> {
        self.entries@.map_values(|e: PeerEntry| e.peer)
    }

    pub fn new() -> (t: PeerTable)
        ensures
            t.wf(),
            t@ =~= Map::<Seq<char>, Peer>::empty(),
            t.peers_seq() =~= Seq::<Peer>::empty(),
    {
        PeerTable { entries: Vec::new() }
    }

    /// How many peers the table holds.
    pub fn len(&self) -> (n: usize)
        requires
            self.wf(),
        ensures
            n == self.peers_seq().len(),
            n == self@.dom().len(),
            self@.dom().finite(),
    {
        proof {
            lemma_map_of_len(self.entries@);
        }
        self.entries.len()
    }

    /// The index of the entry holding an id, if any.
    fn find(&self, id: &String) -> (r: Option<usize>)
        ensures
            match r {
                Some(i) => i < self.entries@.len() && self.entries@[i as int].id@ == id@,
                None => forall|i: int| 0 <= i < self.entries@.len() ==> self.entries@[i].id@ != id@,
            },
    {
        let n = self.entries.len();
        let mut i: usize = 0;
        while i < n
            invariant
                n == self.entries@.len(),
                i <= n,
                forall|j: int| 0 <= j < i ==> self.entries@[j].id@ != id@,
            decreases n - i,
        {
            if self.entries[i].id == *id {
                return Some(i);
            }
            i += 1;
        }
        None
    }

    /// Whether a peer with this id is in the table.
    pub fn contains(&self, id: &String) -> (r: bool)
        ensures
            r == self@.contains_key(id@),
    {
        proof {
            lemma_map_of_contains(self.entries@, id@);
        }
        self.find(id).is_some()
    }

    /// The state of the peer with this id, if it is in the table.
    pub fn get(&self, id: &String) -> (r: Option<Peer>)
        requires
            self.wf(),
        ensures
            r == if self@.contains_key(id@) {
                Some(self@[id@])
            } else {
                None::<Peer>
            },
    {
        proof {
            lemma_map_of_contains(self.entries@, id@);
        }
        match self.find(id) {
            Some(i) => {
                proof {
                    lemma_map_of_get(self.entries@, i as int);
                }
                Some(self.entries[i].peer)
            },
            None => None,
        }
    }

    /// Inserts or replaces the peer with this id.
    pub fn insert(&mut self, id: String, peer: Peer)
        requires
            old(self).wf(),
        ensures
            final(self).wf(),
            final(self)@ =~= old(self)@.insert(id@, peer),
    {
        let ghost s0 = self.entries@;
        match self.find(&id) {
            Some(i) => {
                proof {
                    lemma_map_of_update(s0, i as int, PeerEntry { id, peer });
                }
                self.entries[i] = PeerEntry { id, peer };
                assert(self.entries@.len() == s0.len());
                assert(forall|j: int| 0 <= j < s0.len() ==> self.entries@[j].id@ == s0[j].id@);
                assert(distinct_ids(self.entries@));
            },
            None => {
                self.entries.push(PeerEntry { id, peer });
                proof {
                    assert(self.entries@.drop_last() =~= s0);
                    assert(forall|j: int| 0 <= j < s0.len() ==> self.entries@[j].id@ == s0[j].id@);
                    assert(forall|j: int| 0 <= j < s0.len() ==> s0[j].id@ != id@);
                    assert(distinct_ids(self.entries@));
                }
            },
        }
    }

    /// Removes the peer with this id, returning its last state.
    pub fn remove(&mut self, id: &String) -> (r: Option<Peer>)
        requires
            old(self).wf(),
        ensures
            final(self).wf(),
            final(self)@ =~= old(self)@.remove(id@),
            r == if old(self)@.contains_key(id@) {
                Some(old(self)@[id@])
            } else {
                None::<Peer>
            },
    {
        let ghost s0 = self.entries@;
        proof {
            lemma_map_of_contains(s0, id@);
        }
        match self.find(id) {
            Some(i) => {
                proof {
                    lemma_map_of_get(s0, i as int);
                    lemma_map_of_remove(s0, i as int);
                }
                let e = self.entries.remove(i);
                assert(distinct_ids(self.entries@));
                Some(e.peer)
            },
            None => {
                proof {
                    assert(old(self)@.remove(id@) =~= old(self)@);
                }
                None
            },
        }
    }

    /// The peer at one position of the walking order.
    pub fn peer_at(&self, i: usize) -> (p: Peer)
        requires
            i < self.peers_seq().len(),
        ensures
            p == self.peers_seq()[i as int],
    {
        self.entries[i].peer
    }
}

/// The map with every stale peer dropped: a peer is kept exactly when
/// its last activity lies within the retention window before `now`.
pub open spec fn reaped(m: Map<Seq<char>, Peer>, now: u64, window: u64) -> Map<Seq<char>, Peer> {
    m.restrict(Set::new(|k: Seq<char>| m.dom().contains(k) && m[k].last_action + window >= now))
}

impl PeerTable {
    /// Drops every peer whose last activity lies more than `window`
    /// seconds before `now`; every other peer is kept unchanged.
    pub fn reap_stale(&mut self, now: u64, window: u64)
        requires
            old(self).wf(),
        ensures
            final(self).wf(),
            final(self)@ =~= reaped(old(self)@, now, window),
    {
        let mut i: usize = 0;
        while i < self.entries.len()
            invariant
                distinct_ids(self.entries@),
                i <= self.entries@.len(),
                forall|j: int|
                    0 <= j < i ==> self.entries@[j].peer.last_action + window >= now,
                reaped(map_of(self.entries@), now, window) =~= reaped(old(self)@, now, window),
            decreases self.entries@.len() - i,
        {
            let stale = now > window && self.entries[i].peer.last_action < now - window;
            if stale {
                let ghost s = self.entries@;
                proof {
                    lemma_map_of_get(s, i as int);
                    lemma_map_of_remove(s, i as int);
                }
                let _ = self.entries.remove(i);
                proof {
                    assert(distinct_ids(self.entries@));
                    let k = s[i as int].id@;
                    assert(map_of(s)[k].last_action + window < now);
                    assert(reaped(map_of(s).remove(k), now, window) =~= reaped(
                        map_of(s),
                        now,
                        window,
                    ));
                }
            } else {
                i += 1;
            }
        }
        proof {
            let m = map_of(self.entries@);
            assert forall|k: Seq<char>| m.contains_key(k) implies m[k].last_action + window
                >= now by {
                lemma_map_of_contains(self.entries@, k);
                let j = choose|j: int|
                    0 <= j < self.entries@.len() && self.entries@[j].id@ == k;
                lemma_map_of_get(self.entries@, j);
            };
            assert(m =~= reaped(m, now, window));
        }
    }
}


/// Law: reaping keeps exactly the peers active within the retention
/// window, each with its state untouched.
pub proof fn lemma_reap_retention(m: Map<Seq<char>, Peer>, now: u64, window: u64, k: Seq<char>)
    ensures
        reaped(m, now, window).contains_key(k) <==> (m.contains_key(k) && m[k].last_action
            + window >= now),
        reaped(m, now, window).contains_key(k) ==> reaped(m, now, window)[k] == m[k],
{
}

} // verus!
