//! The swarm state of one torrent: its seeders and leechers, the
//! state machine an announce drives, peer-list selection, statistics,
//! and reaping of stale peers.

use vstd::prelude::*;

use crate::announce::Action;
use crate::announce::Announce;
use crate::announce::AnnounceView;
use crate::announce::Delta;
use crate::announce::DeltaView;
use crate::codec::v4_bytes;
use crate::codec::v4_to_bytes;
use crate::codec::v6_bytes;
use crate::codec::v6_to_bytes;
use crate::peer::delta_of;
use crate::peer::peer_from;
use crate::peer::Peer;
use crate::table::reaped;
use crate::table::PeerTable;

verus! {

/// How long a silent peer is retained, in seconds.
pub const RETENTION_SECS: u64 = 3600;

/// Snapshot statistics of one torrent.
pub struct Stats {
    pub complete: i64,
    pub incomplete: i64,
    pub downloaded: i64,
}

/// A compact peer-list response payload: IPv4 entries of 6 bytes each
/// and IPv6 entries of 18 bytes each.
pub struct Peers {
    pub peers4: Vec<u8>,
    pub peers6: Vec<u8>,
}

/// One content swarm, keyed by its info hash.
pub struct Torrent {
    hash: String,
    snatches: u64,
    seeders: PeerTable,
    leechers: PeerTable,
    pub last_action: u64,
}

/// Mathematical image of a [`Torrent`].
pub struct TorrentView {
    pub hash: Seq<char>,
    pub snatches: u64,
    pub seeders: Map<Seq<char>, Peer>,
    pub leechers: Map<Seq<char>, Peer>,
    pub last_action: u64,
}

impl View for Torrent {
    type V = TorrentView;

    closed spec fn view(&self) -> TorrentView {
        TorrentView {
            hash: self.hash@,
            snatches: self.snatches,
            seeders: self.seeders@,
            leechers: self.leechers@,
            last_action: self.last_action,
        }
    }
}

/// No peer id is tracked in both maps at once.
pub open spec fn roles_disjoint_maps(se: Map<Seq<char>, Peer>, le: Map<Seq<char>, Peer>) -> bool {
    forall|k: Seq<char>| #[trigger] se.contains_key(k) ==> !le.contains_key(k)
}

/// A peer id is tracked in at most one of the two roles.
pub open spec fn roles_disjoint(t: TorrentView) -> bool {
    roles_disjoint_maps(t.seeders, t.leechers)
}

proof fn lemma_disjoint_insert_seeder(
    se: Map<Seq<char>, Peer>,
    le: Map<Seq<char>, Peer>,
    pid: Seq<char>,
    p: Peer,
)
    requires
        roles_disjoint_maps(se, le),
        !le.contains_key(pid),
    ensures
        roles_disjoint_maps(se.insert(pid, p), le),
{
    assert forall|k: Seq<char>| #[trigger] se.insert(pid, p).contains_key(k) implies !le.contains_key(
        k,
    ) by {
        if k != pid {
            assert(se.contains_key(k));
        }
    };
}

proof fn lemma_disjoint_insert_leecher(
    se: Map<Seq<char>, Peer>,
    le: Map<Seq<char>, Peer>,
    pid: Seq<char>,
    p: Peer,
)
    requires
        roles_disjoint_maps(se, le),
        !se.contains_key(pid),
    ensures
        roles_disjoint_maps(se, le.insert(pid, p)),
{
}

proof fn lemma_disjoint_move(
    se: Map<Seq<char>, Peer>,
    le: Map<Seq<char>, Peer>,
    pid: Seq<char>,
    p: Peer,
)
    requires
        roles_disjoint_maps(se, le),
    ensures
        roles_disjoint_maps(se.insert(pid, p), le.remove(pid)),
{
    assert forall|k: Seq<char>|
        #[trigger] se.insert(pid, p).contains_key(k) implies !le.remove(pid).contains_key(k) by {
        if k != pid {
            assert(se.contains_key(k));
        }
    };
}

proof fn lemma_disjoint_remove_both(
    se: Map<Seq<char>, Peer>,
    le: Map<Seq<char>, Peer>,
    pid: Seq<char>,
)
    requires
        roles_disjoint_maps(se, le),
    ensures
        roles_disjoint_maps(se.remove(pid), le.remove(pid)),
{
    assert forall|k: Seq<char>|
        #[trigger] se.remove(pid).contains_key(k) implies !le.remove(pid).contains_key(k) by {
        assert(se.contains_key(k));
    };
}

proof fn lemma_disjoint_reaped(
    se: Map<Seq<char>, Peer>,
    le: Map<Seq<char>, Peer>,
    now: u64,
    window: u64,
)
    requires
        roles_disjoint_maps(se, le),
    ensures
        roles_disjoint_maps(reaped(se, now, window), reaped(le, now, window)),
{
    assert forall|k: Seq<char>|
        #[trigger] reaped(se, now, window).contains_key(k) implies !reaped(
        le,
        now,
        window,
    ).contains_key(k) by {
        assert(se.contains_key(k));
    };
}

/// The snatch counter, one completed download further (it saturates
/// rather than wrap).
pub open spec fn snatch_inc(n: u64) -> u64 {
    if n < u64::MAX {
        (n + 1) as u64
    } else {
        n
    }
}

/// A delta reporting no counter movement.
pub open spec fn zero_delta(pid: Seq<char>) -> DeltaView {
    DeltaView { peer_id: pid, upload: 0u64, download: 0u64 }
}

/// An announce by a peer that is already tracked refreshes it where it
/// sits; an unknown peer is inserted into the map its action asks for.
pub open spec fn spec_refresh_or_insert(
    t: TorrentView,
    a: AnnounceView,
    now: u64,
    into_seeders: bool,
) -> (TorrentView, DeltaView) {
    let pid = a.peer_id;
    if t.seeders.contains_key(pid) {
        (
            TorrentView { seeders: t.seeders.insert(pid, peer_from(a, now)), last_action: now, ..t },
            delta_of(t.seeders[pid], a),
        )
    } else if t.leechers.contains_key(pid) {
        (
            TorrentView {
                leechers: t.leechers.insert(pid, peer_from(a, now)),
                last_action: now,
                ..t
            },
            delta_of(t.leechers[pid], a),
        )
    } else if into_seeders {
        (
            TorrentView { seeders: t.seeders.insert(pid, peer_from(a, now)), last_action: now, ..t },
            zero_delta(pid),
        )
    } else {
        (
            TorrentView {
                leechers: t.leechers.insert(pid, peer_from(a, now)),
                last_action: now,
                ..t
            },
            zero_delta(pid),
        )
    }
}

/// A completed announce moves a tracked leecher to the seeders and
/// counts the snatch; a peer already seeding is only refreshed; an
/// untracked peer becomes a seeder directly and the snatch counts.
pub open spec fn spec_completed(t: TorrentView, a: AnnounceView, now: u64) -> (
    TorrentView,
    DeltaView,
) {
    let pid = a.peer_id;
    if t.leechers.contains_key(pid) {
        (
            TorrentView {
                seeders: t.seeders.insert(pid, peer_from(a, now)),
                leechers: t.leechers.remove(pid),
                snatches: snatch_inc(t.snatches),
                last_action: now,
                ..t
            },
            delta_of(t.leechers[pid], a),
        )
    } else if t.seeders.contains_key(pid) {
        (
            TorrentView { seeders: t.seeders.insert(pid, peer_from(a, now)), last_action: now, ..t },
            delta_of(t.seeders[pid], a),
        )
    } else {
        (
            TorrentView {
                seeders: t.seeders.insert(pid, peer_from(a, now)),
                snatches: snatch_inc(t.snatches),
                last_action: now,
                ..t
            },
            zero_delta(pid),
        )
    }
}

/// A stopped announce removes the peer from both roles.
pub open spec fn spec_stopped(t: TorrentView, a: AnnounceView, now: u64) -> (
    TorrentView,
    DeltaView,
) {
    let pid = a.peer_id;
    let t2 = TorrentView {
        seeders: t.seeders.remove(pid),
        leechers: t.leechers.remove(pid),
        last_action: now,
        ..t
    };
    if t.leechers.contains_key(pid) {
        (t2, delta_of(t.leechers[pid], a))
    } else if t.seeders.contains_key(pid) {
        (t2, delta_of(t.seeders[pid], a))
    } else {
        (t2, zero_delta(pid))
    }
}

/// The full state transition one announce causes, with the delta it
/// reports.
pub open spec fn spec_update(t: TorrentView, a: AnnounceView, now: u64) -> (
    TorrentView,
    DeltaView,
) {
    match a.action {
        Action::Seeding => spec_refresh_or_insert(t, a, now, true),
        Action::Leeching => spec_refresh_or_insert(t, a, now, false),
        Action::Completed => spec_completed(t, a, now),
        Action::Stopped => spec_stopped(t, a, now),
    }
}

/// The bytes one peer contributes to the IPv4 list.
pub open spec fn peer_v4(p: Peer) -> Seq<u8> {
    match p.ipv4 {
        Some(s) => v4_bytes(s),
        None => Seq::empty(),
    }
}

/// The bytes one peer contributes to the IPv6 list.
pub open spec fn peer_v6(p: Peer) -> Seq<u8> {
    match p.ipv6 {
        Some(s) => v6_bytes(s),
        None => Seq::empty(),
    }
}

/// Whether a peer has at least one resolvable endpoint to offer.
pub open spec fn has_endpoint(p: Peer) -> bool {
    p.ipv4 is Some || p.ipv6 is Some
}

/// The result of walking one role's peers: the two byte lists and how
/// many peers were taken.
pub struct FillOut {
    pub v4: Seq<u8>,
    pub v6: Seq<u8>,
    pub count: int,
}

/// Walks peers in order, taking up to `wanted` that have an endpoint;
/// each taken peer contributes its IPv4 and IPv6 compact forms.
pub open spec fn fill(peers: Seq<Peer>, wanted: int) -> FillOut
    decreases peers.len(),
{
    if peers.len() == 0 || wanted <= 0 {
        FillOut { v4: Seq::empty(), v6: Seq::empty(), count: 0 }
    } else {
        let p = peers[0];
        if has_endpoint(p) {
            let rest = fill(peers.drop_first(), wanted - 1);
            FillOut { v4: peer_v4(p) + rest.v4, v6: peer_v6(p) + rest.v6, count: rest.count + 1 }
        } else {
            fill(peers.drop_first(), wanted)
        }
    }
}

/// Serves the `first` role up to the full quota, then fills what is
/// left of the quota from the `second` role.
pub open spec fn spec_select(first: Seq<Peer>, second: Seq<Peer>, wanted: int) -> (Seq<u8>, Seq<u8>) {
    let f = fill(first, wanted);
    if f.count == wanted {
        (f.v4, f.v6)
    } else {
        let g = fill(second, wanted - f.count);
        (f.v4 + g.v4, f.v6 + g.v6)
    }
}

/// What a peer-list query returns: a leecher is served seeders first,
/// a stopped peer nothing, anyone else leechers first.
pub open spec fn spec_get_peers(se: Seq<Peer>, le: Seq<Peer>, wanted: int, action: Action) -> (
    Seq<u8>,
    Seq<u8>,
) {
    match action {
        Action::Leeching => spec_select(se, le, wanted),
        Action::Stopped => (Seq::<u8>::empty(), Seq::<u8>::empty()),
        Action::Seeding => spec_select(le, se, wanted),
        Action::Completed => spec_select(le, se, wanted),
    }
}

/// A count capped to what an `i64` statistics field can carry.
pub open spec fn count_i64(n: int) -> int {
    if n <= i64::MAX {
        n
    } else {
        i64::MAX as int
    }
}

/// Relies on time::OffsetDateTime::now_utc for the current wall-clock
/// time, reduced to whole seconds since the Unix epoch.
#[verifier::external_body]
fn now_unix_seconds() -> i64 {
    time::OffsetDateTime::now_utc().unix_timestamp()
}

/// The current time as an unsigned second count; moments before the
/// epoch count as zero.
fn now_seconds() -> u64 {
    let t = now_unix_seconds();
    if t < 0 {
        0
    } else {
        t as u64
    }
}

impl Torrent {
    /// Well-formed: both tables hold each id once, and no id is in
    /// both roles.
    pub closed spec fn wf(&self) -> bool {
        self.seeders.wf() && self.leechers.wf() && roles_disjoint(self@)
    }

    /// The seeders in the selection's walking order.
    pub closed spec fn seeders_seq(&self) -> Seq<Peer> {
        self.seeders.peers_seq()
    }

    /// The leechers in the selection's walking order.
    pub closed spec fn leechers_seq(&self) -> Seq<Peer> {
        self.leechers.peers_seq()
    }

    /// A fresh, empty swarm for one info hash.
    pub fn new(hash: String) -> (t: Torrent)
        ensures
            t.wf(),
            roles_disjoint(t@),
            t@.hash == hash@,
            t@.snatches == 0u64,
            t@.seeders =~= Map::<Seq<char>, Peer>::empty(),
            t@.leechers =~= Map::<Seq<char>, Peer>::empty(),
    {
        Torrent {
            hash,
            snatches: 0,
            seeders: PeerTable::new(),
            leechers: PeerTable::new(),
            last_action: now_seconds(),
        }
    }

    /// Applies one announce at an explicit time and reports the delta
    /// it caused. The whole transition is pinned by [`spec_update`].
    pub fn update_at(&mut self, a: Announce, now: u64) -> (d: Delta)
        requires
            old(self).wf(),
        ensures
            final(self).wf(),
            roles_disjoint(final(self)@),
            final(self)@.seeders =~= spec_update(old(self)@, a@, now).0.seeders,
            final(self)@.leechers =~= spec_update(old(self)@, a@, now).0.leechers,
            final(self)@.snatches == spec_update(old(self)@, a@, now).0.snatches,
            final(self)@.hash == old(self)@.hash,
            final(self)@.last_action == now,
            d@ == spec_update(old(self)@, a@, now).1,
    {
        let ghost t0 = self@;
        self.last_action = now;
        let d = match a.action {
            Action::Seeding => self.refresh_or_insert(&a, now, true),
            Action::Leeching => self.refresh_or_insert(&a, now, false),
            Action::Completed => {
                match self.leechers.remove(&a.peer_id) {
                    Some(p0) => {
                        let mut p = p0;
                        let d = p.update(&a, now);
                        self.seeders.insert(a.peer_id.clone(), p);
                        if self.snatches < u64::MAX {
                            self.snatches = self.snatches + 1;
                        }
                        proof {
                            lemma_disjoint_move(
                                t0.seeders,
                                t0.leechers,
                                a.peer_id@,
                                peer_from(a@, now),
                            );
                        }
                        d
                    },
                    None => {
                        match self.seeders.get(&a.peer_id) {
                            Some(p0) => {
                                let mut p = p0;
                                let d = p.update(&a, now);
                                self.seeders.insert(a.peer_id.clone(), p);
                                proof {
                                    assert(self@.leechers =~= t0.leechers);
                                    lemma_disjoint_insert_seeder(
                                        t0.seeders,
                                        t0.leechers,
                                        a.peer_id@,
                                        peer_from(a@, now),
                                    );
                                }
                                d
                            },
                            None => {
                                self.seeders.insert(a.peer_id.clone(), Peer::new(&a, now));
                                if self.snatches < u64::MAX {
                                    self.snatches = self.snatches + 1;
                                }
                                proof {
                                    assert(self@.leechers =~= t0.leechers);
                                    lemma_disjoint_insert_seeder(
                                        t0.seeders,
                                        t0.leechers,
                                        a.peer_id@,
                                        peer_from(a@, now),
                                    );
                                }
                                Delta::new(a.peer_id.clone())
                            },
                        }
                    },
                }
            },
            Action::Stopped => {
                let from_leechers = self.leechers.remove(&a.peer_id);
                let from_seeders = self.seeders.remove(&a.peer_id);
                proof {
                    lemma_disjoint_remove_both(t0.seeders, t0.leechers, a.peer_id@);
                }
                match (from_leechers, from_seeders) {
                    (Some(p0), _) => {
                        let mut p = p0;
                        p.update(&a, now)
                    },
                    (None, Some(p0)) => {
                        let mut p = p0;
                        p.update(&a, now)
                    },
                    (None, None) => Delta::new(a.peer_id.clone()),
                }
            },
        };
        proof {
            assert(roles_disjoint(self@));
        }
        d
    }

    /// Refreshes a tracked peer in place, or inserts an unknown one
    /// into the role the announce asks for.
    fn refresh_or_insert(&mut self, a: &Announce, now: u64, into_seeders: bool) -> (d: Delta)
        requires
            old(self).wf(),
            old(self)@.last_action == now,
        ensures
            final(self).wf(),
            final(self)@.seeders =~= spec_refresh_or_insert(old(self)@, a@, now, into_seeders).0.seeders,
            final(self)@.leechers =~= spec_refresh_or_insert(
                old(self)@,
                a@,
                now,
                into_seeders,
            ).0.leechers,
            final(self)@.snatches == old(self)@.snatches,
            final(self)@.hash == old(self)@.hash,
            final(self)@.last_action == now,
            d@ == spec_refresh_or_insert(old(self)@, a@, now, into_seeders).1,
    {
        let ghost t0 = self@;
        match self.seeders.get(&a.peer_id) {
            Some(p0) => {
                let mut p = p0;
                let d = p.update(a, now);
                proof {
                    assert(!t0.leechers.contains_key(a.peer_id@));
                    lemma_disjoint_insert_seeder(
                        t0.seeders,
                        t0.leechers,
                        a.peer_id@,
                        peer_from(a@, now),
                    );
                }
                self.seeders.insert(a.peer_id.clone(), p);
                d
            },
            None => {
                match self.leechers.get(&a.peer_id) {
                    Some(p0) => {
                        let mut p = p0;
                        let d = p.update(a, now);
                        proof {
                            lemma_disjoint_insert_leecher(
                                t0.seeders,
                                t0.leechers,
                                a.peer_id@,
                                peer_from(a@, now),
                            );
                        }
                        self.leechers.insert(a.peer_id.clone(), p);
                        d
                    },
                    None => {
                        if into_seeders {
                            proof {
                                lemma_disjoint_insert_seeder(
                                    t0.seeders,
                                    t0.leechers,
                                    a.peer_id@,
                                    peer_from(a@, now),
                                );
                            }
                            self.seeders.insert(a.peer_id.clone(), Peer::new(a, now));
                        } else {
                            proof {
                                lemma_disjoint_insert_leecher(
                                    t0.seeders,
                                    t0.leechers,
                                    a.peer_id@,
                                    peer_from(a@, now),
                                );
                            }
                            self.leechers.insert(a.peer_id.clone(), Peer::new(a, now));
                        }
                        Delta::new(a.peer_id.clone())
                    },
                }
            },
        }
    }

    /// Applies one announce at the current wall-clock time.
    pub fn update(&mut self, a: Announce) -> (d: Delta)
        requires
            old(self).wf(),
        ensures
            final(self).wf(),
            roles_disjoint(final(self)@),
            exists|now: u64|
                {
                    &&& final(self)@.seeders =~= spec_update(old(self)@, a@, now).0.seeders
                    &&& final(self)@.leechers =~= spec_update(old(self)@, a@, now).0.leechers
                    &&& final(self)@.snatches == spec_update(old(self)@, a@, now).0.snatches
                    &&& final(self)@.last_action == now
                    &&& d@ == spec_update(old(self)@, a@, now).1
                },
            final(self)@.hash == old(self)@.hash,
    {
        let ghost t0 = self@;
        let now = now_seconds();
        let d = self.update_at(a, now);
        proof {
            assert(self@.seeders =~= spec_update(t0, a@, now).0.seeders);
            assert(self@.leechers =~= spec_update(t0, a@, now).0.leechers);
            assert(self@.snatches == spec_update(t0, a@, now).0.snatches);
            assert(d@ == spec_update(t0, a@, now).1);
        }
        d
    }

    /// Current seeder, leecher and snatch counts, each capped to the
    /// `i64` its field carries.
    pub fn get_stats(&self) -> (s: Stats)
        requires
            self.wf(),
        ensures
            s.complete == count_i64(self@.seeders.dom().len() as int),
            s.incomplete == count_i64(self@.leechers.dom().len() as int),
            s.downloaded == count_i64(self@.snatches as int),
    {
        let nse = self.seeders.len() as u64;
        let nle = self.leechers.len() as u64;
        Stats {
            complete: if nse > i64::MAX as u64 {
                i64::MAX
            } else {
                nse as i64
            },
            incomplete: if nle > i64::MAX as u64 {
                i64::MAX
            } else {
                nle as i64
            },
            downloaded: if self.snatches > i64::MAX as u64 {
                i64::MAX
            } else {
                self.snatches as i64
            },
        }
    }

    /// Up to `amount` peers with an endpoint, compact-encoded; the
    /// requester's own role is served the opposite role first.
    pub fn get_peers(&self, amount: u8, action: Action) -> (r: Peers)
        requires
            self.wf(),
        ensures
            r.peers4@ == spec_get_peers(
                self.seeders_seq(),
                self.leechers_seq(),
                amount as int,
                action,
            ).0,
            r.peers6@ == spec_get_peers(
                self.seeders_seq(),
                self.leechers_seq(),
                amount as int,
                action,
            ).1,
    {
        let mut peers4: Vec<u8> = Vec::new();
        let mut peers6: Vec<u8> = Vec::new();
        match action {
            Action::Leeching => {
                proof {
                    lemma_fill_count(self.seeders_seq(), amount as int);
                }
                let count = get_ips(&mut peers4, &mut peers6, &self.seeders, amount);
                if count != amount {
                    get_ips(&mut peers4, &mut peers6, &self.leechers, amount - count);
                }
                Peers { peers4, peers6 }
            },
            Action::Stopped => Peers { peers4, peers6 },
            Action::Seeding | Action::Completed => {
                proof {
                    lemma_fill_count(self.leechers_seq(), amount as int);
                }
                let count = get_ips(&mut peers4, &mut peers6, &self.leechers, amount);
                if count != amount {
                    get_ips(&mut peers4, &mut peers6, &self.seeders, amount - count);
                }
                Peers { peers4, peers6 }
            },
        }
    }

    /// Drops every peer, of either role, silent for longer than the
    /// retention window before `now`; all others stay unchanged.
    pub fn reap_at(&mut self, now: u64)
        requires
            old(self).wf(),
        ensures
            final(self).wf(),
            roles_disjoint(final(self)@),
            final(self)@.seeders =~= reaped(old(self)@.seeders, now, RETENTION_SECS),
            final(self)@.leechers =~= reaped(old(self)@.leechers, now, RETENTION_SECS),
            final(self)@.snatches == old(self)@.snatches,
            final(self)@.hash == old(self)@.hash,
            final(self)@.last_action == old(self)@.last_action,
    {
        let ghost t0 = self@;
        self.leechers.reap_stale(now, RETENTION_SECS);
        self.seeders.reap_stale(now, RETENTION_SECS);
        proof {
            lemma_disjoint_reaped(t0.seeders, t0.leechers, now, RETENTION_SECS);
        }
    }

    /// Reaps stale peers against the current wall-clock time.
    pub fn reap(&mut self)
        requires
            old(self).wf(),
        ensures
            final(self).wf(),
            roles_disjoint(final(self)@),
            exists|now: u64|
                {
                    &&& final(self)@.seeders =~= reaped(old(self)@.seeders, now, RETENTION_SECS)
                    &&& final(self)@.leechers =~= reaped(old(self)@.leechers, now, RETENTION_SECS)
                },
            final(self)@.snatches == old(self)@.snatches,
            final(self)@.hash == old(self)@.hash,
    {
        let ghost t0 = self@;
        let now = now_seconds();
        self.reap_at(now);
        proof {
            assert(self@.seeders =~= reaped(t0.seeders, now, RETENTION_SECS));
            assert(self@.leechers =~= reaped(t0.leechers, now, RETENTION_SECS));
        }
    }
}

/// Appends to the two byte lists the compact forms of up to `wanted`
/// peers of one table, and says how many peers it took.
fn get_ips(peers4: &mut Vec<u8>, peers6: &mut Vec<u8>, table: &PeerTable, wanted: u8) -> (count: u8)
    requires
        table.wf(),
    ensures
        final(peers4)@ == old(peers4)@ + fill(table.peers_seq(), wanted as int).v4,
        final(peers6)@ == old(peers6)@ + fill(table.peers_seq(), wanted as int).v6,
        count == fill(table.peers_seq(), wanted as int).count,
{
    let ghost ps = table.peers_seq();
    let n = table.len();
    let mut i: usize = 0;
    let mut count: u8 = 0;
    proof {
        assert(ps.skip(0) =~= ps);
    }
    while i < n && count < wanted
        invariant
            table.wf(),
            n == ps.len(),
            ps == table.peers_seq(),
            i <= n,
            count <= wanted,
            old(peers4)@ + fill(ps, wanted as int).v4 =~= peers4@ + fill(
                ps.skip(i as int),
                wanted - count,
            ).v4,
            old(peers6)@ + fill(ps, wanted as int).v6 =~= peers6@ + fill(
                ps.skip(i as int),
                wanted - count,
            ).v6,
            fill(ps, wanted as int).count == count + fill(ps.skip(i as int), wanted - count).count,
        decreases n - i,
    {
        let p = table.peer_at(i);
        proof {
            assert(ps.skip(i as int)[0] == ps[i as int]);
            assert(ps.skip(i as int).drop_first() =~= ps.skip(i as int + 1));
        }
        match (p.ipv4, p.ipv6) {
            (Some(v4), Some(v6)) => {
                let mut b4 = v4_to_bytes(&v4);
                let mut b6 = v6_to_bytes(&v6);
                peers4.append(&mut b4);
                peers6.append(&mut b6);
                count = count + 1;
            },
            (Some(v4), None) => {
                let mut b4 = v4_to_bytes(&v4);
                peers4.append(&mut b4);
                count = count + 1;
            },
            (None, Some(v6)) => {
                let mut b6 = v6_to_bytes(&v6);
                peers6.append(&mut b6);
                count = count + 1;
            },
            (None, None) => {},
        }
        i = i + 1;
    }
    proof {
        if count >= wanted {
            assert(fill(ps.skip(i as int), wanted - count).count == 0);
            assert(fill(ps.skip(i as int), wanted - count).v4 =~= Seq::<u8>::empty());
        } else {
            assert(i == n);
            assert(ps.skip(i as int) =~= Seq::<Peer>::empty());
        }
        assert(peers4@ =~= old(peers4)@ + fill(ps, wanted as int).v4);
        assert(peers6@ =~= old(peers6)@ + fill(ps, wanted as int).v6);
    }
    count
}

/// A role walk never takes more peers than were asked for.
pub proof fn lemma_fill_count(peers: Seq<Peer>, wanted: int)
    requires
        wanted >= 0,
    ensures
        0 <= fill(peers, wanted).count <= wanted,
    decreases peers.len(),
{
    if peers.len() == 0 || wanted <= 0 {
    } else if has_endpoint(peers[0]) {
        lemma_fill_count(peers.drop_first(), wanted - 1);
    } else {
        lemma_fill_count(peers.drop_first(), wanted);
    }
}

/// A role walk emits 6 IPv4 bytes and 18 IPv6 bytes at most per taken
/// peer.
pub proof fn lemma_fill_lengths(peers: Seq<Peer>, wanted: int)
    requires
        wanted >= 0,
    ensures
        fill(peers, wanted).v4.len() <= 6 * fill(peers, wanted).count,
        fill(peers, wanted).v6.len() <= 18 * fill(peers, wanted).count,
        fill(peers, wanted).v4.len() % 6 == 0,
        fill(peers, wanted).v6.len() % 18 == 0,
    decreases peers.len(),
{
    lemma_fill_count(peers, wanted);
    if peers.len() == 0 || wanted <= 0 {
    } else if has_endpoint(peers[0]) {
        lemma_fill_lengths(peers.drop_first(), wanted - 1);
        lemma_fill_count(peers.drop_first(), wanted - 1);
        assert(peer_v4(peers[0]).len() <= 6);
        assert(peer_v6(peers[0]).len() <= 18);
    } else {
        lemma_fill_lengths(peers.drop_first(), wanted);
    }
}

/// Law: a peer-list query never returns more than `amount` endpoint
/// groups — at most 6·`amount` IPv4 bytes and 18·`amount` IPv6 bytes —
/// and a leeching requester is served the seeders first, the leechers
/// only filling what the seeders left of the quota.
pub proof fn lemma_peer_list_bounded(se: Seq<Peer>, le: Seq<Peer>, amount: int, action: Action)
    requires
        amount >= 0,
    ensures
        spec_get_peers(se, le, amount, action).0.len() <= 6 * amount,
        spec_get_peers(se, le, amount, action).1.len() <= 18 * amount,
        spec_get_peers(se, le, amount, action).0.len() % 6 == 0,
        spec_get_peers(se, le, amount, action).1.len() % 18 == 0,
        action == Action::Leeching ==> spec_get_peers(se, le, amount, action).0.take(
            fill(se, amount).v4.len() as int,
        ) == fill(se, amount).v4,
        action == Action::Leeching ==> spec_get_peers(se, le, amount, action).1.take(
            fill(se, amount).v6.len() as int,
        ) == fill(se, amount).v6,
{
    lemma_fill_count(se, amount);
    lemma_fill_count(le, amount);
    lemma_fill_lengths(se, amount);
    lemma_fill_lengths(le, amount);
    let f = fill(se, amount);
    if f.count < amount {
        lemma_fill_count(le, amount - f.count);
        lemma_fill_lengths(le, amount - f.count);
    }
    let g = fill(le, amount);
    if g.count < amount {
        lemma_fill_count(se, amount - g.count);
        lemma_fill_lengths(se, amount - g.count);
    }
    if action == Action::Leeching {
        if f.count == amount {
            assert(spec_get_peers(se, le, amount, action).0.take(f.v4.len() as int) =~= f.v4);
            assert(spec_get_peers(se, le, amount, action).1.take(f.v6.len() as int) =~= f.v6);
        } else {
            assert(spec_get_peers(se, le, amount, action).0.take(f.v4.len() as int) =~= f.v4);
            assert(spec_get_peers(se, le, amount, action).1.take(f.v6.len() as int) =~= f.v6);
        }
    }
}

/// Law: after a stopped announce the peer is tracked in neither role.
pub proof fn lemma_stopped_removes(t: TorrentView, a: AnnounceView, now: u64)
    requires
        a.action == Action::Stopped,
    ensures
        !spec_update(t, a, now).0.seeders.contains_key(a.peer_id),
        !spec_update(t, a, now).0.leechers.contains_key(a.peer_id),
{
}

/// Law: a completed announce by a tracked leecher moves it to the
/// seeders, out of the leechers, and counts exactly one snatch.
pub proof fn lemma_completed_transition(t: TorrentView, a: AnnounceView, now: u64)
    requires
        a.action == Action::Completed,
        t.leechers.contains_key(a.peer_id),
        t.snatches < u64::MAX,
    ensures
        spec_update(t, a, now).0.seeders.contains_key(a.peer_id),
        !spec_update(t, a, now).0.leechers.contains_key(a.peer_id),
        spec_update(t, a, now).0.snatches == t.snatches + 1,
{
}

/// Law: repeating a completed announce while the peer is already a
/// seeder and no leecher does not move the snatch counter again.
pub proof fn lemma_completed_idempotent(t: TorrentView, a: AnnounceView, now: u64)
    requires
        a.action == Action::Completed,
        t.seeders.contains_key(a.peer_id),
        !t.leechers.contains_key(a.peer_id),
    ensures
        spec_update(t, a, now).0.snatches == t.snatches,
        spec_update(t, a, now).0.seeders.contains_key(a.peer_id),
        !spec_update(t, a, now).0.leechers.contains_key(a.peer_id),
{
}

} // verus!
