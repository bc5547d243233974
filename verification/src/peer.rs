//! One swarm participant's last-known state, and how an announce
//! refreshes it.

use vstd::prelude::*;

use crate::announce::Announce;
use crate::announce::AnnounceView;
use crate::announce::Delta;
use crate::announce::DeltaView;
use crate::net::SockV4;
use crate::net::SockV6;

verus! {

/// A swarm participant: resolved endpoints, cumulative counters and
/// the time of its last announce.
#[derive(Clone, Copy, PartialEq, Eq, Structural, Debug)]
pub struct Peer {
    pub ipv4: Option<SockV4>,
    pub ipv6: Option<SockV6>,
    pub uploaded: u64,
    pub downloaded: u64,
    pub left: u64,
    pub last_action: u64,
}

/// The peer state an announce establishes: its endpoints and counters,
/// stamped with the time of the announce.
pub open spec fn peer_from(a: AnnounceView, now: u64) -> Peer {
    Peer {
        ipv4: a.ipv4,
        ipv6: a.ipv6,
        uploaded: a.ul,
        downloaded: a.dl,
        left: a.left,
        last_action: now,
    }
}

/// The counter change an announce reports against a peer's previous
/// state; a counter that went backwards (client restart) counts as no
/// change.
pub open spec fn delta_of(p: Peer, a: AnnounceView) -> DeltaView {
    DeltaView {
        peer_id: a.peer_id,
        upload: if a.ul >= p.uploaded {
            (a.ul - p.uploaded) as u64
        } else {
            0u64
        },
        download: if a.dl >= p.downloaded {
            (a.dl - p.downloaded) as u64
        } else {
            0u64
        },
    }
}

impl Peer {
    /// A peer first seen through this announce.
    pub fn new(a: &Announce, now: u64) -> (p: Peer)
        ensures
            p == peer_from(a@, now),
    {
        Peer {
            ipv4: a.ipv4,
            ipv6: a.ipv6,
            uploaded: a.ul,
            downloaded: a.dl,
            left: a.left,
            last_action: now,
        }
    }

    /// Refreshes the peer from a new announce and reports the counter
    /// change since its previous state.
    pub fn update(&mut self, a: &Announce, now: u64) -> (d: Delta)
        ensures
            *final(self) == peer_from(a@, now),
            d@ == delta_of(*old(self), a@),
    {
        let upload = if a.ul >= self.uploaded {
            a.ul - self.uploaded
        } else {
            0
        };
        let download = if a.dl >= self.downloaded {
            a.dl - self.downloaded
        } else {
            0
        };
        self.ipv4 = a.ipv4;
        self.ipv6 = a.ipv6;
        self.uploaded = a.ul;
        self.downloaded = a.dl;
        self.left = a.left;
        self.last_action = now;
        Delta { peer_id: a.peer_id.clone(), upload, download }
    }
}

} // verus!
