//! The normalized announce request, the accounting delta it produces,
//! and the error surface visible to clients.

use vstd::prelude::*;

use crate::net::SockV4;
use crate::net::SockV6;

verus! {

/// What an announcing peer is doing, derived from its `event`
/// parameter or its remaining bytes.
#[derive(Clone, Copy, PartialEq, Eq, Structural, Debug)]
pub enum Action {
    Seeding,
    Leeching,
    Completed,
    Stopped,
}

/// The two request failures a client can see: a malformed or
/// incomplete announce, and an unrecognized route or missing query.
#[derive(Clone, Copy, PartialEq, Eq, Structural, Debug)]
pub enum ErrorResponse {
    BadRequest,
    BadAction,
}

/// One normalized client request, immutable once built.
#[derive(Debug)]
pub struct Announce {
    pub info_hash: String,
    pub peer_id: String,
    pub ipv4: Option<SockV4>,
    pub ipv6: Option<SockV6>,
    pub ul: u64,
    pub dl: u64,
    pub left: u64,
    pub action: Action,
    pub numwant: u8,
}

/// Mathematical image of an [`Announce`].
pub struct AnnounceView {
    pub info_hash: Seq<char>,
    pub peer_id: Seq<char>,
    pub ipv4: Option<SockV4>,
    pub ipv6: Option<SockV6>,
    pub ul: u64,
    pub dl: u64,
    pub left: u64,
    pub action: Action,
    pub numwant: u8,
}

impl View for Announce {
    type V = AnnounceView;

    open spec fn view(&self) -> AnnounceView {
        AnnounceView {
            info_hash: self.info_hash@,
            peer_id: self.peer_id@,
            ipv4: self.ipv4,
            ipv6: self.ipv6,
            ul: self.ul,
            dl: self.dl,
            left: self.left,
            action: self.action,
            numwant: self.numwant,
        }
    }
}

/// The net change one announce caused for one peer, handed to the
/// accounting gate.
pub struct Delta {
    pub peer_id: String,
    pub upload: u64,
    pub download: u64,
}

/// Mathematical image of a [`Delta`].
pub struct DeltaView {
    pub peer_id: Seq<char>,
    pub upload: u64,
    pub download: u64,
}

impl View for Delta {
    type V = DeltaView;

    open spec fn view(&self) -> DeltaView {
        DeltaView { peer_id: self.peer_id@, upload: self.upload, download: self.download }
    }
}

impl Delta {
    /// An empty delta for a peer that caused no counter change.
    pub fn new(peer_id: String) -> (d: Delta)
        ensures
            d@ == (DeltaView { peer_id: peer_id@, upload: 0u64, download: 0u64 }),
    {
        Delta { peer_id, upload: 0, download: 0 }
    }
}

} // verus!
