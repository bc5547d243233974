//! The accounting gate backing a private-tracker mode: a buffered
//! ledger of announce deltas and admission checks. In open-tracker
//! mode every check admits and the ledger is drained unprocessed.

use vstd::prelude::*;

use crate::announce::Delta;
use crate::announce::DeltaView;

verus! {

/// Buffered announce deltas, plus the torrent and peer allow-lists a
/// gated mode would consult.
pub struct PrivateTracker {
    deltas: Vec<Delta>,
    torrents: Vec<String>,
    peers: Vec<String>,
}

impl PrivateTracker {
    /// The deltas buffered so far, oldest first.
    pub closed spec fn deltas_view(&self) -> Seq<DeltaView> {
        self.deltas@.map_values(|d: Delta| d@)
    }

    /// An empty gate with nothing buffered and nothing admitted yet.
    pub fn new() -> (t: PrivateTracker)
        ensures
            t.deltas_view() =~= Seq::<DeltaView>::empty(),
    {
        PrivateTracker { deltas: Vec::new(), torrents: Vec::new(), peers: Vec::new() }
    }

    /// Buffers one delta; nothing is lost and nothing reordered.
    pub fn add_announce(&mut self, delta: Delta)
        ensures
            final(self).deltas_view() =~= old(self).deltas_view().push(delta@),
    {
        let ghost d0 = self.deltas@;
        self.deltas.push(delta);
        proof {
            assert(self.deltas@.map_values(|d: Delta| d@) =~= d0.map_values(|d: Delta| d@).push(
                self.deltas@.last()@,
            ));
        }
    }

    /// Takes and clears everything buffered: every delta handed out
    /// exactly once, none kept back.
    pub fn flush(&mut self) -> (r: Vec<Delta>)
        ensures
            r@.map_values(|d: Delta| d@) == old(self).deltas_view(),
            final(self).deltas_view() =~= Seq::<DeltaView>::empty(),
    {
        let mut out: Vec<Delta> = Vec::new();
        core::mem::swap(&mut out, &mut self.deltas);
        proof {
            assert(self.deltas@.map_values(|d: Delta| d@) =~= Seq::<DeltaView>::empty());
        }
        out
    }

    /// Admits a peer; the open mode refuses nobody.
    pub fn validate_peer(&self, id: &String) -> (r: bool)
        ensures
            r,
    {
        true
    }

    /// Admits a torrent; the open mode refuses nothing.
    pub fn validate_torrent(&self, hash: &String) -> (r: bool)
        ensures
            r,
    {
        true
    }

    /// Refreshes the allow-lists; the open mode has none to refresh.
    pub fn update(&self) {
    }
}

} // verus!
