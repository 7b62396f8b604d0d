//! Record of peer bans and disconnects.
//!
//! Stands for the on-disk peer store: an opaque key-value backing in
//! which the core records, per peer, the last ban or orderly
//! disconnect.  The in-memory model keeps the latest record per peer.

use vstd::prelude::*;
use crate::idmap::IdMap;
use crate::types::{PeerId, ReasonForBan, Timestamp};

verus! {

/// Last recorded fate of a peer.
#[derive(Clone, Copy, PartialEq, Eq, Structural, Debug)]
pub enum PeerStatus {
    Banned(ReasonForBan, Timestamp),
    Disconnected(Timestamp),
}

/// Store of peer records.
pub struct PeerStore {
    records: IdMap<PeerStatus>,
}

impl PeerStore {
    /// Peer identity to its last record.
    pub closed spec fn spec_records(self) -> Map<PeerId, PeerStatus> {
        self.records@
    }

    /// An empty store.
    pub fn new() -> (r: Self)
        ensures
            r.spec_records() == Map::<PeerId, PeerStatus>::empty(),
    {
        PeerStore { records: IdMap::new() }
    }

    /// Record that `peer` was banned at `now` for `reason`.
    pub fn peer_ban(&mut self, now: Timestamp, peer: PeerId, reason: ReasonForBan)
        ensures
            final(self).spec_records()
                == old(self).spec_records().insert(peer, PeerStatus::Banned(reason, now)),
    {
        self.records.insert(peer, PeerStatus::Banned(reason, now));
    }

    /// Record that `peer` disconnected cleanly at `now`.
    pub fn peer_disconnected(&mut self, now: Timestamp, peer: PeerId)
        ensures
            final(self).spec_records()
                == old(self).spec_records().insert(peer, PeerStatus::Disconnected(now)),
    {
        self.records.insert(peer, PeerStatus::Disconnected(now));
    }

    /// The last record of `peer`, if any.
    pub fn status(&self, peer: PeerId) -> (r: Option<&PeerStatus>)
        ensures
            match r {
                Some(s) => self.spec_records().contains_key(peer)
                    && *s == self.spec_records()[peer],
                None => !self.spec_records().contains_key(peer),
            },
    {
        self.records.get(peer)
    }
}

} // verus!
