//! Peer-to-peer wire messages.
//!
//! The shapes exchanged between peers: routed application messages,
//! routing-table synchronization payloads and nonce-update requests.
//! Each carries a view so contracts can compare messages by content.

use vstd::prelude::*;
use crate::edge::Edge;
use crate::types::{AnnounceAccount, PartialEdgeInfo, RoutedMessage};

verus! {

/// Payload of a routing-table synchronization: freshly retained edges
/// and newly accepted account announcements.
#[derive(Clone, Debug)]
pub struct RoutingTableUpdate {
    pub edges: Vec<Edge>,
    pub accounts: Vec<AnnounceAccount>,
}

/// Content of a `RoutingTableUpdate`.
#[verifier::ext_equal]
pub struct RoutingTableUpdateV {
    pub edges: Seq<Edge>,
    pub accounts: Seq<AnnounceAccount>,
}

impl View for RoutingTableUpdate {
    type V = RoutingTableUpdateV;

    open spec fn view(&self) -> RoutingTableUpdateV {
        RoutingTableUpdateV { edges: self.edges@, accounts: self.accounts@ }
    }
}

impl RoutingTableUpdate {
    /// An update carrying edges alone.
    pub fn from_edges(edges: Vec<Edge>) -> (r: Self)
        ensures
            r@.edges == edges@,
            r@.accounts == Seq::<AnnounceAccount>::empty(),
    {
        RoutingTableUpdate { edges, accounts: Vec::new() }
    }

    /// An update carrying account announcements alone.
    pub fn from_accounts(accounts: Vec<AnnounceAccount>) -> (r: Self)
        ensures
            r@.accounts == accounts@,
            r@.edges == Seq::<Edge>::empty(),
    {
        RoutingTableUpdate { edges: Vec::new(), accounts }
    }
}

/// A message on the wire between two peers.
#[derive(Clone, Debug)]
pub enum PeerMessage {
    Routed(RoutedMessage),
    SyncRoutingTable(RoutingTableUpdate),
    RequestUpdateNonce(PartialEdgeInfo),
}

/// Content of a `PeerMessage`.
#[verifier::ext_equal]
pub enum PeerMessageV {
    Routed(RoutedMessage),
    SyncRoutingTable(RoutingTableUpdateV),
    RequestUpdateNonce(PartialEdgeInfo),
}

impl View for PeerMessage {
    type V = PeerMessageV;

    open spec fn view(&self) -> PeerMessageV {
        match self {
            PeerMessage::Routed(m) => PeerMessageV::Routed(*m),
            PeerMessage::SyncRoutingTable(u) => PeerMessageV::SyncRoutingTable(u@),
            PeerMessage::RequestUpdateNonce(p) => PeerMessageV::RequestUpdateNonce(*p),
        }
    }
}

fn copy_edges(v: &Vec<Edge>) -> (r: Vec<Edge>)
    ensures
        r@ == v@,
{
    let mut r: Vec<Edge> = Vec::new();
    let n = v.len();
    let mut i: usize = 0;
    while i < n
        invariant
            i <= n,
            n == v@.len(),
            r@ == v@.subrange(0, i as int),
        decreases n - i,
    {
        r.push(v[i]);
        proof {
            assert(r@ =~= v@.subrange(0, i + 1));
        }
        i += 1;
    }
    proof {
        assert(r@ =~= v@);
    }
    r
}

fn copy_accounts(v: &Vec<AnnounceAccount>) -> (r: Vec<AnnounceAccount>)
    ensures
        r@ == v@,
{
    let mut r: Vec<AnnounceAccount> = Vec::new();
    let n = v.len();
    let mut i: usize = 0;
    while i < n
        invariant
            i <= n,
            n == v@.len(),
            r@ == v@.subrange(0, i as int),
        decreases n - i,
    {
        r.push(v[i]);
        proof {
            assert(r@ =~= v@.subrange(0, i + 1));
        }
        i += 1;
    }
    proof {
        assert(r@ =~= v@);
    }
    r
}

impl PeerMessage {
    /// A fresh message with the same content, for fan-out to several
    /// peers.
    pub fn duplicate(&self) -> (r: Self)
        ensures
            r@ == self@,
    {
        match self {
            PeerMessage::Routed(m) => PeerMessage::Routed(*m),
            PeerMessage::SyncRoutingTable(u) => {
                let r = PeerMessage::SyncRoutingTable(RoutingTableUpdate {
                    edges: copy_edges(&u.edges),
                    accounts: copy_accounts(&u.accounts),
                });
                proof {
                    assert(r@ =~= self@);
                }
                r
            }
            PeerMessage::RequestUpdateNonce(p) => PeerMessage::RequestUpdateNonce(*p),
        }
    }
}

} // verus!
