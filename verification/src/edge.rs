//! Signed adjacency edges of the routing graph.
//!
//! An edge is an unordered pair of peers with a monotonic nonce.  The
//! parity of the nonce decides its state: odd means Active, even means
//! Removed.  An Active edge needs a valid signature from both
//! endpoints; a Removed edge needs a valid signature from either one,
//! so a single endpoint can withdraw unilaterally.

use vstd::prelude::*;
use crate::types::{EdgeSig, PeerId, SecretKey};

verus! {

/// Derived state of an edge.
#[derive(Clone, Copy, PartialEq, Eq, Structural, Debug)]
pub enum EdgeState {
    Active,
    Removed,
}

/// A signed adjacency witness between `peer0` and `peer1`.  The pair
/// is kept normalized with `peer0 < peer1`; `sig0` is `peer0`'s
/// signature slot and `sig1` is `peer1`'s.
#[derive(Clone, Copy, PartialEq, Eq, Structural, Debug)]
pub struct Edge {
    pub peer0: PeerId,
    pub peer1: PeerId,
    pub nonce: u64,
    pub sig0: Option<EdgeSig>,
    pub sig1: Option<EdgeSig>,
}

/// State an edge with the given nonce is in: odd is Active, even is
/// Removed.
pub open spec fn spec_state_of(nonce: u64) -> EdgeState {
    if nonce % 2 == 1 { EdgeState::Active } else { EdgeState::Removed }
}

/// The tombstone `remove_edge` builds: the nonce advanced by one and
/// a single signature, in the withdrawing endpoint's slot.
pub open spec fn spec_remove_edge(e: Edge, me: PeerId) -> Edge {
    let nonce = (e.nonce + 1) as u64;
    let sig = EdgeSig { signer: me, peer0: e.peer0, peer1: e.peer1, nonce };
    if e.peer0 == me {
        Edge { peer0: e.peer0, peer1: e.peer1, nonce, sig0: Some(sig), sig1: None }
    } else {
        Edge { peer0: e.peer0, peer1: e.peer1, nonce, sig0: None, sig1: Some(sig) }
    }
}

impl Edge {
    /// The pair is normalized and the endpoints differ.
    pub open spec fn spec_normalized(self) -> bool {
        self.peer0 < self.peer1
    }

    /// Derived state of this edge.
    pub open spec fn spec_state(self) -> EdgeState {
        spec_state_of(self.nonce)
    }

    /// `peer0`'s signature slot holds a valid signature over the triple.
    pub open spec fn spec_sig0_valid(self) -> bool {
        match self.sig0 {
            Some(s) => s.covers(self.peer0, self.peer1, self.nonce, self.peer0),
            None => false,
        }
    }

    /// `peer1`'s signature slot holds a valid signature over the triple.
    pub open spec fn spec_sig1_valid(self) -> bool {
        match self.sig1 {
            Some(s) => s.covers(self.peer0, self.peer1, self.nonce, self.peer1),
            None => false,
        }
    }

    /// The edge is well-signed: normalized, with both signatures valid
    /// when Active, and at least one valid when Removed.
    pub open spec fn spec_valid(self) -> bool {
        &&& self.spec_normalized()
        &&& if self.spec_state() is Active {
                self.spec_sig0_valid() && self.spec_sig1_valid()
            } else {
                self.spec_sig0_valid() || self.spec_sig1_valid()
            }
    }

    /// The two edges concern the same unordered pair.
    pub open spec fn spec_same_pair(self, other: Edge) -> bool {
        self.peer0 == other.peer0 && self.peer1 == other.peer1
    }

    /// The edge touches the given peer.
    pub open spec fn spec_touches(self, peer: PeerId) -> bool {
        self.peer0 == peer || self.peer1 == peer
    }

    /// The endpoint opposite `me`, in spec form; meaningful only when
    /// the edge touches `me`.
    pub open spec fn spec_other(self, me: PeerId) -> PeerId {
        if self.peer0 == me { self.peer1 } else { self.peer0 }
    }

    /// Build an edge from its parts.
    pub fn new(peer0: PeerId, peer1: PeerId, nonce: u64, sig0: Option<EdgeSig>, sig1: Option<EdgeSig>) -> (r: Edge)
        ensures
            r == (Edge { peer0, peer1, nonce, sig0, sig1 }),
    {
        Edge { peer0, peer1, nonce, sig0, sig1 }
    }

    /// Derived state of this edge.
    pub fn edge_type(&self) -> (r: EdgeState)
        ensures
            r == self.spec_state(),
    {
        if self.nonce % 2 == 1 { EdgeState::Active } else { EdgeState::Removed }
    }

    /// The endpoint opposite `me`, or `None` if the edge does not touch
    /// `me`.
    pub fn other(&self, me: PeerId) -> (r: Option<PeerId>)
        ensures
            r == if self.spec_touches(me) { Some(self.spec_other(me)) } else { None::<PeerId> },
    {
        if self.peer0 == me {
            Some(self.peer1)
        } else if self.peer1 == me {
            Some(self.peer0)
        } else {
            None
        }
    }

    /// The nonce a fresh Active proposal over this pair should carry:
    /// the next odd nonce after the current one.
    pub open spec fn spec_next(self) -> u64 {
        if self.nonce % 2 == 1 { (self.nonce + 2) as u64 } else { (self.nonce + 1) as u64 }
    }

    /// Next nonce for a fresh Active proposal over this pair.
    pub fn next(&self) -> (r: u64)
        requires
            self.nonce < u64::MAX - 1,
        ensures
            r == self.spec_next(),
            spec_state_of(r) is Active,
            r > self.nonce,
    {
        if self.nonce % 2 == 1 { self.nonce + 2 } else { self.nonce + 1 }
    }

    /// Whether this edge is well-signed.
    pub fn verify(&self) -> (r: bool)
        ensures
            r == self.spec_valid(),
    {
        if !(self.peer0 < self.peer1) {
            return false;
        }
        let s0 = match &self.sig0 {
            Some(s) => s.verify(self.peer0, self.peer1, self.nonce, self.peer0),
            None => false,
        };
        let s1 = match &self.sig1 {
            Some(s) => s.verify(self.peer0, self.peer1, self.nonce, self.peer1),
            None => false,
        };
        if self.nonce % 2 == 1 {
            s0 && s1
        } else {
            s0 || s1
        }
    }

    /// Withdraw an Active edge unilaterally: advance the nonce by one
    /// (flipping it to Removed) and sign with `me`'s key alone.
    pub fn remove_edge(&self, me: PeerId, key: &SecretKey) -> (r: Edge)
        requires
            self.spec_valid(),
            self.spec_state() is Active,
            self.spec_touches(me),
            key.owner == me,
            self.nonce < u64::MAX,
        ensures
            r == spec_remove_edge(*self, me),
            r.spec_valid(),
            r.spec_state() is Removed,
            r.spec_same_pair(*self),
            r.nonce == self.nonce + 1,
    {
        let nonce = self.nonce + 1;
        let sig = EdgeSig::sign(key, self.peer0, self.peer1, nonce);
        if self.peer0 == me {
            Edge { peer0: self.peer0, peer1: self.peer1, nonce, sig0: Some(sig), sig1: None }
        } else {
            Edge { peer0: self.peer0, peer1: self.peer1, nonce, sig0: None, sig1: Some(sig) }
        }
    }

    /// Build a fully signed Active edge between two distinct peers,
    /// signing for both endpoints; a convenience for handshake
    /// completion and tests.
    pub fn make_active(a: PeerId, b: PeerId, nonce: u64, key_a: &SecretKey, key_b: &SecretKey) -> (r: Edge)
        requires
            a != b,
            key_a.owner == a,
            key_b.owner == b,
            spec_state_of(nonce) is Active,
        ensures
            r.spec_valid(),
            r.spec_state() is Active,
            r.nonce == nonce,
            r.spec_touches(a),
            r.spec_touches(b),
            r.peer0 == if a < b { a } else { b },
            r.peer1 == if a < b { b } else { a },
    {
        let (p0, p1, k0, k1) = if a < b { (a, b, key_a, key_b) } else { (b, a, key_b, key_a) };
        Edge {
            peer0: p0,
            peer1: p1,
            nonce,
            sig0: Some(EdgeSig::sign(k0, p0, p1, nonce)),
            sig1: Some(EdgeSig::sign(k1, p0, p1, nonce)),
        }
    }
}

} // verus!
