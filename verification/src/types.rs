//! Plain-value identities, signatures and wire messages.
//!
//! Identities are modelled as integers: a `PeerId` stands for a
//! public-key-derived identity, a `CryptoHash` for a message digest and
//! an `AccountId` for a validator account.  A signature is modelled as
//! a record of what it covers and who produced it, so validity is a
//! decidable predicate over plain values; the cryptographic primitive
//! it stands for lives outside this crate.

use vstd::prelude::*;

verus! {

/// Public-key-derived peer identity.
pub type PeerId = u64;

/// Digest of a routed message, used to address replies.
pub type CryptoHash = u64;

/// Validator account identity.
pub type AccountId = u64;

/// Epoch identity for account announcements.
pub type EpochId = u64;

/// A point in time, in milliseconds.
pub type Timestamp = u64;

/// The two delivery tiers: T1 is the low-latency validator channel,
/// T2 the general overlay carrying the routing graph.
#[derive(Clone, Copy, PartialEq, Eq, Structural, Debug)]
pub enum Tier {
    T1,
    T2,
}

/// Why a peer is banned.
#[derive(Clone, Copy, PartialEq, Eq, Structural, Debug)]
pub enum ReasonForBan {
    InvalidEdge,
    InvalidSignature,
    Abusive,
}

/// Secret signing key of a node; in this model it is identified with
/// the peer it belongs to.
#[derive(Clone, Copy, PartialEq, Eq, Structural, Debug)]
pub struct SecretKey {
    pub owner: PeerId,
}

/// A signature over an edge triple `(peer0, peer1, nonce)`.  It is
/// valid for a given triple and signer exactly when the recorded
/// fields match.
#[derive(Clone, Copy, PartialEq, Eq, Structural, Debug)]
pub struct EdgeSig {
    pub signer: PeerId,
    pub peer0: PeerId,
    pub peer1: PeerId,
    pub nonce: u64,
}

impl EdgeSig {
    /// What it means for this signature to cover the given edge triple
    /// on behalf of `signer`.
    pub open spec fn covers(self, peer0: PeerId, peer1: PeerId, nonce: u64, signer: PeerId) -> bool {
        &&& self.signer == signer
        &&& self.peer0 == peer0
        &&& self.peer1 == peer1
        &&& self.nonce == nonce
    }

    /// Sign an edge triple with a secret key.
    pub fn sign(key: &SecretKey, peer0: PeerId, peer1: PeerId, nonce: u64) -> (r: EdgeSig)
        ensures
            r.covers(peer0, peer1, nonce, key.owner),
    {
        EdgeSig { signer: key.owner, peer0, peer1, nonce }
    }

    /// Check that this signature covers the given triple for `signer`.
    pub fn verify(&self, peer0: PeerId, peer1: PeerId, nonce: u64, signer: PeerId) -> (r: bool)
        ensures
            r == self.covers(peer0, peer1, nonce, signer),
    {
        self.signer == signer && self.peer0 == peer0 && self.peer1 == peer1 && self.nonce == nonce
    }
}

/// A signature over a routed message: the author's endorsement of the
/// message digest.
#[derive(Clone, Copy, PartialEq, Eq, Structural, Debug)]
pub struct MsgSig {
    pub signer: PeerId,
    pub hash: CryptoHash,
}

/// A message target: either a peer identity or the hash of an earlier
/// message whose reply path is held in a route-back cache.
#[derive(Clone, Copy, PartialEq, Eq, Structural, Debug)]
pub enum PeerIdOrHash {
    PeerId(PeerId),
    Hash(CryptoHash),
}

/// Ping probe carried over the routed layer.
#[derive(Clone, Copy, PartialEq, Eq, Structural, Debug)]
pub struct Ping {
    pub nonce: u64,
    pub source: PeerId,
}

/// Pong reply carried over the routed layer.
#[derive(Clone, Copy, PartialEq, Eq, Structural, Debug)]
pub struct Pong {
    pub nonce: u64,
    pub source: PeerId,
}

/// Application-level body of a routed message.
#[derive(Clone, Copy, PartialEq, Eq, Structural, Debug)]
pub enum RoutedMessageBody {
    Ping(Ping),
    Pong(Pong),
    ForwardTx(u64),
    BlockApproval(u64),
}

impl RoutedMessageBody {
    /// Bodies that warrant redundant delivery.
    pub open spec fn spec_is_important(self) -> bool {
        self is BlockApproval
    }

    /// Whether this body warrants redundant delivery.
    pub fn is_important(&self) -> (r: bool)
        ensures
            r == self.spec_is_important(),
    {
        match self {
            RoutedMessageBody::BlockApproval(_) => true,
            _ => false,
        }
    }

    /// Bodies whose sender expects a routed reply.
    pub open spec fn spec_expect_response(self) -> bool {
        self is Ping
    }

    /// Whether the sender expects a routed reply.
    pub fn expect_response(&self) -> (r: bool)
        ensures
            r == self.spec_expect_response(),
    {
        match self {
            RoutedMessageBody::Ping(_) => true,
            _ => false,
        }
    }

    /// Modelled wire size of this body, in bytes.
    pub open spec fn spec_size(self) -> u64 {
        match self {
            RoutedMessageBody::Ping(_) => 24,
            RoutedMessageBody::Pong(_) => 24,
            RoutedMessageBody::ForwardTx(_) => 256,
            RoutedMessageBody::BlockApproval(_) => 96,
        }
    }

    /// Modelled wire size of this body, in bytes.
    pub fn size(&self) -> (r: u64)
        ensures
            r == self.spec_size(),
    {
        match self {
            RoutedMessageBody::Ping(_) => 24,
            RoutedMessageBody::Pong(_) => 24,
            RoutedMessageBody::ForwardTx(_) => 256,
            RoutedMessageBody::BlockApproval(_) => 96,
        }
    }
}

impl Tier {
    /// Only low-latency validator traffic may use T1.
    pub open spec fn spec_is_allowed_routed(self, body: RoutedMessageBody) -> bool {
        match self {
            Tier::T1 => body is BlockApproval,
            Tier::T2 => true,
        }
    }

    /// Whether a body may be routed over this tier.
    pub fn is_allowed_routed(&self, body: &RoutedMessageBody) -> (r: bool)
        ensures
            r == self.spec_is_allowed_routed(*body),
    {
        match self {
            Tier::T1 => matches!(body, RoutedMessageBody::BlockApproval(_)),
            Tier::T2 => true,
        }
    }
}

/// An unsigned routed message, as handed to the signing step.
#[derive(Clone, Copy, PartialEq, Eq, Structural, Debug)]
pub struct RawRoutedMessage {
    pub target: PeerIdOrHash,
    pub body: RoutedMessageBody,
}

/// A signed routed message travelling through the overlay.  The digest
/// covers target, author and body but not the TTL, so relaying (which
/// decrements the TTL) keeps the digest stable for route-back lookups.
#[derive(Clone, Copy, PartialEq, Eq, Structural, Debug)]
pub struct RoutedMessage {
    pub target: PeerIdOrHash,
    pub author: PeerId,
    pub signature: MsgSig,
    pub ttl: u8,
    pub body: RoutedMessageBody,
}

/// Digest of a target, folded into the message digest.
pub open spec fn spec_target_hash(target: PeerIdOrHash) -> u64 {
    match target {
        PeerIdOrHash::PeerId(p) => p ^ 0x9e3779b97f4a7c15,
        PeerIdOrHash::Hash(h) => h ^ 0x6a09e667f3bcc908,
    }
}

/// Digest of a body, folded into the message digest.
pub open spec fn spec_body_hash(body: RoutedMessageBody) -> u64 {
    match body {
        RoutedMessageBody::Ping(p) => (p.nonce << 8) ^ p.source ^ 0x1,
        RoutedMessageBody::Pong(p) => (p.nonce << 8) ^ p.source ^ 0x2,
        RoutedMessageBody::ForwardTx(t) => (t << 8) ^ 0x3,
        RoutedMessageBody::BlockApproval(a) => (a << 8) ^ 0x4,
    }
}

/// Digest of a routed message over `(target, author, body)`.
pub open spec fn spec_msg_hash(target: PeerIdOrHash, author: PeerId, body: RoutedMessageBody) -> u64 {
    spec_target_hash(target) ^ (author << 16) ^ spec_body_hash(body)
}

fn target_hash(target: &PeerIdOrHash) -> (r: u64)
    ensures
        r == spec_target_hash(*target),
{
    match target {
        PeerIdOrHash::PeerId(p) => *p ^ 0x9e3779b97f4a7c15,
        PeerIdOrHash::Hash(h) => *h ^ 0x6a09e667f3bcc908,
    }
}

fn body_hash(body: &RoutedMessageBody) -> (r: u64)
    ensures
        r == spec_body_hash(*body),
{
    match body {
        RoutedMessageBody::Ping(p) => (p.nonce << 8) ^ p.source ^ 0x1,
        RoutedMessageBody::Pong(p) => (p.nonce << 8) ^ p.source ^ 0x2,
        RoutedMessageBody::ForwardTx(t) => (*t << 8) ^ 0x3,
        RoutedMessageBody::BlockApproval(a) => (*a << 8) ^ 0x4,
    }
}

/// Compute the digest of a routed message over `(target, author, body)`.
pub fn msg_hash(target: &PeerIdOrHash, author: PeerId, body: &RoutedMessageBody) -> (r: u64)
    ensures
        r == spec_msg_hash(*target, author, *body),
{
    target_hash(target) ^ (author << 16) ^ body_hash(body)
}

impl RoutedMessage {
    /// The digest this message is addressed by in route-back caches.
    pub open spec fn spec_hash(self) -> CryptoHash {
        spec_msg_hash(self.target, self.author, self.body)
    }

    /// Compute the digest of this message.
    pub fn hash(&self) -> (r: CryptoHash)
        ensures
            r == self.spec_hash(),
    {
        msg_hash(&self.target, self.author, &self.body)
    }

    /// Whether the author expects a routed reply to this message.
    pub fn expect_response(&self) -> (r: bool)
        ensures
            r == self.body.spec_expect_response(),
    {
        self.body.expect_response()
    }
}

impl RawRoutedMessage {
    /// Sign the message: stamp the author, the TTL and a signature over
    /// the digest.
    pub fn sign(self, key: &SecretKey, ttl: u8) -> (r: RoutedMessage)
        ensures
            r.target == self.target,
            r.body == self.body,
            r.author == key.owner,
            r.ttl == ttl,
            r.signature == (MsgSig { signer: key.owner, hash: r.spec_hash() }),
    {
        let h = msg_hash(&self.target, key.owner, &self.body);
        RoutedMessage {
            target: self.target,
            author: key.owner,
            signature: MsgSig { signer: key.owner, hash: h },
            ttl,
            body: self.body,
        }
    }
}

/// A partially built edge: the nonce a node proposes for its side of a
/// handshake, with its signature over the triple it implies.
#[derive(Clone, Copy, PartialEq, Eq, Structural, Debug)]
pub struct PartialEdgeInfo {
    pub nonce: u64,
    pub signature: EdgeSig,
}

/// The proposal `me` makes towards `peer` with `nonce`: the signature
/// covers the normalized pair.
pub open spec fn spec_partial_edge_info(me: PeerId, peer: PeerId, nonce: u64) -> PartialEdgeInfo {
    let p0 = if me <= peer { me } else { peer };
    let p1 = if me <= peer { peer } else { me };
    PartialEdgeInfo {
        nonce,
        signature: EdgeSig { signer: me, peer0: p0, peer1: p1, nonce },
    }
}

impl PartialEdgeInfo {
    /// Build the proposal `me` makes towards `peer` with `nonce`.
    pub fn new(me: PeerId, peer: PeerId, nonce: u64, key: &SecretKey) -> (r: PartialEdgeInfo)
        requires
            key.owner == me,
        ensures
            r == spec_partial_edge_info(me, peer, nonce),
            r.nonce == nonce,
            r.signature.covers(
                if me <= peer { me } else { peer },
                if me <= peer { peer } else { me },
                nonce,
                me,
            ),
    {
        let (p0, p1) = if me <= peer { (me, peer) } else { (peer, me) };
        PartialEdgeInfo { nonce, signature: EdgeSig::sign(key, p0, p1, nonce) }
    }
}

/// A signed claim binding a validator account to a peer for an epoch.
/// Announcements are ordered by `(epoch_id, sig)`; the newest wins.
#[derive(Clone, Copy, PartialEq, Eq, Structural, Debug)]
pub struct AnnounceAccount {
    pub account_id: AccountId,
    pub peer_id: PeerId,
    pub epoch_id: EpochId,
    pub sig: u64,
}

impl AnnounceAccount {
    /// Strict ordering of announcements for the same account.
    pub open spec fn spec_newer_than(self, other: AnnounceAccount) -> bool {
        ||| self.epoch_id > other.epoch_id
        ||| (self.epoch_id == other.epoch_id && self.sig > other.sig)
    }

    /// Whether this announcement is strictly newer than `other`.
    pub fn newer_than(&self, other: &AnnounceAccount) -> (r: bool)
        ensures
            r == self.spec_newer_than(*other),
    {
        self.epoch_id > other.epoch_id || (self.epoch_id == other.epoch_id && self.sig > other.sig)
    }
}

/// Why a route could not be found.
#[derive(Clone, Copy, PartialEq, Eq, Structural, Debug)]
pub enum FindRouteError {
    Unreachable,
    RouteBackExpired,
}

} // verus!
