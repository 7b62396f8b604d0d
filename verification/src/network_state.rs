//! The network state: the node's live view of the overlay and the
//! driver of all message routing.
//!
//! It owns the two connection pools, the signed routing graph, the
//! derived routing view, the route-back caches, the peer store and
//! the ingress rate limiter, and exposes the operations a node
//! performs: proposing and withdrawing edges, routing signed messages
//! by peer, hash or account, folding announced edges into the graph,
//! pruning, and reconciling the connection set with the edge set.

use vstd::prelude::*;
use crate::connection_pool::{spec_broadcast_rel, spec_send_rel, Pool};
use crate::edge::{Edge, EdgeState};
use crate::edge_graph::{spec_dominates, EdgeGraph};
use crate::edge_verifier::verify_all;
use crate::inc64;
use crate::message::{PeerMessage, PeerMessageV, RoutingTableUpdate, RoutingTableUpdateV};
use crate::peer_store::{PeerStatus, PeerStore};
use crate::rate_limiter::RateLimiter;
use crate::route_back_cache::RouteBackCache;
use crate::routing_table_view::RoutingTableView;
use crate::types::{AccountId, AnnounceAccount, CryptoHash, MsgSig, PartialEdgeInfo, PeerId,
    PeerIdOrHash, Ping, Pong, RawRoutedMessage, ReasonForBan, RoutedMessage, RoutedMessageBody,
    SecretKey, Tier, Timestamp};

verus! {

/// Cap on concurrent in-flight inbound handshakes.
pub const LIMIT_PENDING_PEERS: u64 = 60;

/// Inbound receive rate per tier, bytes per second.
pub const RECV_BYTES_PER_SEC: u64 = 20 * 1024 * 1024;

/// Inbound receive burst per tier, bytes.
pub const RECV_BURST_BYTES: u64 = 40 * 1024 * 1024;

/// Node configuration recognized by the core.
#[derive(Clone, Copy, PartialEq, Eq, Structural, Debug)]
pub struct NetworkConfig {
    pub node_id: PeerId,
    pub node_key: SecretKey,
    pub routed_message_ttl: u8,
    pub skip_tombstones: Option<u64>,
    pub outbox_cap: usize,
    pub route_back_capacity: usize,
    pub route_back_ttl: u64,
    pub recv_qps: u64,
    pub recv_burst: u64,
}

impl NetworkConfig {
    /// A configuration with the standard resource limits: the
    /// receive limiter at its rated speed and burst, and moderate
    /// bounds for outboxes and the route-back caches.
    pub fn standard(node_id: PeerId, node_key: SecretKey, routed_message_ttl: u8) -> (r: NetworkConfig)
        ensures
            r.node_id == node_id,
            r.node_key == node_key,
            r.routed_message_ttl == routed_message_ttl,
            r.skip_tombstones is None,
            r.recv_qps == RECV_BYTES_PER_SEC,
            r.recv_burst == RECV_BURST_BYTES,
            r.route_back_capacity >= 1,
    {
        NetworkConfig {
            node_id,
            node_key,
            routed_message_ttl,
            skip_tombstones: None,
            outbox_cap: 1024,
            route_back_capacity: 1_000_000,
            route_back_ttl: 60_000,
            recv_qps: RECV_BYTES_PER_SEC,
            recv_burst: RECV_BURST_BYTES,
        }
    }
}

/// What became of an inbound routed message.
#[derive(Clone, Copy, PartialEq, Eq, Structural, Debug)]
pub enum ReceiveOutcome {
    RateLimited,
    ForMe,
    TtlExceeded,
    Forwarded(bool),
}

/// The signed routed message a node builds over `(target, body)`.
pub open spec fn spec_signed_routed(me: PeerId, target: PeerIdOrHash, body: RoutedMessageBody, ttl: u8) -> RoutedMessage {
    RoutedMessage {
        target,
        author: me,
        signature: MsgSig { signer: me, hash: crate::types::spec_msg_hash(target, me, body) },
        ttl,
        body,
    }
}

/// A route-back cache gained the binding `hash -> (peer, now)` and
/// kept every other surviving binding unchanged.
pub open spec fn spec_rb_inserted(pre: RouteBackCache, post: RouteBackCache, now: Timestamp, hash: CryptoHash, peer: PeerId) -> bool {
    &&& post.as_map().contains_key(hash)
    &&& post.as_map()[hash] == (peer, now)
    &&& forall|k: CryptoHash| k != hash && #[trigger] post.as_map().contains_key(k)
            ==> pre.as_map().contains_key(k) && post.as_map()[k] == pre.as_map()[k]
}

/// The network state of one node.
pub struct NetworkState {
    pub config: NetworkConfig,
    pub node_start: Timestamp,
    pub tier1: Pool,
    pub tier2: Pool,
    pub graph: EdgeGraph,
    pub routing_table_view: RoutingTableView,
    pub tier1_route_back: RouteBackCache,
    pub peer_store: PeerStore,
    pub tier1_recv_limiter: RateLimiter,
    pub connected_to_myself: u64,
    pub edge_tombstones_skipped: u64,
    pub dropped_no_route: u64,
    pub dropped_unknown_account: u64,
    pub txns_since_last_block: u64,
    pub handshake_permits: u64,
}

/// Fields a routing step never touches.
pub open spec fn spec_same_core(pre: NetworkState, post: NetworkState) -> bool {
    &&& post.config == pre.config
    &&& post.node_start == pre.node_start
    &&& post.graph == pre.graph
    &&& post.peer_store == pre.peer_store
    &&& post.tier1_recv_limiter == pre.tier1_recv_limiter
    &&& post.edge_tombstones_skipped == pre.edge_tombstones_skipped
    &&& post.dropped_unknown_account == pre.dropped_unknown_account
    &&& post.txns_since_last_block == pre.txns_since_last_block
    &&& post.handshake_permits == pre.handshake_permits
}

/// Routing-view fields a send never touches.
pub open spec fn spec_same_view_routing(pre: NetworkState, post: NetworkState) -> bool {
    &&& post.routing_table_view.me == pre.routing_table_view.me
    &&& post.routing_table_view.next_hops@ == pre.routing_table_view.next_hops@
    &&& post.routing_table_view.local_edges@ == pre.routing_table_view.local_edges@
    &&& post.routing_table_view.accounts@ == pre.routing_table_view.accounts@
}

/// How `send_message_to_peer` transforms the state: a message to
/// oneself is dropped and counted; a T1 message resolves directly or
/// consumes a T1 route-back binding; a T2 message resolves through
/// the next-hop table or consumes a T2 route-back binding, and an
/// expected reply leaves a route-back crumb pointing home.
pub open spec fn spec_send_to_peer_rel(pre: NetworkState, post: NetworkState, now: Timestamp, tier: Tier, msg: RoutedMessage, sent: bool) -> bool {
    let me = pre.config.node_id;
    &&& spec_same_core(pre, post)
    &&& spec_same_view_routing(pre, post)
    &&& if msg.target == PeerIdOrHash::PeerId(me) {
            &&& !sent
            &&& post.connected_to_myself == inc64(pre.connected_to_myself)
            &&& post.tier1 == pre.tier1
            &&& post.tier2 == pre.tier2
            &&& post.tier1_route_back == pre.tier1_route_back
            &&& post.routing_table_view.route_back == pre.routing_table_view.route_back
            &&& post.dropped_no_route == pre.dropped_no_route
        } else {
            &&& post.connected_to_myself == pre.connected_to_myself
            &&& match tier {
                Tier::T1 => {
                    &&& post.tier2 == pre.tier2
                    &&& post.routing_table_view.route_back == pre.routing_table_view.route_back
                    &&& post.dropped_no_route == pre.dropped_no_route
                    &&& match msg.target {
                        PeerIdOrHash::Hash(h) => {
                            &&& post.tier1_route_back.as_map()
                                    == pre.tier1_route_back.as_map().remove(h)
                            &&& if pre.tier1_route_back.as_map().contains_key(h)
                                    && pre.tier1_route_back.spec_fresh(
                                        pre.tier1_route_back.as_map()[h].1, now) {
                                    spec_send_rel(pre.tier1, post.tier1,
                                        pre.tier1_route_back.as_map()[h].0,
                                        PeerMessageV::Routed(msg), sent)
                                } else {
                                    !sent && post.tier1 == pre.tier1
                                }
                        }
                        PeerIdOrHash::PeerId(p) => {
                            &&& post.tier1_route_back == pre.tier1_route_back
                            &&& spec_send_rel(pre.tier1, post.tier1, p,
                                    PeerMessageV::Routed(msg), sent)
                        }
                    }
                }
                Tier::T2 => {
                    &&& post.tier1 == pre.tier1
                    &&& post.tier1_route_back == pre.tier1_route_back
                    &&& match msg.target {
                        PeerIdOrHash::PeerId(p) => {
                            if pre.routing_table_view.next_hops@.contains_key(p) {
                                &&& spec_send_rel(pre.tier2, post.tier2,
                                        pre.routing_table_view.next_hops@[p],
                                        PeerMessageV::Routed(msg), sent)
                                &&& post.dropped_no_route == pre.dropped_no_route
                                &&& if msg.author == me && msg.body.spec_expect_response() {
                                        spec_rb_inserted(pre.routing_table_view.route_back,
                                            post.routing_table_view.route_back, now,
                                            msg.spec_hash(), me)
                                    } else {
                                        post.routing_table_view.route_back
                                            == pre.routing_table_view.route_back
                                    }
                            } else {
                                &&& !sent
                                &&& post.tier2 == pre.tier2
                                &&& post.routing_table_view.route_back
                                        == pre.routing_table_view.route_back
                                &&& post.dropped_no_route == inc64(pre.dropped_no_route)
                            }
                        }
                        PeerIdOrHash::Hash(h) => {
                            let rb = pre.routing_table_view.route_back;
                            if rb.as_map().contains_key(h)
                                && rb.spec_fresh(rb.as_map()[h].1, now) {
                                &&& spec_send_rel(pre.tier2, post.tier2, rb.as_map()[h].0,
                                        PeerMessageV::Routed(msg), sent)
                                &&& post.dropped_no_route == pre.dropped_no_route
                                &&& if msg.author == me && msg.body.spec_expect_response() {
                                        spec_rb_inserted(rb,
                                            post.routing_table_view.route_back, now,
                                            msg.spec_hash(), me)
                                    } else {
                                        post.routing_table_view.route_back.as_map()
                                            == rb.as_map().remove(h)
                                    }
                            } else {
                                &&& !sent
                                &&& post.tier2 == pre.tier2
                                &&& post.routing_table_view.route_back.as_map()
                                        == rb.as_map().remove(h)
                                &&& post.dropped_no_route == inc64(pre.dropped_no_route)
                            }
                        }
                    }
                }
            }
        }
}

/// The T2 pool after a peer is unregistered: the peer is gone, and
/// every remaining connection is untouched except that `bcast`, when
/// given, was fanned out to those with room.
pub open spec fn spec_tier2_after_unregister(pre: Pool, post: Pool, peer: PeerId, bcast: Option<PeerMessageV>) -> bool {
    &&& post.spec_tier() == pre.spec_tier()
    &&& post.spec_ready().dom() == pre.spec_ready().dom().remove(peer)
    &&& forall|q: PeerId| q != peer && #[trigger] pre.spec_contains(q) ==> {
            let c0 = pre.spec_ready()[q];
            let c1 = post.spec_ready()[q];
            &&& c1.peer_id == c0.peer_id
            &&& c1.tier == c0.tier
            &&& c1.outbox_cap == c0.outbox_cap
            &&& c1.spec_outbox_v() == match bcast {
                    Some(m) => if c0.spec_has_room() {
                        c0.spec_outbox_v().push(m)
                    } else {
                        c0.spec_outbox_v()
                    },
                    None => c0.spec_outbox_v(),
                }
        }
}

impl NetworkState {
    /// The state is wired for its own identity: the signing key
    /// belongs to the node and each pool serves its tier.
    pub open spec fn wf(self) -> bool {
        &&& self.config.node_key.owner == self.config.node_id
        &&& self.tier1.spec_tier() is T1
        &&& self.tier2.spec_tier() is T2
        &&& self.routing_table_view.me == self.config.node_id
        &&& self.graph.spec_me() == self.config.node_id
    }

    /// A fresh node state: empty pools, empty graph and view, full
    /// rate limiter, all counters zero, all handshake permits free.
    pub fn new(config: NetworkConfig, now: Timestamp) -> (r: Self)
        requires
            config.node_key.owner == config.node_id,
            config.route_back_capacity >= 1,
            1 <= config.recv_qps < 0x1_0000_0000,
            config.recv_burst <= 0x4000_0000_0000_0000,
            1000 * config.recv_burst <= 0x1_0000_0000 * config.recv_qps,
        ensures
            r.wf(),
            r.config == config,
            r.node_start == now,
            r.tier1.spec_ready().dom() == Set::<PeerId>::empty(),
            r.tier2.spec_ready().dom() == Set::<PeerId>::empty(),
            r.graph.spec_entries() == Seq::<(Edge, Timestamp)>::empty(),
            r.graph.spec_hist() == Seq::<Edge>::empty(),
            r.routing_table_view.local_edges@ == Map::<PeerId, Edge>::empty(),
            r.routing_table_view.accounts@ == Map::<AccountId, AnnounceAccount>::empty(),
            r.routing_table_view.next_hops@ == Map::<PeerId, PeerId>::empty(),
            r.tier1_route_back@ == Seq::<(CryptoHash, (PeerId, Timestamp))>::empty(),
            r.peer_store.spec_records() == Map::<PeerId, PeerStatus>::empty(),
            r.connected_to_myself == 0,
            r.edge_tombstones_skipped == 0,
            r.dropped_no_route == 0,
            r.dropped_unknown_account == 0,
            r.txns_since_last_block == 0,
            r.handshake_permits == LIMIT_PENDING_PEERS,
            r.tier1_recv_limiter.spec_qps() == config.recv_qps,
            r.tier1_recv_limiter.spec_burst() == config.recv_burst,
            r.tier1_recv_limiter.spec_tokens() == config.recv_burst,
            r.tier1_recv_limiter.spec_last() == now,
    {
        let r = NetworkState {
            config,
            node_start: now,
            tier1: Pool::new(Tier::T1),
            tier2: Pool::new(Tier::T2),
            graph: EdgeGraph::new(config.node_id),
            routing_table_view: RoutingTableView::new(
                config.node_id, config.route_back_capacity, config.route_back_ttl),
            tier1_route_back: RouteBackCache::new(
                config.route_back_capacity, config.route_back_ttl),
            peer_store: PeerStore::new(),
            tier1_recv_limiter: RateLimiter::new(now, config.recv_qps, config.recv_burst),
            connected_to_myself: 0,
            edge_tombstones_skipped: 0,
            dropped_no_route: 0,
            dropped_unknown_account: 0,
            txns_since_last_block: 0,
            handshake_permits: LIMIT_PENDING_PEERS,
        };
        proof {
            assert(r.tier1.spec_ready().dom() =~= Set::<PeerId>::empty());
            assert(r.tier2.spec_ready().dom() =~= Set::<PeerId>::empty());
        }
        r
    }

    /// The nonce and signature this node proposes for its side of a
    /// handshake with `peer`: the requested nonce, or the next nonce
    /// after the current local edge, or 1 for a first contact.
    pub fn propose_edge(&self, peer: PeerId, with_nonce: Option<u64>) -> (r: PartialEdgeInfo)
        requires
            self.wf(),
            with_nonce is None && self.routing_table_view.local_edges@.contains_key(peer)
                ==> self.routing_table_view.local_edges@[peer].nonce < u64::MAX - 1,
        ensures
            r.nonce == match with_nonce {
                Some(n) => n,
                None => if self.routing_table_view.local_edges@.contains_key(peer) {
                    self.routing_table_view.local_edges@[peer].spec_next()
                } else {
                    1
                },
            },
            r.signature.covers(
                if self.config.node_id <= peer { self.config.node_id } else { peer },
                if self.config.node_id <= peer { peer } else { self.config.node_id },
                r.nonce,
                self.config.node_id,
            ),
    {
        let nonce = match with_nonce {
            Some(n) => n,
            None => match self.routing_table_view.get_local_edge(peer) {
                Some(edge) => edge.next(),
                None => 1,
            },
        };
        PartialEdgeInfo::new(self.config.node_id, peer, nonce, &self.config.node_key)
    }

    /// Whether the target of a routed message refers to this node:
    /// its own peer id, or a hash whose route-back binding points at
    /// itself.
    pub fn message_for_me(&self, now: Timestamp, target: &PeerIdOrHash) -> (r: bool)
        ensures
            r == match *target {
                PeerIdOrHash::PeerId(p) => p == self.config.node_id,
                PeerIdOrHash::Hash(h) => {
                    let rb = self.routing_table_view.route_back;
                    rb.as_map().contains_key(h)
                        && rb.spec_fresh(rb.as_map()[h].1, now)
                        && rb.as_map()[h].0 == self.config.node_id
                }
            },
    {
        match target {
            PeerIdOrHash::PeerId(p) => *p == self.config.node_id,
            PeerIdOrHash::Hash(h) => {
                self.routing_table_view.compare_route_back(now, *h, self.config.node_id)
            }
        }
    }

    /// Stamp a raw routed message with this node's authorship, TTL
    /// and signature over its digest.
    pub fn sign_message(&self, msg: RawRoutedMessage) -> (r: RoutedMessage)
        requires
            self.wf(),
        ensures
            r == spec_signed_routed(self.config.node_id, msg.target, msg.body,
                self.config.routed_message_ttl),
    {
        msg.sign(&self.config.node_key, self.config.routed_message_ttl)
    }

    /// Route a signed message towards its target over the given tier.
    /// Returns whether some peer accepted it.
    pub fn send_message_to_peer(&mut self, now: Timestamp, tier: Tier, msg: RoutedMessage) -> (r: bool)
        requires
            old(self).wf(),
        ensures
            final(self).wf(),
            spec_send_to_peer_rel(*old(self), *final(self), now, tier, msg, r),
    {
        let me = self.config.node_id;
        match &msg.target {
            PeerIdOrHash::PeerId(t) => {
                if *t == me {
                    self.connected_to_myself = if self.connected_to_myself == u64::MAX {
                        self.connected_to_myself
                    } else {
                        self.connected_to_myself + 1
                    };
                    return false;
                }
            }
            PeerIdOrHash::Hash(_) => {}
        }
        match tier {
            Tier::T1 => {
                let peer = match &msg.target {
                    PeerIdOrHash::Hash(h) => {
                        match self.tier1_route_back.remove(now, *h) {
                            Some(p) => p,
                            None => {
                                return false;
                            }
                        }
                    }
                    PeerIdOrHash::PeerId(p) => *p,
                };
                self.tier1.send_message(peer, PeerMessage::Routed(msg))
            }
            Tier::T2 => {
                match self.routing_table_view.find_route(now, &msg.target) {
                    Ok(peer) => {
                        if msg.author == me && msg.expect_response() {
                            let h = msg.hash();
                            self.routing_table_view.add_route_back(now, h, me);
                        }
                        self.tier2.send_message(peer, PeerMessage::Routed(msg))
                    }
                    Err(_) => {
                        self.dropped_no_route = if self.dropped_no_route == u64::MAX {
                            self.dropped_no_route
                        } else {
                            self.dropped_no_route + 1
                        };
                        false
                    }
                }
            }
        }
    }

    /// Send a signed ping probe to `target` over `tier`.
    pub fn send_ping(&mut self, now: Timestamp, tier: Tier, nonce: u64, target: PeerId) -> (r: bool)
        requires
            old(self).wf(),
        ensures
            final(self).wf(),
            spec_send_to_peer_rel(*old(self), *final(self), now, tier,
                spec_signed_routed(old(self).config.node_id, PeerIdOrHash::PeerId(target),
                    RoutedMessageBody::Ping(Ping { nonce, source: old(self).config.node_id }),
                    old(self).config.routed_message_ttl),
                r),
    {
        let body = RoutedMessageBody::Ping(Ping { nonce, source: self.config.node_id });
        let msg = self.sign_message(RawRoutedMessage { target: PeerIdOrHash::PeerId(target), body });
        self.send_message_to_peer(now, tier, msg)
    }

    /// Send a signed pong reply addressed by the hash of the probed
    /// message.
    pub fn send_pong(&mut self, now: Timestamp, tier: Tier, nonce: u64, target: CryptoHash) -> (r: bool)
        requires
            old(self).wf(),
        ensures
            final(self).wf(),
            spec_send_to_peer_rel(*old(self), *final(self), now, tier,
                spec_signed_routed(old(self).config.node_id, PeerIdOrHash::Hash(target),
                    RoutedMessageBody::Pong(Pong { nonce, source: old(self).config.node_id }),
                    old(self).config.routed_message_ttl),
                r),
    {
        let body = RoutedMessageBody::Pong(Pong { nonce, source: self.config.node_id });
        let msg = self.sign_message(RawRoutedMessage { target: PeerIdOrHash::Hash(target), body });
        self.send_message_to_peer(now, tier, msg)
    }

    /// Stop the peer's T2 session if it is connected, otherwise
    /// record the ban in the peer store directly.
    pub fn disconnect_and_ban(&mut self, now: Timestamp, peer: PeerId, ban_reason: ReasonForBan)
        requires
            old(self).wf(),
        ensures
            final(self).wf(),
            spec_same_view_routing(*old(self), *final(self)),
            final(self).config == old(self).config,
            final(self).node_start == old(self).node_start,
            final(self).graph == old(self).graph,
            final(self).tier1 == old(self).tier1,
            final(self).tier1_route_back == old(self).tier1_route_back,
            final(self).routing_table_view.route_back == old(self).routing_table_view.route_back,
            if old(self).tier2.spec_contains(peer) {
                &&& final(self).tier2.spec_ready() == old(self).tier2.spec_ready().remove(peer)
                &&& final(self).tier2.spec_stop_log()
                        == old(self).tier2.spec_stop_log().push((peer, Some(ban_reason)))
                &&& final(self).peer_store == old(self).peer_store
            } else {
                &&& final(self).tier2.spec_ready() == old(self).tier2.spec_ready()
                &&& final(self).tier2.spec_stop_log() == old(self).tier2.spec_stop_log()
                &&& final(self).peer_store.spec_records()
                        == old(self).peer_store.spec_records().insert(
                            peer, PeerStatus::Banned(ban_reason, now))
            },
    {
        if self.tier2.contains(peer) {
            self.tier2.stop_peer(peer, Some(ban_reason));
        } else {
            proof {
                assert(old(self).tier2.spec_ready().remove(peer)
                    =~= old(self).tier2.spec_ready());
            }
            self.tier2.remove(peer);
            self.peer_store.peer_ban(now, peer, ban_reason);
        }
    }

    /// Remove a connection from its tier.  For T2, if the local edge
    /// to the peer is still Active, withdraw it: synthesize the
    /// Removed edge, fold it into the view and the graph, and
    /// broadcast it; then record the disconnect or ban.  T1 carries
    /// no edges and no bans.
    #[verifier::rlimit(100)]
    pub fn unregister(&mut self, now: Timestamp, peer: PeerId, tier: Tier, ban_reason: Option<ReasonForBan>)
        requires
            old(self).wf(),
            old(self).routing_table_view.local_edges@.contains_key(peer) ==> {
                let e = old(self).routing_table_view.local_edges@[peer];
                e.spec_state() is Active ==> e.spec_valid()
                    && e.spec_touches(old(self).config.node_id)
                    && e.spec_other(old(self).config.node_id) == peer
                    && e.nonce < u64::MAX
            },
        ensures
            final(self).wf(),
            final(self).config == old(self).config,
            final(self).node_start == old(self).node_start,
            final(self).tier1_route_back == old(self).tier1_route_back,
            final(self).routing_table_view.route_back == old(self).routing_table_view.route_back,
            final(self).routing_table_view.next_hops@ == old(self).routing_table_view.next_hops@,
            final(self).routing_table_view.accounts@ == old(self).routing_table_view.accounts@,
            match tier {
                Tier::T1 => {
                    &&& final(self).tier1.spec_ready()
                            == old(self).tier1.spec_ready().remove(peer)
                    &&& final(self).tier2 == old(self).tier2
                    &&& final(self).graph == old(self).graph
                    &&& final(self).routing_table_view.local_edges@
                            == old(self).routing_table_view.local_edges@
                    &&& final(self).peer_store == old(self).peer_store
                }
                Tier::T2 => {
                    &&& final(self).tier1 == old(self).tier1
                    &&& !final(self).tier2.spec_contains(peer)
                    &&& final(self).peer_store.spec_records()
                            == old(self).peer_store.spec_records().insert(peer,
                                match ban_reason {
                                    Some(rb) => PeerStatus::Banned(rb, now),
                                    None => PeerStatus::Disconnected(now),
                                })
                    &&& if old(self).routing_table_view.local_edges@.contains_key(peer)
                            && old(self).routing_table_view.local_edges@[peer].spec_state()
                                is Active {
                            let e0 = old(self).routing_table_view.local_edges@[peer];
                            let t = final(self).routing_table_view.local_edges@[peer];
                            &&& final(self).routing_table_view.local_edges@.contains_key(peer)
                            &&& t.spec_same_pair(e0)
                            &&& t.nonce == e0.nonce + 1
                            &&& t.spec_state() is Removed
                            &&& t.spec_valid()
                            &&& forall|p: PeerId| p != peer
                                    && #[trigger] old(self).routing_table_view.local_edges@
                                        .contains_key(p)
                                    ==> final(self).routing_table_view.local_edges@
                                            .contains_key(p)
                                        && final(self).routing_table_view.local_edges@[p]
                                            == old(self).routing_table_view.local_edges@[p]
                            &&& final(self).graph.spec_hist()
                                    == old(self).graph.spec_hist().push(t)
                            &&& spec_dominates(final(self).graph.spec_edges(), t)
                            &&& spec_tier2_after_unregister(old(self).tier2, final(self).tier2,
                                    peer,
                                    Some(PeerMessageV::SyncRoutingTable(RoutingTableUpdateV {
                                        edges: seq![t],
                                        accounts: Seq::empty(),
                                    })))
                        } else {
                            &&& final(self).routing_table_view.local_edges@
                                    == old(self).routing_table_view.local_edges@
                            &&& final(self).graph == old(self).graph
                            &&& spec_tier2_after_unregister(old(self).tier2, final(self).tier2,
                                    peer, None::<PeerMessageV>)
                        }
                }
            },
    {
        if matches!(tier, Tier::T1) {
            self.tier1.remove(peer);
            return;
        }
        self.tier2.remove(peer);
        proof {
            assert(self.tier2.spec_ready().dom()
                =~= old(self).tier2.spec_ready().dom().remove(peer));
        }
        let le = match self.routing_table_view.get_local_edge(peer) {
            Some(e) => Some(*e),
            None => None,
        };
        match le {
            Some(edge) => {
                if matches!(edge.edge_type(), EdgeState::Active) {
                    let ghost mid = *self;
                    let _t0 = self.withdraw_local_edge(now, peer, edge);
                    proof {
                        let t = self.routing_table_view.local_edges@[peer];
                        assert(spec_tier2_after_unregister(old(self).tier2, self.tier2, peer,
                            Some(PeerMessageV::SyncRoutingTable(RoutingTableUpdateV {
                                edges: seq![t],
                                accounts: Seq::empty(),
                            })))) by {
                            assert(self.tier2.spec_ready().dom()
                                =~= old(self).tier2.spec_ready().dom().remove(peer));
                            assert forall|q: PeerId| q != peer
                                && #[trigger] old(self).tier2.spec_contains(q) implies
                                mid.tier2.spec_contains(q)
                                && mid.tier2.spec_ready()[q] == old(self).tier2.spec_ready()[q]
                            by {}
                        }
                    }
                }
            }
            None => {}
        }
        match ban_reason {
            Some(rb) => self.peer_store.peer_ban(now, peer, rb),
            None => self.peer_store.peer_disconnected(now, peer),
        }
    }

    /// Withdraw the Active local edge to `peer`: build its tombstone,
    /// record it in the view and the graph, and broadcast it to the
    /// T2 peers.
    #[verifier::rlimit(100)]
    #[verifier::spinoff_prover]
    fn withdraw_local_edge(&mut self, now: Timestamp, peer: PeerId, edge: Edge) -> (r: Ghost<Edge>)
        requires
            old(self).wf(),
            edge.spec_valid(),
            edge.spec_state() is Active,
            edge.spec_touches(old(self).config.node_id),
            edge.spec_other(old(self).config.node_id) == peer,
            edge.nonce < u64::MAX,
            old(self).routing_table_view.local_edges@.contains_key(peer),
            old(self).routing_table_view.local_edges@[peer] == edge,
        ensures
            final(self).wf(),
            final(self).config == old(self).config,
            final(self).node_start == old(self).node_start,
            final(self).tier1 == old(self).tier1,
            final(self).tier1_route_back == old(self).tier1_route_back,
            final(self).peer_store == old(self).peer_store,
            final(self).tier1_recv_limiter == old(self).tier1_recv_limiter,
            final(self).connected_to_myself == old(self).connected_to_myself,
            final(self).edge_tombstones_skipped == old(self).edge_tombstones_skipped,
            final(self).dropped_no_route == old(self).dropped_no_route,
            final(self).dropped_unknown_account == old(self).dropped_unknown_account,
            final(self).txns_since_last_block == old(self).txns_since_last_block,
            final(self).handshake_permits == old(self).handshake_permits,
            final(self).routing_table_view.me == old(self).routing_table_view.me,
            final(self).routing_table_view.next_hops == old(self).routing_table_view.next_hops,
            final(self).routing_table_view.accounts == old(self).routing_table_view.accounts,
            final(self).routing_table_view.route_back == old(self).routing_table_view.route_back,
            final(self).routing_table_view.local_edges@.contains_key(peer),
            forall|p: PeerId| #[trigger] final(self).routing_table_view.local_edges@.contains_key(p)
                == old(self).routing_table_view.local_edges@.contains_key(p),
            ({
                let t = final(self).routing_table_view.local_edges@[peer];
                &&& t == r@
                &&& t == crate::edge::spec_remove_edge(edge, old(self).config.node_id)
                &&& t.spec_same_pair(edge)
                &&& t.nonce == edge.nonce + 1
                &&& t.spec_state() is Removed
                &&& t.spec_valid()
                &&& forall|p: PeerId| p != peer
                        && #[trigger] old(self).routing_table_view.local_edges@.contains_key(p)
                        ==> final(self).routing_table_view.local_edges@.contains_key(p)
                            && final(self).routing_table_view.local_edges@[p]
                                == old(self).routing_table_view.local_edges@[p]
                &&& final(self).graph.spec_hist() == old(self).graph.spec_hist().push(t)
                &&& final(self).graph.spec_me() == old(self).graph.spec_me()
                &&& final(self).graph.spec_last_reachable()
                        == old(self).graph.spec_last_reachable()
                &&& spec_dominates(final(self).graph.spec_edges(), t)
                &&& spec_broadcast_rel(old(self).tier2, final(self).tier2,
                        PeerMessageV::SyncRoutingTable(RoutingTableUpdateV {
                            edges: seq![t],
                            accounts: Seq::empty(),
                        }))
            }),
    {
        let t = edge.remove_edge(self.config.node_id, &self.config.node_key);
        let batch = vec![t];
        self.routing_table_view.add_local_edges(&batch);
        let _ins = self.graph.insert_one(now, t);
        self.tier2.broadcast_message(&PeerMessage::SyncRoutingTable(
            RoutingTableUpdate::from_edges(batch)));
        proof {
            assert(batch@ =~= seq![t]);
            assert(self.routing_table_view.local_edges@.contains_key(peer));
            assert(t.spec_touches(old(self).config.node_id));
            assert(t.spec_other(old(self).config.node_id) == peer);
            assert(self.routing_table_view.local_edges@[peer] == t);
            assert forall|p: PeerId|
                #[trigger] self.routing_table_view.local_edges@.contains_key(p)
                == old(self).routing_table_view.local_edges@.contains_key(p) by {
                if self.routing_table_view.local_edges@.contains_key(p)
                    && !old(self).routing_table_view.local_edges@.contains_key(p) {
                    assert(p == peer);
                }
            }
        }
        Ghost(t)
    }

    /// The T1 peer to proxy a message for `account` through: the
    /// announced owner, when it has a ready T1 connection.
    pub fn get_tier1_proxy(&self, account: AccountId) -> (r: Option<PeerId>)
        ensures
            r == {
                let acc = self.routing_table_view.accounts@;
                if acc.contains_key(account)
                    && self.tier1.spec_contains(acc[account].peer_id) {
                    Some(acc[account].peer_id)
                } else {
                    None::<PeerId>
                }
            },
    {
        match self.routing_table_view.account_owner(account) {
            Some(owner) => {
                if self.tier1.contains(owner) {
                    Some(owner)
                } else {
                    None
                }
            }
            None => None,
        }
    }

    /// Route a message to the peer announced for a validator account.
    /// A T1-eligible body is first copied best-effort to the account's
    /// T1 proxy; then the message goes over T2 to the announced owner,
    /// three times when important.  Returns whether any T2 attempt
    /// succeeded.
    pub fn send_message_to_account(&mut self, now: Timestamp, account: AccountId, body: RoutedMessageBody) -> (r: bool)
        requires
            old(self).wf(),
        ensures
            final(self).wf(),
            exists|mid: NetworkState| {
                let me = old(self).config.node_id;
                let acc = old(self).routing_table_view.accounts@;
                &&& #[trigger] spec_tier1_proxy_step(*old(self), mid, account, body)
                &&& if !acc.contains_key(account) {
                        &&& !r
                        &&& *final(self) == (NetworkState {
                                dropped_unknown_account: inc64(mid.dropped_unknown_account),
                                ..mid
                            })
                    } else {
                        let target = acc[account].peer_id;
                        let msg = spec_signed_routed(me, PeerIdOrHash::PeerId(target), body,
                            old(self).config.routed_message_ttl);
                        if body.spec_is_important() {
                            exists|m1: NetworkState, m2: NetworkState, r1: bool, r2: bool, r3: bool| {
                                &&& #[trigger] spec_send_to_peer_rel(mid, m1, now, Tier::T2, msg, r1)
                                &&& #[trigger] spec_send_to_peer_rel(m1, m2, now, Tier::T2, msg, r2)
                                &&& #[trigger] spec_send_to_peer_rel(m2, *final(self), now, Tier::T2, msg, r3)
                                &&& r == (r1 || r2 || r3)
                            }
                        } else {
                            spec_send_to_peer_rel(mid, *final(self), now, Tier::T2, msg, r)
                        }
                    }
            },
    {
        let ghost pre = *self;
        if Tier::T1.is_allowed_routed(&body) {
            match self.get_tier1_proxy(account) {
                Some(target) => {
                    let m = self.sign_message(RawRoutedMessage {
                        target: PeerIdOrHash::PeerId(target),
                        body,
                    });
                    self.tier1.send_message(target, PeerMessage::Routed(m));
                }
                None => {}
            }
        }
        let ghost mid = *self;
        proof {
            assert(spec_tier1_proxy_step(pre, mid, account, body));
        }
        let target = match self.routing_table_view.account_owner(account) {
            Some(p) => p,
            None => {
                self.dropped_unknown_account = if self.dropped_unknown_account == u64::MAX {
                    self.dropped_unknown_account
                } else {
                    self.dropped_unknown_account + 1
                };
                proof {
                    assert(*self == (NetworkState {
                        dropped_unknown_account: inc64(mid.dropped_unknown_account),
                        ..mid
                    }));
                }
                return false;
            }
        };
        let msg = self.sign_message(RawRoutedMessage {
            target: PeerIdOrHash::PeerId(target),
            body,
        });
        if msg.body.is_important() {
            let r1 = self.send_message_to_peer(now, Tier::T2, msg);
            let ghost m1 = *self;
            let r2 = self.send_message_to_peer(now, Tier::T2, msg);
            let ghost m2 = *self;
            let r3 = self.send_message_to_peer(now, Tier::T2, msg);
            r1 || r2 || r3
        } else {
            self.send_message_to_peer(now, Tier::T2, msg)
        }
    }

    /// Accept the strictly newer account announcements and broadcast
    /// the accepted subset to all T2 peers; a batch with nothing new
    /// is not broadcast.
    pub fn broadcast_accounts(&mut self, accounts: Vec<AnnounceAccount>)
        requires
            old(self).wf(),
        ensures
            final(self).wf(),
            spec_same_core(*old(self), *final(self)),
            final(self).tier1 == old(self).tier1,
            final(self).tier1_route_back == old(self).tier1_route_back,
            final(self).connected_to_myself == old(self).connected_to_myself,
            final(self).dropped_no_route == old(self).dropped_no_route,
            final(self).routing_table_view.me == old(self).routing_table_view.me,
            final(self).routing_table_view.next_hops@ == old(self).routing_table_view.next_hops@,
            final(self).routing_table_view.local_edges@
                == old(self).routing_table_view.local_edges@,
            final(self).routing_table_view.route_back == old(self).routing_table_view.route_back,
            exists|accepted: Seq<AnnounceAccount>| {
                &&& #[trigger] accepted.len() >= 0
                &&& forall|k: int| 0 <= k < accepted.len()
                        ==> accounts@.contains(#[trigger] accepted[k])
                            && (!old(self).routing_table_view.accounts@.contains_key(
                                    accepted[k].account_id)
                                || accepted[k].spec_newer_than(
                                    old(self).routing_table_view.accounts@[
                                        accepted[k].account_id]))
                &&& forall|j: int| 0 <= j < accounts@.len()
                        && (!old(self).routing_table_view.accounts@.contains_key(
                                (#[trigger] accounts@[j]).account_id)
                            || accounts@[j].spec_newer_than(
                                old(self).routing_table_view.accounts@[
                                    accounts@[j].account_id]))
                        && (forall|j2: int| 0 <= j2 < accounts@.len() && j2 != j
                            ==> (#[trigger] accounts@[j2]).account_id
                                != accounts@[j].account_id)
                        ==> accepted.contains(accounts@[j])
                &&& if accepted.len() == 0 {
                        final(self).tier2 == old(self).tier2
                    } else {
                        spec_broadcast_rel(old(self).tier2, final(self).tier2,
                            PeerMessageV::SyncRoutingTable(RoutingTableUpdateV {
                                edges: Seq::empty(),
                                accounts: accepted,
                            }))
                    }
            },
    {
        let new_accounts = self.routing_table_view.add_accounts(&accounts);
        let ghost accepted = new_accounts@;
        if new_accounts.len() > 0 {
            self.tier2.broadcast_message(&PeerMessage::SyncRoutingTable(
                RoutingTableUpdate::from_accounts(new_accounts)));
        }
        proof {
            assert(accepted.len() >= 0);
        }
    }
}

/// The best-effort T1 proxy attempt at the start of
/// `send_message_to_account`: when the body is T1-eligible and the
/// announced owner has a ready T1 connection, a signed copy is handed
/// to it; otherwise nothing happens.
pub open spec fn spec_tier1_proxy_step(pre: NetworkState, post: NetworkState, account: AccountId, body: RoutedMessageBody) -> bool {
    let me = pre.config.node_id;
    let acc = pre.routing_table_view.accounts@;
    &&& spec_same_core(pre, post)
    &&& spec_same_view_routing(pre, post)
    &&& post.tier2 == pre.tier2
    &&& post.tier1_route_back == pre.tier1_route_back
    &&& post.routing_table_view.route_back == pre.routing_table_view.route_back
    &&& post.connected_to_myself == pre.connected_to_myself
    &&& post.dropped_no_route == pre.dropped_no_route
    &&& if Tier::T1.spec_is_allowed_routed(body) && acc.contains_key(account)
            && pre.tier1.spec_contains(acc[account].peer_id) {
            exists|sent: bool| #[trigger] spec_send_rel(pre.tier1, post.tier1,
                acc[account].peer_id,
                PeerMessageV::Routed(spec_signed_routed(me,
                    PeerIdOrHash::PeerId(acc[account].peer_id), body,
                    pre.config.routed_message_ttl)),
                sent)
        } else {
            post.tier1 == pre.tier1
        }
}

/// The edge graph already retains an edge with this pair and nonce.
pub open spec fn spec_known(g: EdgeGraph, e: Edge) -> bool {
    exists|i: int| 0 <= i < g.spec_edges().len()
        && (#[trigger] g.spec_edges()[i]).spec_same_pair(e)
        && g.spec_edges()[i].nonce == e.nonce
}

/// The node is younger than the configured settling window, during
/// which Removed edges are withheld from broadcast.
pub open spec fn spec_within_tombstone_window(s: NetworkState, now: Timestamp) -> bool {
    s.config.skip_tombstones matches Some(d) && now < s.node_start + d
}

/// Some offered edge is not yet retained.
pub open spec fn spec_any_fresh(g: EdgeGraph, edges: Seq<Edge>) -> bool {
    exists|j: int| 0 <= j < edges.len() && !spec_known(g, #[trigger] edges[j])
}

/// The fields of the state an inbound-edge batch never touches.
pub open spec fn spec_same_edge_frame(pre: NetworkState, post: NetworkState) -> bool {
    &&& post.config == pre.config
    &&& post.node_start == pre.node_start
    &&& post.tier1 == pre.tier1
    &&& post.tier1_route_back == pre.tier1_route_back
    &&& post.peer_store == pre.peer_store
    &&& post.tier1_recv_limiter == pre.tier1_recv_limiter
    &&& post.connected_to_myself == pre.connected_to_myself
    &&& post.dropped_no_route == pre.dropped_no_route
    &&& post.dropped_unknown_account == pre.dropped_unknown_account
    &&& post.txns_since_last_block == pre.txns_since_last_block
    &&& post.handshake_permits == pre.handshake_permits
    &&& post.routing_table_view.me == pre.routing_table_view.me
    &&& post.routing_table_view.next_hops == pre.routing_table_view.next_hops
    &&& post.routing_table_view.accounts == pre.routing_table_view.accounts
    &&& post.routing_table_view.route_back == pre.routing_table_view.route_back
}

/// The Active edges of a batch, in order.
fn filter_active(v: &Vec<Edge>) -> (r: Vec<Edge>)
    ensures
        r@.len() <= v@.len(),
        forall|a: int| 0 <= a < r@.len()
            ==> v@.contains(#[trigger] r@[a]) && r@[a].spec_state() is Active,
        forall|a: int| 0 <= a < v@.len() && (#[trigger] v@[a]).spec_state() is Active
            ==> r@.contains(v@[a]),
{
    let m = v.len();
    let mut actives: Vec<Edge> = Vec::new();
    let mut k: usize = 0;
    while k < m
        invariant
            k <= m,
            m == v@.len(),
            actives@.len() <= k,
            forall|a: int| 0 <= a < actives@.len()
                ==> v@.contains(#[trigger] actives@[a])
                    && actives@[a].spec_state() is Active,
            forall|a: int| 0 <= a < k && (#[trigger] v@[a]).spec_state() is Active
                ==> actives@.contains(v@[a]),
        decreases m - k,
    {
        let e = v[k];
        let ghost actives0 = actives@;
        if matches!(e.edge_type(), EdgeState::Active) {
            actives.push(e);
            proof {
                assert(v@.contains(v@[k as int]));
            }
        }
        proof {
            assert forall|a: int| 0 <= a < k + 1
                && (#[trigger] v@[a]).spec_state() is Active
                implies actives@.contains(v@[a]) by {
                if a < k {
                    let w = choose|w: int| 0 <= w < actives0.len() && actives0[w] == v@[a];
                    assert(actives@[w] == v@[a]);
                } else {
                    assert(actives@[actives@.len() - 1] == v@[a]);
                }
            }
        }
        k += 1;
    }
    actives
}

impl NetworkState {
    /// The offered edges whose pair and nonce the graph does not
    /// already retain, in order.
    fn filter_fresh(&self, edges: &Vec<Edge>) -> (r: Vec<Edge>)
        ensures
            forall|k: int| 0 <= k < r@.len()
                ==> edges@.contains(#[trigger] r@[k]) && !spec_known(self.graph, r@[k]),
            forall|j: int| 0 <= j < edges@.len() && !spec_known(self.graph, #[trigger] edges@[j])
                ==> r@.contains(edges@[j]),
    {
        let ghost g0 = self.graph;
        let n = edges.len();
        let mut fresh: Vec<Edge> = Vec::new();
        let mut i: usize = 0;
        while i < n
            invariant
                i <= n,
                n == edges@.len(),
                self.graph == g0,
                forall|k: int| 0 <= k < fresh@.len()
                    ==> edges@.contains(#[trigger] fresh@[k]) && !spec_known(g0, fresh@[k]),
                forall|j: int| 0 <= j < i && !spec_known(g0, #[trigger] edges@[j])
                    ==> fresh@.contains(edges@[j]),
            decreases n - i,
        {
            let e = edges[i];
            let ghost fresh0 = fresh@;
            if !self.graph.contains_triple(&e) {
                fresh.push(e);
                proof {
                    assert(edges@.contains(edges@[i as int]));
                }
            }
            proof {
                assert forall|j: int| 0 <= j < i + 1 && !spec_known(g0, #[trigger] edges@[j])
                    implies fresh@.contains(edges@[j]) by {
                    if j < i {
                        let k = choose|k: int| 0 <= k < fresh0.len() && fresh0[k] == edges@[j];
                        assert(fresh@[k] == edges@[j]);
                    } else {
                        assert(fresh@[fresh@.len() - 1] == edges@[i as int]);
                    }
                }
            }
            i += 1;
        }
        fresh
    }

    /// Fold a batch of edges announced by a peer into the routing
    /// state.  Edges already retained are ignored; the rest are
    /// signature-checked, the well-signed ones recorded and the
    /// freshly retained ones broadcast to the T2 peers, with Removed
    /// edges withheld during the tombstone settling window.  A single
    /// bad signature in the fresh part earns the submitter a ban.
    #[verifier::rlimit(100)]
    #[verifier::spinoff_prover]
    pub fn add_edges_to_routing_table(&mut self, now: Timestamp, edges: &Vec<Edge>) -> (r: Result<(), ReasonForBan>)
        requires
            old(self).wf(),
        ensures
            final(self).wf(),
            spec_same_edge_frame(*old(self), *final(self)),
            // a ban exactly when a fresh offered edge is ill-signed
            r is Err <==> exists|j: int| 0 <= j < edges@.len()
                && !(#[trigger] edges@[j]).spec_valid()
                && !spec_known(old(self).graph, edges@[j]),
            r is Err ==> r == Result::<(), ReasonForBan>::Err(ReasonForBan::InvalidEdge),
            // a batch with nothing fresh changes nothing
            !spec_any_fresh(old(self).graph, edges@) ==> *final(self) == *old(self),
            // old local edges survive in the view
            forall|p: PeerId| #[trigger] old(self).routing_table_view.local_edges@.contains_key(p)
                ==> final(self).routing_table_view.local_edges@.contains_key(p),
            exists|valid: Seq<Edge>, retained: Seq<Edge>, bcast: Seq<Edge>| {
                // the verified subset of the batch: exactly the
                // well-signed fresh offers reach the graph
                &&& #[trigger] valid.len() >= 0
                &&& #[trigger] retained.len() >= 0
                &&& #[trigger] bcast.len() >= 0
                &&& forall|k: int| 0 <= k < valid.len()
                        ==> edges@.contains(#[trigger] valid[k]) && valid[k].spec_valid()
                            && !spec_known(old(self).graph, valid[k])
                &&& forall|j: int| 0 <= j < edges@.len()
                        && (#[trigger] edges@[j]).spec_valid()
                        && !spec_known(old(self).graph, edges@[j])
                        ==> valid.contains(edges@[j])
                &&& final(self).graph.spec_hist() == old(self).graph.spec_hist() + valid
                &&& forall|k: int| 0 <= k < valid.len()
                        ==> spec_dominates(final(self).graph.spec_edges(), #[trigger] valid[k])
                // what was freshly retained, and what of it was
                // broadcast: everything outside the settling window,
                // the Active part within it
                &&& forall|k: int| 0 <= k < retained.len()
                        ==> valid.contains(#[trigger] retained[k])
                &&& forall|i: int| 0 <= i < final(self).graph.spec_edges().len()
                        && !old(self).graph.spec_edges().contains(
                            #[trigger] final(self).graph.spec_edges()[i])
                        ==> retained.contains(final(self).graph.spec_edges()[i])
                &&& forall|k: int| 0 <= k < bcast.len()
                        ==> retained.contains(#[trigger] bcast[k])
                &&& if spec_within_tombstone_window(*old(self), now) {
                        &&& forall|k: int| 0 <= k < bcast.len()
                                ==> (#[trigger] bcast[k]).spec_state() is Active
                        &&& forall|k: int| 0 <= k < retained.len()
                                && (#[trigger] retained[k]).spec_state() is Active
                                ==> bcast.contains(retained[k])
                        // the withheld tombstones are counted
                        &&& final(self).edge_tombstones_skipped == crate::sat_add64(
                                old(self).edge_tombstones_skipped,
                                retained.len() - bcast.len())
                    } else {
                        &&& bcast == retained
                        &&& final(self).edge_tombstones_skipped
                                == old(self).edge_tombstones_skipped
                    }
                &&& if bcast.len() > 0 {
                        spec_broadcast_rel(old(self).tier2, final(self).tier2,
                            PeerMessageV::SyncRoutingTable(RoutingTableUpdateV {
                                edges: bcast,
                                accounts: Seq::empty(),
                            }))
                    } else {
                        final(self).tier2 == old(self).tier2
                    }
            },
    {
        let fresh = self.filter_fresh(edges);
        if fresh.is_empty() {
            proof {
                let v: Seq<Edge> = Seq::empty();
                assert(self.graph.spec_hist()
                    =~= old(self).graph.spec_hist() + Seq::<Edge>::empty());
                assert(v.len() >= 0);
                assert(!spec_any_fresh(old(self).graph, edges@)) by {
                    if spec_any_fresh(old(self).graph, edges@) {
                        let j = choose|j: int| 0 <= j < edges@.len()
                            && !spec_known(old(self).graph, #[trigger] edges@[j]);
                        assert(fresh@.contains(edges@[j]));
                    }
                }
            }
            return Ok(());
        }
        let (valid, ok) = verify_all(&fresh);
        self.routing_table_view.add_local_edges(&valid);
        let retained = self.graph.add_verified(now, &valid);
        let withhold = match self.config.skip_tombstones {
            Some(d) => {
                if now >= self.node_start {
                    now - self.node_start < d
                } else {
                    true
                }
            }
            None => false,
        };
        let ghost retained_s = retained@;
        let bcast: Vec<Edge> = if withhold {
            let actives = filter_active(&retained);
            let withheld = (retained.len() - actives.len()) as u64;
            self.edge_tombstones_skipped = if self.edge_tombstones_skipped
                > u64::MAX - withheld {
                u64::MAX
            } else {
                self.edge_tombstones_skipped + withheld
            };
            actives
        } else {
            retained
        };
        let ghost valid_s = valid@;
        let ghost bcast_s = bcast@;
        if bcast.len() > 0 {
            self.tier2.broadcast_message(&PeerMessage::SyncRoutingTable(
                RoutingTableUpdate::from_edges(bcast)));
        }
        proof {
            assert(spec_within_tombstone_window(*old(self), now) == withhold);
            assert(spec_any_fresh(old(self).graph, edges@)) by {
                assert(fresh@.len() > 0);
                assert(edges@.contains(fresh@[0]) && !spec_known(old(self).graph, fresh@[0]));
                let j = choose|j: int| 0 <= j < edges@.len() && edges@[j] == fresh@[0];
                assert(!spec_known(old(self).graph, edges@[j]));
            }
            assert(valid_s.len() >= 0);
            assert(retained_s.len() >= 0);
            assert(bcast_s.len() >= 0);
            assert forall|k: int| 0 <= k < valid_s.len()
                implies edges@.contains(#[trigger] valid_s[k]) && valid_s[k].spec_valid()
                    && !spec_known(old(self).graph, valid_s[k]) by {
                assert(fresh@.contains(valid_s[k]));
                let b = choose|b: int| 0 <= b < fresh@.len() && fresh@[b] == valid_s[k];
            }
            assert forall|j: int| 0 <= j < edges@.len()
                && (#[trigger] edges@[j]).spec_valid()
                && !spec_known(old(self).graph, edges@[j])
                implies valid_s.contains(edges@[j]) by {
                assert(fresh@.contains(edges@[j]));
                let b = choose|b: int| 0 <= b < fresh@.len() && fresh@[b] == edges@[j];
                assert(fresh@[b].spec_valid());
            }
            assert forall|k2: int| 0 <= k2 < bcast_s.len()
                implies retained_s.contains(#[trigger] bcast_s[k2]) by {}
            if withhold {
                assert forall|k2: int| 0 <= k2 < retained_s.len()
                    && (#[trigger] retained_s[k2]).spec_state() is Active
                    implies bcast_s.contains(retained_s[k2]) by {}
                assert(self.edge_tombstones_skipped == crate::sat_add64(
                    old(self).edge_tombstones_skipped,
                    retained_s.len() - bcast_s.len()));
            }
            assert((!ok) == exists|j: int| 0 <= j < edges@.len()
                && !(#[trigger] edges@[j]).spec_valid()
                && !spec_known(old(self).graph, edges@[j])) by {
                if !ok {
                    let b = choose|b: int| 0 <= b < fresh@.len()
                        && !(#[trigger] fresh@[b]).spec_valid();
                    let j = choose|j: int| 0 <= j < edges@.len()
                        && edges@[j] == fresh@[b];
                    assert(!spec_known(old(self).graph, edges@[j]));
                }
                if exists|j: int| 0 <= j < edges@.len()
                    && !(#[trigger] edges@[j]).spec_valid()
                    && !spec_known(old(self).graph, edges@[j]) {
                    let j = choose|j: int| 0 <= j < edges@.len()
                        && !(#[trigger] edges@[j]).spec_valid()
                        && !spec_known(old(self).graph, edges@[j]);
                    assert(fresh@.contains(edges@[j]));
                    let b = choose|b: int| 0 <= b < fresh@.len() && fresh@[b] == edges@[j];
                    assert(!fresh@[b].spec_valid());
                }
            }
        }
        if ok {
            Ok(())
        } else {
            Err(ReasonForBan::InvalidEdge)
        }
    }

    /// Prune the graph and refresh the derived view: unreachable
    /// Active edges and stale tombstones are dropped, the next-hop
    /// table is recomputed and installed, and local edges that were
    /// pruned are forgotten.  Returns the pruned edges.
    pub fn update_routing_table(
        &mut self,
        now: Timestamp,
        prune_unreachable_since: Option<Timestamp>,
        prune_edges_older_than: Option<Timestamp>,
    ) -> (r: Vec<Edge>)
        requires
            old(self).wf(),
        ensures
            final(self).wf(),
            final(self).config == old(self).config,
            final(self).node_start == old(self).node_start,
            final(self).tier1 == old(self).tier1,
            final(self).tier2 == old(self).tier2,
            final(self).tier1_route_back == old(self).tier1_route_back,
            final(self).peer_store == old(self).peer_store,
            final(self).routing_table_view.accounts == old(self).routing_table_view.accounts,
            final(self).routing_table_view.route_back == old(self).routing_table_view.route_back,
            // the new forwarding table routes through Active edges at
            // the local node
            !final(self).routing_table_view.next_hops@.contains_key(old(self).config.node_id),
            forall|p: PeerId| #[trigger] final(self).routing_table_view.next_hops@.contains_key(p)
                ==> p != old(self).config.node_id
                    && old(self).graph.spec_direct_active(old(self).config.node_id,
                        final(self).routing_table_view.next_hops@[p]),
            forall|p: PeerId| p != old(self).config.node_id
                && #[trigger] old(self).graph.spec_direct_active(old(self).config.node_id, p)
                ==> final(self).routing_table_view.next_hops@.contains_key(p)
                    && final(self).routing_table_view.next_hops@[p] == p,
            // everything reported pruned was retained and condemned
            crate::edge_graph::spec_all_condemned(
                r@,
                old(self).graph.spec_entries(),
                old(self).config.node_id,
                prune_unreachable_since,
                prune_edges_older_than,
                final(self).routing_table_view.next_hops@.dom().insert(old(self).config.node_id),
                final(self).graph.spec_last_reachable(),
            ),
            // surviving graph entries are old ones that were not
            // condemned
            forall|a: int| 0 <= a < final(self).graph.spec_entries().len()
                ==> old(self).graph.spec_entries().contains(
                    #[trigger] final(self).graph.spec_entries()[a]),
            // local edges only disappear when pruned
            forall|p: PeerId| #[trigger] final(self).routing_table_view.local_edges@.contains_key(p)
                ==> old(self).routing_table_view.local_edges@.contains_key(p)
                    && final(self).routing_table_view.local_edges@[p]
                        == old(self).routing_table_view.local_edges@[p],
            forall|p: PeerId| #[trigger] old(self).routing_table_view.local_edges@.contains_key(p)
                && !final(self).routing_table_view.local_edges@.contains_key(p)
                ==> exists|j: int| 0 <= j < r@.len()
                    && (#[trigger] r@[j]).spec_same_pair(
                        old(self).routing_table_view.local_edges@[p])
                    && r@[j].nonce == old(self).routing_table_view.local_edges@[p].nonce,
    {
        let (pruned, next_hops) = self.graph.prune(
            now, prune_unreachable_since, prune_edges_older_than);
        self.routing_table_view.update(&pruned, next_hops);
        pruned
    }

    /// Reconcile the connection set with the local edge set.  A
    /// connected peer whose edge is Removed is asked for a nonce
    /// update and, failing that, stopped; a disconnected peer whose
    /// edge is still Active has the edge withdrawn and the tombstone
    /// recorded and broadcast.  Afterwards every local edge agrees
    /// with the connection set: Active exactly when connected.  The
    /// full effect is a chain of `spec_reconcile_step`s, one per
    /// local edge.
    #[verifier::rlimit(100)]
    #[verifier::spinoff_prover]
    pub fn update_local_edges(&mut self, now: Timestamp)
        requires
            old(self).wf(),
            forall|p: PeerId| #[trigger] old(self).routing_table_view.local_edges@.contains_key(p)
                ==> {
                    let e = old(self).routing_table_view.local_edges@[p];
                    &&& e.spec_touches(old(self).config.node_id)
                    &&& e.spec_other(old(self).config.node_id) == p
                    &&& e.nonce < u64::MAX - 1
                    &&& (e.spec_state() is Active ==> e.spec_valid())
                },
        ensures
            final(self).wf(),
            final(self).config == old(self).config,
            final(self).node_start == old(self).node_start,
            final(self).tier1 == old(self).tier1,
            final(self).tier1_route_back == old(self).tier1_route_back,
            final(self).peer_store == old(self).peer_store,
            final(self).tier1_recv_limiter == old(self).tier1_recv_limiter,
            final(self).connected_to_myself == old(self).connected_to_myself,
            final(self).edge_tombstones_skipped == old(self).edge_tombstones_skipped,
            final(self).dropped_no_route == old(self).dropped_no_route,
            final(self).dropped_unknown_account == old(self).dropped_unknown_account,
            final(self).routing_table_view.me == old(self).routing_table_view.me,
            final(self).routing_table_view.next_hops == old(self).routing_table_view.next_hops,
            final(self).routing_table_view.accounts == old(self).routing_table_view.accounts,
            final(self).routing_table_view.route_back == old(self).routing_table_view.route_back,
            final(self).txns_since_last_block == old(self).txns_since_last_block,
            final(self).handshake_permits == old(self).handshake_permits,
            final(self).graph.spec_me() == old(self).graph.spec_me(),
            // reconciliation: every local edge agrees with the
            // connection set
            forall|p: PeerId| #[trigger] final(self).routing_table_view.local_edges@.contains_key(p)
                ==> (final(self).tier2.spec_contains(p)
                    <==> final(self).routing_table_view.local_edges@[p].spec_state() is Active),
            forall|p: PeerId| #[trigger] final(self).routing_table_view.local_edges@.contains_key(p)
                == old(self).routing_table_view.local_edges@.contains_key(p),
            // only withdrawn edges change value
            forall|p: PeerId| #[trigger] old(self).routing_table_view.local_edges@.contains_key(p)
                && (old(self).tier2.spec_contains(p)
                    || old(self).routing_table_view.local_edges@[p].spec_state() is Removed)
                ==> final(self).routing_table_view.local_edges@[p]
                        == old(self).routing_table_view.local_edges@[p],
            // the whole run is a chain of reconciliation steps, one
            // per local edge of the starting state
            exists|ls: Seq<(PeerId, Edge)>, trace: Seq<NetworkState>| {
                &&& #[trigger] ls.len() >= 0
                &&& #[trigger] trace.len() == ls.len() + 1
                &&& forall|a: int, b: int| 0 <= a < b < ls.len() ==> ls[a].0 != ls[b].0
                &&& forall|j: int| 0 <= j < ls.len()
                        ==> old(self).routing_table_view.local_edges@.contains_key(
                                (#[trigger] ls[j]).0)
                            && old(self).routing_table_view.local_edges@[ls[j].0] == ls[j].1
                &&& forall|p: PeerId|
                        #[trigger] old(self).routing_table_view.local_edges@.contains_key(p)
                        ==> exists|j: int| 0 <= j < ls.len() && (#[trigger] ls[j]).0 == p
                &&& trace[0] == *old(self)
                &&& trace[ls.len() as int] == *final(self)
                &&& forall|j: int| 0 <= j < ls.len()
                        ==> #[trigger] spec_reconcile_step(trace[j], trace[j + 1], now,
                                ls[j].0, ls[j].1)
            },
    {
        let locals = self.routing_table_view.local_edges.entries();
        let ghost s0 = *self;
        proof {
            assert(s0 == *old(self));
        }
        let n = locals.len();
        let ghost mut trace: Seq<NetworkState> = seq![s0];
        let mut i: usize = 0;
        while i < n
            invariant
                i <= n,
                n == locals@.len(),
                s0 == *old(self),
                trace.len() == i + 1,
                trace[0] == s0,
                trace[i as int] == *self,
                forall|j: int| 0 <= j < i
                    ==> #[trigger] spec_reconcile_step(trace[j], trace[j + 1], now,
                            locals@[j].0, locals@[j].1),
                forall|p: PeerId| #[trigger] old(self).routing_table_view.local_edges@
                    .contains_key(p)
                    ==> {
                        let e = old(self).routing_table_view.local_edges@[p];
                        &&& e.spec_touches(old(self).config.node_id)
                        &&& e.spec_other(old(self).config.node_id) == p
                        &&& e.nonce < u64::MAX - 1
                        &&& (e.spec_state() is Active ==> e.spec_valid())
                    },
                self.wf(),
                self.config == s0.config,
                self.node_start == s0.node_start,
                self.tier1 == s0.tier1,
                self.tier1_route_back == s0.tier1_route_back,
                self.peer_store == s0.peer_store,
                self.tier1_recv_limiter == s0.tier1_recv_limiter,
                self.connected_to_myself == s0.connected_to_myself,
                self.edge_tombstones_skipped == s0.edge_tombstones_skipped,
                self.dropped_no_route == s0.dropped_no_route,
                self.dropped_unknown_account == s0.dropped_unknown_account,
                self.txns_since_last_block == s0.txns_since_last_block,
                self.handshake_permits == s0.handshake_permits,
                self.routing_table_view.me == s0.routing_table_view.me,
                self.routing_table_view.next_hops == s0.routing_table_view.next_hops,
                self.routing_table_view.accounts == s0.routing_table_view.accounts,
                self.routing_table_view.route_back == s0.routing_table_view.route_back,
                // the snapshot
                forall|j: int| 0 <= j < n ==> s0.routing_table_view.local_edges@.contains_key(
                    (#[trigger] locals@[j]).0)
                    && s0.routing_table_view.local_edges@[locals@[j].0] == locals@[j].1,
                forall|p: PeerId| #[trigger] s0.routing_table_view.local_edges@.contains_key(p)
                    ==> exists|j: int| 0 <= j < n && (#[trigger] locals@[j]).0 == p,
                forall|a: int, b: int| 0 <= a < b < n ==> locals@[a].0 != locals@[b].0,
                // domains stable
                forall|p: PeerId| #[trigger] self.routing_table_view.local_edges@.contains_key(p)
                    == s0.routing_table_view.local_edges@.contains_key(p),
                // unprocessed entries untouched
                forall|j: int| i <= j < n ==> {
                    let p = (#[trigger] locals@[j]).0;
                    &&& self.routing_table_view.local_edges@[p] == locals@[j].1
                    &&& self.tier2.spec_contains(p) == s0.tier2.spec_contains(p)
                },
                // processed entries agree with the connection set
                forall|j: int| 0 <= j < i ==> {
                    let p = (#[trigger] locals@[j]).0;
                    self.tier2.spec_contains(p)
                        <==> self.routing_table_view.local_edges@[p].spec_state() is Active
                },
                // a processed edge that was not withdrawn keeps its value
                forall|j: int| 0 <= j < i
                    && (s0.tier2.spec_contains((#[trigger] locals@[j]).0)
                        || locals@[j].1.spec_state() is Removed)
                    ==> self.routing_table_view.local_edges@[locals@[j].0] == locals@[j].1,
            decreases n - i,
        {
            let (p, e) = locals[i];
            proof {
                assert(s0.routing_table_view.local_edges@.contains_key(p));
                assert(old(self).routing_table_view.local_edges@.contains_key(p));
                assert(e == old(self).routing_table_view.local_edges@[p]);
            }
            let connected = self.tier2.contains(p);
            let ghost pre = *self;
            if connected {
                if matches!(e.edge_type(), EdgeState::Removed) {
                    let pei = PartialEdgeInfo::new(
                        self.config.node_id, p, e.next(), &self.config.node_key);
                    let sent = self.tier2.send_message(p, PeerMessage::RequestUpdateNonce(pei));
                    let ghost mid_pool = self.tier2;
                    self.tier2.stop_peer(p, None);
                    proof {
                        assert(!self.tier2.spec_contains(p));
                        assert(self.routing_table_view == pre.routing_table_view);
                        assert(spec_send_rel(pre.tier2, mid_pool, p,
                            PeerMessageV::RequestUpdateNonce(
                                crate::types::spec_partial_edge_info(
                                    pre.config.node_id, p, e.spec_next())),
                            sent));
                        assert(mid_pool.spec_contains(p));
                        assert(spec_reconcile_step(pre, *self, now, p, e));
                    }
                }
            } else {
                if matches!(e.edge_type(), EdgeState::Active) {
                    let _t = self.withdraw_local_edge(now, p, e);
                    proof {
                        assert(self.routing_table_view.local_edges@[p].spec_state()
                            is Removed);
                        assert(!self.tier2.spec_contains(p)) by {
                            assert(self.tier2.spec_ready().dom()
                                == pre.tier2.spec_ready().dom());
                        }
                        let t = crate::edge::spec_remove_edge(e, pre.config.node_id);
                        assert(self.routing_table_view.local_edges@
                            =~= pre.routing_table_view.local_edges@.insert(p, t));
                        assert(spec_reconcile_step(pre, *self, now, p, e));
                    }
                }
            }
            proof {
                assert(spec_reconcile_step(pre, *self, now, p, e));
                trace = trace.push(*self);
                assert forall|j: int| 0 <= j < i + 1
                    implies #[trigger] spec_reconcile_step(trace[j], trace[j + 1], now,
                        locals@[j].0, locals@[j].1) by {
                    if j < i {
                        assert(trace[j] == trace.drop_last()[j]);
                        assert(trace[j + 1] == trace.drop_last()[j + 1]);
                    } else {
                        assert(trace[j] == pre && trace[j + 1] == *self);
                    }
                }
            }
            proof {
                assert forall|j: int| 0 <= j < i + 1 implies {
                    let q = (#[trigger] locals@[j]).0;
                    self.tier2.spec_contains(q)
                        <==> self.routing_table_view.local_edges@[q].spec_state() is Active
                } by {
                    let q = locals@[j].0;
                    if j < i {
                        assert(q != p);
                        assert(pre.tier2.spec_contains(q)
                            <==> pre.routing_table_view.local_edges@[q].spec_state()
                                is Active);
                        assert(pre.routing_table_view.local_edges@.contains_key(q));
                        assert(self.routing_table_view.local_edges@[q]
                            == pre.routing_table_view.local_edges@[q]);
                        assert(self.tier2.spec_contains(q) == pre.tier2.spec_contains(q)) by {
                            if connected && e.spec_state() is Removed {
                            } else if !connected && e.spec_state() is Active {
                                assert(self.tier2.spec_ready().dom()
                                    == pre.tier2.spec_ready().dom());
                            }
                        }
                    }
                }
                assert forall|j: int| i + 1 <= j < n implies {
                    let q = (#[trigger] locals@[j]).0;
                    &&& self.routing_table_view.local_edges@[q] == locals@[j].1
                    &&& self.tier2.spec_contains(q) == s0.tier2.spec_contains(q)
                } by {
                    let q = locals@[j].0;
                    assert(q != p);
                    assert(pre.routing_table_view.local_edges@.contains_key(q));
                    assert(self.routing_table_view.local_edges@[q]
                        == pre.routing_table_view.local_edges@[q]);
                    assert(self.tier2.spec_contains(q) == pre.tier2.spec_contains(q)) by {
                        if connected && e.spec_state() is Removed {
                        } else if !connected && e.spec_state() is Active {
                            assert(self.tier2.spec_ready().dom()
                                == pre.tier2.spec_ready().dom());
                        }
                    }
                }
                assert forall|j: int| 0 <= j < i + 1
                    && (s0.tier2.spec_contains((#[trigger] locals@[j]).0)
                        || locals@[j].1.spec_state() is Removed)
                    implies self.routing_table_view.local_edges@[locals@[j].0]
                        == locals@[j].1 by {
                    let q = locals@[j].0;
                    if j < i {
                        assert(q != p);
                        assert(pre.routing_table_view.local_edges@.contains_key(q));
                        assert(self.routing_table_view.local_edges@[q]
                            == pre.routing_table_view.local_edges@[q]);
                    }
                }
            }
            i += 1;
        }
        proof {
            assert forall|p: PeerId|
                #[trigger] final(self).routing_table_view.local_edges@.contains_key(p)
                implies (final(self).tier2.spec_contains(p)
                    <==> final(self).routing_table_view.local_edges@[p].spec_state()
                        is Active) by {
                assert(s0.routing_table_view.local_edges@.contains_key(p));
                let j = choose|j: int| 0 <= j < n && (#[trigger] locals@[j]).0 == p;
            }
            assert forall|p: PeerId|
                #[trigger] old(self).routing_table_view.local_edges@.contains_key(p)
                && (old(self).tier2.spec_contains(p)
                    || old(self).routing_table_view.local_edges@[p].spec_state() is Removed)
                implies final(self).routing_table_view.local_edges@[p]
                    == old(self).routing_table_view.local_edges@[p] by {
                let j = choose|j: int| 0 <= j < n && (#[trigger] locals@[j]).0 == p;
            }
            // the witnesses for the step chain
            assert(locals@.len() >= 0);
            assert(trace.len() == locals@.len() + 1);
            assert(trace[0] == *old(self));
            assert(trace[locals@.len() as int] == *final(self));
        }
    }

    /// Handle a routed message arriving from `prev_hop`.  T1 traffic
    /// is rate-limited by size; an expected reply leaves a route-back
    /// crumb to the previous hop; then the message is consumed if it
    /// is for this node, dropped when its TTL is spent, and otherwise
    /// forwarded with the TTL decremented.
    pub fn receive_routed_message(&mut self, now: Timestamp, prev_hop: PeerId, tier: Tier, msg: RoutedMessage) -> (r: ReceiveOutcome)
        requires
            old(self).wf(),
        ensures
            final(self).wf(),
            ({
                let me = old(self).config.node_id;
                let size = 64 + msg.body.spec_size();
                if tier is T1 && !(old(self).tier1_recv_limiter.spec_available(now) >= size) {
                    &&& r is RateLimited
                    &&& *final(self) == (NetworkState {
                            tier1_recv_limiter: final(self).tier1_recv_limiter,
                            ..*old(self)
                        })
                } else {
                    exists|mid: NetworkState| {
                        &&& #[trigger] spec_receive_prelude(*old(self), mid, now, prev_hop,
                                tier, msg)
                        &&& {
                            let for_me = match msg.target {
                                PeerIdOrHash::PeerId(p) => p == me,
                                PeerIdOrHash::Hash(h) => {
                                    let rb = mid.routing_table_view.route_back;
                                    rb.as_map().contains_key(h)
                                        && rb.spec_fresh(rb.as_map()[h].1, now)
                                        && rb.as_map()[h].0 == me
                                }
                            };
                            if for_me {
                                r is ForMe && *final(self) == mid
                            } else if msg.ttl <= 1 {
                                r is TtlExceeded && *final(self) == mid
                            } else {
                                exists|sent: bool| {
                                    &&& r == ReceiveOutcome::Forwarded(sent)
                                    &&& #[trigger] spec_send_to_peer_rel(mid, *final(self),
                                            now, tier,
                                            RoutedMessage { ttl: (msg.ttl - 1) as u8, ..msg },
                                            sent)
                                }
                            }
                        }
                    }
                }
            }),
    {
        if matches!(tier, Tier::T1) {
            let size = 64 + msg.body.size();
            if !self.tier1_recv_limiter.try_consume(size, now) {
                return ReceiveOutcome::RateLimited;
            }
        }
        if msg.expect_response() {
            let h = msg.hash();
            if matches!(tier, Tier::T1) {
                self.tier1_route_back.insert(now, h, prev_hop);
            } else {
                self.routing_table_view.add_route_back(now, h, prev_hop);
            }
        }
        let ghost mid = *self;
        proof {
            assert(spec_receive_prelude(*old(self), mid, now, prev_hop, tier, msg));
        }
        if self.message_for_me(now, &msg.target) {
            proof {
                assert(*self == mid);
            }
            return ReceiveOutcome::ForMe;
        }
        if msg.ttl <= 1 {
            proof {
                assert(*self == mid);
            }
            return ReceiveOutcome::TtlExceeded;
        }
        let fwd = RoutedMessage {
            target: msg.target,
            author: msg.author,
            signature: msg.signature,
            ttl: msg.ttl - 1,
            body: msg.body,
        };
        let sent = self.send_message_to_peer(now, tier, fwd);
        proof {
            assert(fwd == (RoutedMessage { ttl: (msg.ttl - 1) as u8, ..msg }));
            assert(spec_send_to_peer_rel(mid, *self, now, tier,
                RoutedMessage { ttl: (msg.ttl - 1) as u8, ..msg }, sent));
        }
        ReceiveOutcome::Forwarded(sent)
    }

    /// Count a forwarded transaction since the last block.
    pub fn inc_txns(&mut self)
        ensures
            *final(self) == (NetworkState {
                txns_since_last_block: inc64(old(self).txns_since_last_block),
                ..*old(self)
            }),
    {
        self.txns_since_last_block = if self.txns_since_last_block == u64::MAX {
            self.txns_since_last_block
        } else {
            self.txns_since_last_block + 1
        };
    }

    /// A block arrived: the transaction counter restarts.
    pub fn reset_txns(&mut self)
        ensures
            *final(self) == (NetworkState { txns_since_last_block: 0, ..*old(self) }),
    {
        self.txns_since_last_block = 0;
    }

    /// Claim an inbound-handshake permit; refused when all are in
    /// flight.
    pub fn try_acquire_handshake_permit(&mut self) -> (r: bool)
        ensures
            r == (old(self).handshake_permits > 0),
            *final(self) == (NetworkState {
                handshake_permits: if old(self).handshake_permits > 0 {
                    (old(self).handshake_permits - 1) as u64
                } else {
                    0
                },
                ..*old(self)
            }),
    {
        if self.handshake_permits > 0 {
            self.handshake_permits = self.handshake_permits - 1;
            true
        } else {
            false
        }
    }

    /// Return an inbound-handshake permit, never past the cap.
    pub fn release_handshake_permit(&mut self)
        ensures
            *final(self) == (NetworkState {
                handshake_permits: if old(self).handshake_permits < LIMIT_PENDING_PEERS {
                    (old(self).handshake_permits + 1) as u64
                } else {
                    old(self).handshake_permits
                },
                ..*old(self)
            }),
    {
        if self.handshake_permits < LIMIT_PENDING_PEERS {
            self.handshake_permits = self.handshake_permits + 1;
        }
    }
}


/// One reconciliation step of `update_local_edges`, for the local
/// edge `e` to peer `p`.  A connected peer with a Removed edge is
/// asked for a nonce update and then stopped; a disconnected peer
/// with an Active edge has the edge withdrawn and the tombstone
/// recorded and broadcast; a consistent edge is left untouched.
pub open spec fn spec_reconcile_step(pre: NetworkState, post: NetworkState, now: Timestamp, p: PeerId, e: Edge) -> bool {
    let me = pre.config.node_id;
    &&& post.config == pre.config
    &&& post.node_start == pre.node_start
    &&& post.tier1 == pre.tier1
    &&& post.tier1_route_back == pre.tier1_route_back
    &&& post.peer_store == pre.peer_store
    &&& post.tier1_recv_limiter == pre.tier1_recv_limiter
    &&& post.connected_to_myself == pre.connected_to_myself
    &&& post.edge_tombstones_skipped == pre.edge_tombstones_skipped
    &&& post.dropped_no_route == pre.dropped_no_route
    &&& post.dropped_unknown_account == pre.dropped_unknown_account
    &&& post.txns_since_last_block == pre.txns_since_last_block
    &&& post.handshake_permits == pre.handshake_permits
    &&& post.routing_table_view.me == pre.routing_table_view.me
    &&& post.routing_table_view.next_hops == pre.routing_table_view.next_hops
    &&& post.routing_table_view.accounts == pre.routing_table_view.accounts
    &&& post.routing_table_view.route_back == pre.routing_table_view.route_back
    &&& if pre.tier2.spec_contains(p) && e.spec_state() is Removed {
            // a nonce-update request goes to the peer, then its
            // session is stopped
            &&& post.routing_table_view.local_edges == pre.routing_table_view.local_edges
            &&& post.graph == pre.graph
            &&& exists|mid: Pool, sent: bool| {
                &&& #[trigger] spec_send_rel(pre.tier2, mid, p,
                        PeerMessageV::RequestUpdateNonce(
                            crate::types::spec_partial_edge_info(me, p, e.spec_next())),
                        sent)
                &&& post.tier2.spec_tier() == mid.spec_tier()
                &&& post.tier2.spec_dropped() == mid.spec_dropped()
                &&& post.tier2.spec_ready() == mid.spec_ready().remove(p)
                &&& post.tier2.spec_stop_log()
                        == mid.spec_stop_log().push((p, None::<ReasonForBan>))
            }
        } else if !pre.tier2.spec_contains(p) && e.spec_state() is Active {
            // the edge is withdrawn: tombstone recorded and broadcast
            let t = crate::edge::spec_remove_edge(e, me);
            &&& post.routing_table_view.local_edges@
                    == pre.routing_table_view.local_edges@.insert(p, t)
            &&& post.graph.spec_hist() == pre.graph.spec_hist().push(t)
            &&& post.graph.spec_me() == pre.graph.spec_me()
            &&& post.graph.spec_last_reachable() == pre.graph.spec_last_reachable()
            &&& spec_dominates(post.graph.spec_edges(), t)
            &&& spec_broadcast_rel(pre.tier2, post.tier2,
                    PeerMessageV::SyncRoutingTable(RoutingTableUpdateV {
                        edges: seq![t],
                        accounts: Seq::empty(),
                    }))
        } else {
            // consistent: nothing is done for this edge
            &&& post.tier2 == pre.tier2
            &&& post.routing_table_view.local_edges == pre.routing_table_view.local_edges
            &&& post.graph == pre.graph
        }
}

/// The admission and bookkeeping a received routed message goes
/// through before being consumed or forwarded: the T1 limiter charged
/// for its size, and, when a reply is expected, a route-back crumb to
/// the previous hop left in the tier's cache.
pub open spec fn spec_receive_prelude(pre: NetworkState, post: NetworkState, now: Timestamp, prev_hop: PeerId, tier: Tier, msg: RoutedMessage) -> bool {
    let size = 64 + msg.body.spec_size();
    &&& post.config == pre.config
    &&& post.node_start == pre.node_start
    &&& post.tier1 == pre.tier1
    &&& post.tier2 == pre.tier2
    &&& post.graph == pre.graph
    &&& post.peer_store == pre.peer_store
    &&& post.connected_to_myself == pre.connected_to_myself
    &&& post.edge_tombstones_skipped == pre.edge_tombstones_skipped
    &&& post.dropped_no_route == pre.dropped_no_route
    &&& post.dropped_unknown_account == pre.dropped_unknown_account
    &&& post.txns_since_last_block == pre.txns_since_last_block
    &&& post.handshake_permits == pre.handshake_permits
    &&& post.routing_table_view.me == pre.routing_table_view.me
    &&& post.routing_table_view.next_hops == pre.routing_table_view.next_hops
    &&& post.routing_table_view.local_edges == pre.routing_table_view.local_edges
    &&& post.routing_table_view.accounts == pre.routing_table_view.accounts
    &&& if tier is T1 {
            &&& pre.tier1_recv_limiter.spec_available(now) >= size
            &&& post.tier1_recv_limiter.spec_qps() == pre.tier1_recv_limiter.spec_qps()
            &&& post.tier1_recv_limiter.spec_burst() == pre.tier1_recv_limiter.spec_burst()
            &&& post.tier1_recv_limiter.spec_tokens()
                    == pre.tier1_recv_limiter.spec_available(now) - size
            &&& post.routing_table_view.route_back == pre.routing_table_view.route_back
            &&& if msg.body.spec_expect_response() {
                    spec_rb_inserted(pre.tier1_route_back, post.tier1_route_back, now,
                        msg.spec_hash(), prev_hop)
                } else {
                    post.tier1_route_back == pre.tier1_route_back
                }
        } else {
            &&& post.tier1_recv_limiter == pre.tier1_recv_limiter
            &&& post.tier1_route_back == pre.tier1_route_back
            &&& if msg.body.spec_expect_response() {
                    spec_rb_inserted(pre.routing_table_view.route_back,
                        post.routing_table_view.route_back, now, msg.spec_hash(), prev_hop)
                } else {
                    post.routing_table_view.route_back == pre.routing_table_view.route_back
                }
        }
}

} // verus!
