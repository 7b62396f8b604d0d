//! Component-level behaviour: edges, caches, limiter, pools, graph.

use netcore::connection_pool::{Connection, Pool, PoolError};
use netcore::edge::{Edge, EdgeState};
use netcore::edge_verifier::verify_all;
use netcore::edge_graph::EdgeGraph;
use netcore::message::PeerMessage;
use netcore::rate_limiter::RateLimiter;
use netcore::route_back_cache::RouteBackCache;
use netcore::types::{EdgeSig, SecretKey, Tier};

fn key(owner: u64) -> SecretKey {
    SecretKey { owner }
}

fn active_edge(a: u64, b: u64, nonce: u64) -> Edge {
    Edge::make_active(a, b, nonce, &key(a), &key(b))
}

#[test]
fn edge_state_follows_nonce_parity() {
    let e = active_edge(1, 2, 3);
    assert_eq!(e.edge_type(), EdgeState::Active);
    assert!(e.verify());
    let t = e.remove_edge(1, &key(1));
    assert_eq!(t.nonce, 4);
    assert_eq!(t.edge_type(), EdgeState::Removed);
    assert!(t.verify());
}

#[test]
fn edge_next_skips_to_next_active_nonce() {
    let e = active_edge(1, 2, 3);
    assert_eq!(e.next(), 5);
    let t = e.remove_edge(2, &key(2));
    assert_eq!(t.next(), 5);
}

#[test]
fn edge_with_wrong_signer_is_invalid() {
    let mut e = active_edge(1, 2, 3);
    e.sig0 = Some(EdgeSig { signer: 9, peer0: 1, peer1: 2, nonce: 3 });
    assert!(!e.verify());
}

#[test]
fn removed_edge_needs_only_one_signature() {
    let e = active_edge(1, 2, 5);
    let t = e.remove_edge(2, &key(2));
    assert!(t.sig0.is_none());
    assert!(t.verify());
}

#[test]
fn verify_all_splits_good_from_bad() {
    let good = active_edge(1, 2, 3);
    let mut bad = active_edge(1, 3, 5);
    bad.sig1 = None;
    let (valid, all_ok) = verify_all(&vec![good, bad]);
    assert_eq!(valid.len(), 1);
    assert_eq!(valid[0].peer1, 2);
    assert!(!all_ok);
}

#[test]
fn route_back_remove_is_single_use() {
    let mut c = RouteBackCache::new(10, 1000);
    c.insert(0, 77, 5);
    assert_eq!(c.remove(10, 77), Some(5));
    assert_eq!(c.remove(10, 77), None);
}

#[test]
fn route_back_entries_expire() {
    let mut c = RouteBackCache::new(10, 1000);
    c.insert(0, 77, 5);
    assert_eq!(c.get(999, 77), Some(5));
    assert_eq!(c.get(1000, 77), None);
    assert_eq!(c.remove(1000, 77), None);
}

#[test]
fn route_back_capacity_evicts_oldest() {
    let mut c = RouteBackCache::new(2, 1_000_000);
    c.insert(1, 10, 100);
    c.insert(2, 20, 200);
    c.insert(3, 30, 300);
    assert_eq!(c.get(4, 10), None);
    assert_eq!(c.get(4, 20), Some(200));
    assert_eq!(c.get(4, 30), Some(300));
}

#[test]
fn rate_limiter_grants_until_empty_and_refills() {
    let mut l = RateLimiter::new(0, 1000, 2000);
    assert!(l.try_consume(2000, 0));
    assert!(!l.try_consume(1, 0));
    // one second refills 1000 tokens
    assert!(l.try_consume(1000, 1000));
    assert!(!l.try_consume(1, 1000));
}

#[test]
fn pool_rejects_duplicate_peer() {
    let mut p = Pool::new(Tier::T2);
    assert!(p.insert(Connection::new(7, Tier::T2, 4)).is_ok());
    assert_eq!(
        p.insert(Connection::new(7, Tier::T2, 4)),
        Err(PoolError::AlreadyConnected)
    );
}

#[test]
fn pool_send_fails_for_absent_or_full_peer() {
    let mut p = Pool::new(Tier::T2);
    let msg = PeerMessage::Routed(netcore::types::RawRoutedMessage {
        target: netcore::types::PeerIdOrHash::PeerId(2),
        body: netcore::types::RoutedMessageBody::ForwardTx(1),
    }
    .sign(&key(1), 10));
    assert!(!p.send_message(7, msg.duplicate()));
    p.insert(Connection::new(7, Tier::T2, 1)).unwrap();
    assert!(p.send_message(7, msg.duplicate()));
    assert!(!p.send_message(7, msg.duplicate()));
}

#[test]
fn pool_broadcast_reaches_every_ready_peer() {
    let mut p = Pool::new(Tier::T2);
    p.insert(Connection::new(1, Tier::T2, 4)).unwrap();
    p.insert(Connection::new(2, Tier::T2, 4)).unwrap();
    let msg = PeerMessage::Routed(netcore::types::RawRoutedMessage {
        target: netcore::types::PeerIdOrHash::PeerId(9),
        body: netcore::types::RoutedMessageBody::ForwardTx(1),
    }
    .sign(&key(3), 10));
    p.broadcast_message(&msg);
    assert_eq!(p.get(1).unwrap().outbox.len(), 1);
    assert_eq!(p.get(2).unwrap().outbox.len(), 1);
}

#[test]
fn graph_keeps_highest_nonce_per_pair() {
    let mut g = EdgeGraph::new(1);
    let e3 = active_edge(2, 3, 3);
    let e5 = active_edge(2, 3, 5);
    let r1 = g.add_verified(0, &vec![e3]);
    assert_eq!(r1.len(), 1);
    let r2 = g.add_verified(0, &vec![e5]);
    assert_eq!(r2.len(), 1);
    let r3 = g.add_verified(0, &vec![e3]);
    assert_eq!(r3.len(), 0);
    assert!(g.contains_triple(&e5));
    assert!(!g.contains_triple(&e3));
}

#[test]
fn graph_next_hops_cover_a_line_topology() {
    let mut g = EdgeGraph::new(1);
    g.add_verified(0, &vec![active_edge(1, 2, 1), active_edge(2, 3, 1)]);
    let hops = g.compute_next_hops();
    assert_eq!(hops.get(2), Some(&2));
    assert_eq!(hops.get(3), Some(&2));
    assert_eq!(hops.get(1), None);
}

#[test]
fn graph_prune_drops_stale_tombstones() {
    let mut g = EdgeGraph::new(1);
    let t = active_edge(2, 3, 3).remove_edge(2, &key(2));
    g.add_verified(100, &vec![active_edge(1, 2, 1), t]);
    let (pruned, _hops) = g.prune(200, None, Some(150));
    assert_eq!(pruned.len(), 1);
    assert_eq!(pruned[0].nonce, 4);
    assert!(!g.contains_triple(&t));
    let e12 = active_edge(1, 2, 1);
    assert!(g.contains_triple(&e12));
}

#[test]
fn graph_prune_drops_unreachable_active_edges() {
    let mut g = EdgeGraph::new(1);
    // edge far from the local node: both endpoints unreachable
    g.add_verified(0, &vec![active_edge(8, 9, 1)]);
    let (pruned, _hops) = g.prune(50, Some(10), None);
    assert_eq!(pruned.len(), 1);
    // a connected edge survives the same prune
    let mut g2 = EdgeGraph::new(1);
    g2.add_verified(0, &vec![active_edge(1, 2, 1)]);
    let (pruned2, _hops2) = g2.prune(50, Some(10), None);
    assert_eq!(pruned2.len(), 0);
}
