//! End-to-end behaviour of the network state facade.

use netcore::connection_pool::Connection;
use netcore::edge::{Edge, EdgeState};
use netcore::message::PeerMessage;
use netcore::network_state::{NetworkConfig, NetworkState, ReceiveOutcome};
use netcore::peer_store::PeerStatus;
use netcore::types::{
    AnnounceAccount, PeerIdOrHash, Ping, Pong, RawRoutedMessage, ReasonForBan, RoutedMessage,
    RoutedMessageBody, SecretKey, Tier,
};

fn key(owner: u64) -> SecretKey {
    SecretKey { owner }
}

fn config(id: u64) -> NetworkConfig {
    NetworkConfig {
        node_id: id,
        node_key: key(id),
        routed_message_ttl: 100,
        skip_tombstones: None,
        outbox_cap: 8,
        route_back_capacity: 16,
        route_back_ttl: 1_000_000,
        recv_qps: 1000,
        recv_burst: 2000,
    }
}

fn node(id: u64) -> NetworkState {
    NetworkState::new(config(id), 0)
}

fn active_edge(a: u64, b: u64, nonce: u64) -> Edge {
    Edge::make_active(a, b, nonce, &key(a), &key(b))
}

fn connect(s: &mut NetworkState, peer: u64) {
    s.tier2.insert(Connection::new(peer, Tier::T2, 8)).unwrap();
}

/// Wire the line topology A(1) - B(2) - C(3) and compute forwarding.
fn line_topology() -> (NetworkState, NetworkState, NetworkState) {
    let mut a = node(1);
    let mut b = node(2);
    let mut c = node(3);
    let ab = active_edge(1, 2, 1);
    let bc = active_edge(2, 3, 1);
    for n in [&mut a, &mut b, &mut c] {
        n.add_edges_to_routing_table(0, &vec![ab, bc]).unwrap();
        n.update_routing_table(0, None, None);
    }
    connect(&mut a, 2);
    connect(&mut b, 1);
    connect(&mut b, 3);
    connect(&mut c, 2);
    (a, b, c)
}

fn first_routed(s: &NetworkState, peer: u64) -> RoutedMessage {
    let conn = s.tier2.get(peer).expect("peer connected");
    match &conn.outbox[0] {
        PeerMessage::Routed(m) => *m,
        other => panic!("expected a routed message, got {:?}", other),
    }
}

#[test]
fn self_delivery_is_impossible() {
    let mut a = node(1);
    connect(&mut a, 2);
    let msg = a.sign_message(RawRoutedMessage {
        target: PeerIdOrHash::PeerId(1),
        body: RoutedMessageBody::ForwardTx(7),
    });
    assert!(!a.send_message_to_peer(5, Tier::T2, msg));
    assert_eq!(a.connected_to_myself, 1);
    assert_eq!(a.tier2.get(2).unwrap().outbox.len(), 0);
}

#[test]
fn tier1_route_back_is_single_use() {
    let mut a = node(1);
    a.tier1.insert(Connection::new(2, Tier::T1, 8)).unwrap();
    a.tier1_route_back.insert(0, 42, 2);
    let msg = a.sign_message(RawRoutedMessage {
        target: PeerIdOrHash::Hash(42),
        body: RoutedMessageBody::BlockApproval(9),
    });
    assert!(a.send_message_to_peer(1, Tier::T1, msg));
    // the binding was consumed: the same hash no longer resolves
    let again = a.sign_message(RawRoutedMessage {
        target: PeerIdOrHash::Hash(42),
        body: RoutedMessageBody::BlockApproval(9),
    });
    assert!(!a.send_message_to_peer(2, Tier::T1, again));
}

#[test]
fn ping_travels_a_to_c_via_b() {
    let (mut a, mut b, mut c) = line_topology();
    assert!(a.send_ping(10, Tier::T2, 7, 3));
    let m1 = first_routed(&a, 2);
    assert_eq!(m1.author, 1);
    // the sender remembered the reply path to itself
    assert!(a.message_for_me(11, &PeerIdOrHash::Hash(m1.hash())));

    let out = b.receive_routed_message(11, 1, Tier::T2, m1);
    assert_eq!(out, ReceiveOutcome::Forwarded(true));
    // B relayed exactly once, towards C
    assert_eq!(b.tier2.get(3).unwrap().outbox.len(), 1);
    assert_eq!(b.tier2.get(1).unwrap().outbox.len(), 0);

    let m2 = first_routed(&b, 3);
    assert_eq!(m2.author, 1);
    let out2 = c.receive_routed_message(12, 2, Tier::T2, m2);
    assert_eq!(out2, ReceiveOutcome::ForMe);
    match m2.body {
        RoutedMessageBody::Ping(Ping { nonce, source }) => {
            assert_eq!(nonce, 7);
            assert_eq!(source, 1);
        }
        other => panic!("expected a ping, got {:?}", other),
    }
}

#[test]
fn pong_returns_c_to_a_via_route_back() {
    let (mut a, mut b, mut c) = line_topology();
    assert!(a.send_ping(10, Tier::T2, 7, 3));
    let m1 = first_routed(&a, 2);
    b.receive_routed_message(11, 1, Tier::T2, m1);
    let m2 = first_routed(&b, 3);
    c.receive_routed_message(12, 2, Tier::T2, m2);

    let h = m2.hash();
    assert!(c.send_pong(13, Tier::T2, 7, h));
    let p1 = first_routed(&c, 2);
    let out = b.receive_routed_message(14, 3, Tier::T2, p1);
    assert_eq!(out, ReceiveOutcome::Forwarded(true));
    // B resolved the reply through its route-back binding
    let p2 = {
        let conn = b.tier2.get(1).unwrap();
        match &conn.outbox[0] {
            PeerMessage::Routed(m) => *m,
            other => panic!("expected a routed message, got {:?}", other),
        }
    };
    let out2 = a.receive_routed_message(15, 2, Tier::T2, p2);
    assert_eq!(out2, ReceiveOutcome::ForMe);
    assert!(a.message_for_me(15, &p2.target));
    match p2.body {
        RoutedMessageBody::Pong(Pong { nonce, source }) => {
            assert_eq!(nonce, 7);
            assert_eq!(source, 3);
        }
        other => panic!("expected a pong, got {:?}", other),
    }
}

#[test]
fn edge_retention_keeps_the_highest_nonce() {
    let mut a = node(1);
    let e3 = active_edge(2, 3, 3);
    let e5 = active_edge(2, 3, 5);
    a.add_edges_to_routing_table(0, &vec![e3]).unwrap();
    a.add_edges_to_routing_table(1, &vec![e5]).unwrap();
    a.add_edges_to_routing_table(2, &vec![e3]).unwrap();
    assert!(a.graph.contains_triple(&e5));
    assert!(!a.graph.contains_triple(&e3));
}

#[test]
fn invalid_edge_in_batch_earns_a_ban_but_good_edges_stay() {
    let mut a = node(1);
    connect(&mut a, 2);
    let e1 = active_edge(1, 2, 1);
    let mut e2 = active_edge(2, 3, 1);
    e2.sig0 = None;
    let r = a.add_edges_to_routing_table(0, &vec![e1, e2]);
    assert_eq!(r, Err(ReasonForBan::InvalidEdge));
    assert!(a.graph.contains_triple(&e1));
    assert!(!a.graph.contains_triple(&e2));
    // the good edge was broadcast
    let conn = a.tier2.get(2).unwrap();
    match &conn.outbox[0] {
        PeerMessage::SyncRoutingTable(u) => {
            assert_eq!(u.edges.len(), 1);
            assert_eq!(u.edges[0].nonce, 1);
            assert!(u.accounts.is_empty());
        }
        other => panic!("expected a routing table update, got {:?}", other),
    }
}

#[test]
fn account_broadcast_happens_once() {
    let mut a = node(1);
    connect(&mut a, 2);
    let an = AnnounceAccount { account_id: 50, peer_id: 3, epoch_id: 1, sig: 7 };
    a.broadcast_accounts(vec![an]);
    assert_eq!(a.tier2.get(2).unwrap().outbox.len(), 1);
    a.broadcast_accounts(vec![an]);
    assert_eq!(a.tier2.get(2).unwrap().outbox.len(), 1);
}

#[test]
fn unregister_synthesizes_a_tombstone() {
    let mut a = node(1);
    connect(&mut a, 2);
    connect(&mut a, 5);
    let e = active_edge(1, 2, 3);
    a.add_edges_to_routing_table(0, &vec![e]).unwrap();
    // drain the broadcast of the active edge before the interesting part
    let before = a.tier2.get(5).unwrap().outbox.len();

    a.unregister(10, 2, Tier::T2, None);
    assert!(a.tier2.get(2).is_none());
    let t = *a.routing_table_view.get_local_edge(2).unwrap();
    assert_eq!(t.nonce, 4);
    assert_eq!(t.edge_type(), EdgeState::Removed);
    assert!(a.graph.contains_triple(&t));
    assert_eq!(a.peer_store.status(2), Some(&PeerStatus::Disconnected(10)));
    // the tombstone went out to the remaining peer
    let conn = a.tier2.get(5).unwrap();
    assert_eq!(conn.outbox.len(), before + 1);
    match &conn.outbox[before] {
        PeerMessage::SyncRoutingTable(u) => {
            assert_eq!(u.edges.len(), 1);
            assert_eq!(u.edges[0].nonce, 4);
            assert_eq!(u.edges[0].edge_type(), EdgeState::Removed);
        }
        other => panic!("expected a routing table update, got {:?}", other),
    }
}

#[test]
fn disconnect_and_ban_stops_a_connected_peer() {
    let mut a = node(1);
    connect(&mut a, 2);
    a.disconnect_and_ban(5, 2, ReasonForBan::Abusive);
    assert!(a.tier2.get(2).is_none());
    assert_eq!(a.peer_store.status(2), None);
    // an unconnected peer is banned in the store directly
    a.disconnect_and_ban(6, 9, ReasonForBan::Abusive);
    assert_eq!(a.peer_store.status(9), Some(&PeerStatus::Banned(ReasonForBan::Abusive, 6)));
}

#[test]
fn important_messages_are_sent_three_times() {
    let mut a = node(1);
    connect(&mut a, 2);
    let an = AnnounceAccount { account_id: 50, peer_id: 3, epoch_id: 1, sig: 7 };
    a.routing_table_view.add_accounts(&vec![an]);
    a.add_edges_to_routing_table(0, &vec![active_edge(1, 2, 1), active_edge(2, 3, 1)]).unwrap();
    a.update_routing_table(0, None, None);
    let pre = a.tier2.get(2).unwrap().outbox.len();
    assert!(a.send_message_to_account(5, 50, RoutedMessageBody::BlockApproval(9)));
    let post = a.tier2.get(2).unwrap().outbox.len();
    assert_eq!(post - pre, 3);
}

#[test]
fn unimportant_messages_are_sent_once() {
    let mut a = node(1);
    connect(&mut a, 2);
    let an = AnnounceAccount { account_id: 50, peer_id: 3, epoch_id: 1, sig: 7 };
    a.routing_table_view.add_accounts(&vec![an]);
    a.add_edges_to_routing_table(0, &vec![active_edge(1, 2, 1), active_edge(2, 3, 1)]).unwrap();
    a.update_routing_table(0, None, None);
    let pre = a.tier2.get(2).unwrap().outbox.len();
    assert!(a.send_message_to_account(5, 50, RoutedMessageBody::ForwardTx(9)));
    let post = a.tier2.get(2).unwrap().outbox.len();
    assert_eq!(post - pre, 1);
}

#[test]
fn unknown_account_drops_the_message() {
    let mut a = node(1);
    assert!(!a.send_message_to_account(5, 50, RoutedMessageBody::ForwardTx(9)));
    assert_eq!(a.dropped_unknown_account, 1);
}

#[test]
fn tombstones_are_withheld_while_the_gate_is_closed() {
    let mut cfg = config(1);
    cfg.skip_tombstones = Some(1000);
    let mut a = NetworkState::new(cfg, 0);
    connect(&mut a, 5);
    let active = active_edge(2, 3, 1);
    let tomb = active_edge(2, 4, 3).remove_edge(2, &key(2));
    a.add_edges_to_routing_table(10, &vec![active, tomb]).unwrap();
    assert_eq!(a.edge_tombstones_skipped, 1);
    // both were retained, but only the Active edge was broadcast
    assert!(a.graph.contains_triple(&tomb));
    let conn = a.tier2.get(5).unwrap();
    assert_eq!(conn.outbox.len(), 1);
    match &conn.outbox[0] {
        PeerMessage::SyncRoutingTable(u) => {
            assert_eq!(u.edges.len(), 1);
            assert_eq!(u.edges[0].edge_type(), EdgeState::Active);
        }
        other => panic!("expected a routing table update, got {:?}", other),
    }
    // after the window, tombstones flow again
    let tomb2 = active_edge(2, 6, 3).remove_edge(2, &key(2));
    a.add_edges_to_routing_table(2000, &vec![tomb2]).unwrap();
    let conn = a.tier2.get(5).unwrap();
    assert_eq!(conn.outbox.len(), 2);
    match &conn.outbox[1] {
        PeerMessage::SyncRoutingTable(u) => {
            assert_eq!(u.edges[0].edge_type(), EdgeState::Removed);
        }
        other => panic!("expected a routing table update, got {:?}", other),
    }
}

#[test]
fn reconciliation_makes_edges_agree_with_connections() {
    let mut a = node(1);
    // connected peer 2 whose edge is Removed
    connect(&mut a, 2);
    let dead = active_edge(1, 2, 3).remove_edge(1, &key(1));
    a.add_edges_to_routing_table(0, &vec![dead]).unwrap();
    // disconnected peer 4 whose edge is Active
    let live = active_edge(1, 4, 3);
    a.add_edges_to_routing_table(0, &vec![live]).unwrap();

    a.update_local_edges(10);
    // connected-with-removed-edge was stopped
    assert!(a.tier2.get(2).is_none());
    // disconnected-with-active-edge got a tombstone
    let t = *a.routing_table_view.get_local_edge(4).unwrap();
    assert_eq!(t.edge_type(), EdgeState::Removed);
    assert_eq!(t.nonce, 4);

    // a second run changes nothing: the state is already consistent
    a.update_local_edges(20);
    assert!(a.tier2.get(2).is_none());
    let t2 = *a.routing_table_view.get_local_edge(4).unwrap();
    assert_eq!(t2.nonce, 4);
}

#[test]
fn tier1_receive_is_rate_limited_by_size() {
    let mut cfg = config(1);
    cfg.recv_qps = 1;
    cfg.recv_burst = 100;
    let mut a = NetworkState::new(cfg, 0);
    let msg = a.sign_message(RawRoutedMessage {
        target: PeerIdOrHash::PeerId(9),
        body: RoutedMessageBody::ForwardTx(1),
    });
    // a transaction models 64 + 256 bytes, over the 100-token bucket
    let out = a.receive_routed_message(0, 2, Tier::T1, msg);
    assert_eq!(out, ReceiveOutcome::RateLimited);
}

#[test]
fn forwarding_stops_when_the_ttl_is_spent() {
    let (_a, mut b, _c) = line_topology();
    let mut msg = node(1).sign_message(RawRoutedMessage {
        target: PeerIdOrHash::PeerId(3),
        body: RoutedMessageBody::ForwardTx(1),
    });
    msg.ttl = 1;
    let out = b.receive_routed_message(5, 1, Tier::T2, msg);
    assert_eq!(out, ReceiveOutcome::TtlExceeded);
}

#[test]
fn propose_edge_advances_by_two() {
    let mut a = node(1);
    assert_eq!(a.propose_edge(2, None).nonce, 1);
    assert_eq!(a.propose_edge(2, Some(9)).nonce, 9);
    a.add_edges_to_routing_table(0, &vec![active_edge(1, 2, 3)]).unwrap();
    assert_eq!(a.propose_edge(2, None).nonce, 5);
}

#[test]
fn no_route_drops_and_counts() {
    let mut a = node(1);
    let msg = a.sign_message(RawRoutedMessage {
        target: PeerIdOrHash::PeerId(9),
        body: RoutedMessageBody::ForwardTx(1),
    });
    assert!(!a.send_message_to_peer(5, Tier::T2, msg));
    assert_eq!(a.dropped_no_route, 1);
}

#[test]
fn expired_route_back_counts_as_no_route() {
    let mut a = node(1);
    connect(&mut a, 2);
    a.routing_table_view.add_route_back(0, 42, 2);
    let msg = a.sign_message(RawRoutedMessage {
        target: PeerIdOrHash::Hash(42),
        body: RoutedMessageBody::ForwardTx(1),
    });
    // well past the TTL, the binding no longer resolves
    assert!(!a.send_message_to_peer(2_000_000, Tier::T2, msg));
    assert_eq!(a.dropped_no_route, 1);
    assert_eq!(a.tier2.get(2).unwrap().outbox.len(), 0);
}

#[test]
fn all_known_batch_changes_nothing() {
    let mut a = node(1);
    connect(&mut a, 2);
    let e = active_edge(1, 2, 3);
    a.add_edges_to_routing_table(0, &vec![e]).unwrap();
    let outbox_before = a.tier2.get(2).unwrap().outbox.len();
    // offering the same edge again is a no-op: nothing broadcast
    assert_eq!(a.add_edges_to_routing_table(1, &vec![e]), Ok(()));
    assert_eq!(a.tier2.get(2).unwrap().outbox.len(), outbox_before);
    // even an ill-signed edge whose triple is known earns no ban
    let mut bad = e;
    bad.sig0 = None;
    assert_eq!(a.add_edges_to_routing_table(2, &vec![bad]), Ok(()));
    assert_eq!(a.tier2.get(2).unwrap().outbox.len(), outbox_before);
}

#[test]
fn nonce_ties_resolve_the_same_in_any_order() {
    // two distinct well-signed tombstones for one pair and nonce: one
    // signed by each endpoint
    let e = active_edge(2, 3, 3);
    let t2 = e.remove_edge(2, &key(2));
    let t3 = e.remove_edge(3, &key(3));
    assert_ne!(t2, t3);
    let mut g1 = netcore::edge_graph::EdgeGraph::new(1);
    g1.add_verified(0, &vec![t2]);
    g1.add_verified(1, &vec![t3]);
    let mut g2 = netcore::edge_graph::EdgeGraph::new(1);
    g2.add_verified(0, &vec![t3]);
    g2.add_verified(1, &vec![t2]);
    let r1 = g1.retained_edge(2, 3).unwrap();
    let r2 = g2.retained_edge(2, 3).unwrap();
    assert_eq!(r1, r2);
    // the same holds within a single batch
    let mut g3 = netcore::edge_graph::EdgeGraph::new(1);
    g3.add_verified(0, &vec![t2, t3]);
    assert_eq!(g3.retained_edge(2, 3).unwrap(), r1);
}

#[test]
fn standard_config_uses_the_rated_receive_limits() {
    let cfg = NetworkConfig::standard(1, key(1), 100);
    assert_eq!(cfg.recv_qps, netcore::network_state::RECV_BYTES_PER_SEC);
    assert_eq!(cfg.recv_burst, netcore::network_state::RECV_BURST_BYTES);
    assert_eq!(cfg.recv_qps, 20 * 1024 * 1024);
    assert_eq!(cfg.recv_burst, 40 * 1024 * 1024);
    let a = NetworkState::new(cfg, 0);
    assert_eq!(a.config.node_id, 1);
}

#[test]
fn handshake_permits_are_bounded() {
    let mut a = node(1);
    let mut granted = 0;
    while a.try_acquire_handshake_permit() {
        granted += 1;
    }
    assert_eq!(granted, 60);
    a.release_handshake_permit();
    assert!(a.try_acquire_handshake_permit());
    assert!(!a.try_acquire_handshake_permit());
}
