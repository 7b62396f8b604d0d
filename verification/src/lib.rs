//! Network state core of a peer-to-peer node.
//!
//! The crate models the subsystem that owns a node's live view of the
//! overlay network and drives message routing between peers: a signed
//! routing graph with anti-replay nonces, two connection pools with
//! distinct delivery semantics, route-back caches translating message
//! hashes to previous hops, rate-limited ingress, and a reconciliation
//! pass that repairs divergence between the connection set and the
//! advertised edge set.

use vstd::prelude::*;

pub mod connection_pool;
pub mod edge;
pub mod edge_graph;
pub mod edge_verifier;
pub mod idmap;
pub mod message;
pub mod network_state;
pub mod peer_store;
pub mod rate_limiter;
pub mod route_back_cache;
pub mod routing_table_view;
pub mod types;

verus! {

/// Increment that saturates at the top of `u64`, used for counters.
pub open spec fn inc64(x: u64) -> u64 {
    if x == u64::MAX { x } else { (x + 1) as u64 }
}

/// Addition that saturates at the top of `u64`, used for counters.
pub open spec fn sat_add64(x: u64, y: int) -> u64 {
    if x + y > u64::MAX { u64::MAX } else { (x + y) as u64 }
}

} // verus!
