//! Derived routing view: forwarding table, local edges, account
//! owners and the reply route-back cache.
//!
//! The view is what message routing consults: the next hop per
//! destination, the edges adjacent to the local node, the current
//! peer of each validator account, and the cache that lets a reply
//! addressed by hash retrace its path.

use vstd::prelude::*;
use crate::edge::Edge;
use crate::idmap::IdMap;
use crate::route_back_cache::RouteBackCache;
use crate::types::{AccountId, AnnounceAccount, CryptoHash, FindRouteError, PeerId, PeerIdOrHash,
    Timestamp};

verus! {

/// Routing view of one node.
pub struct RoutingTableView {
    pub me: PeerId,
    pub next_hops: IdMap<PeerId>,
    pub local_edges: IdMap<Edge>,
    pub accounts: IdMap<AnnounceAccount>,
    pub route_back: RouteBackCache,
}

impl RoutingTableView {
    /// An empty view for the local node, with the given route-back
    /// bound and TTL.
    pub fn new(me: PeerId, route_back_capacity: usize, route_back_ttl: u64) -> (r: Self)
        requires
            route_back_capacity >= 1,
        ensures
            r.me == me,
            r.next_hops@ == Map::<PeerId, PeerId>::empty(),
            r.local_edges@ == Map::<PeerId, Edge>::empty(),
            r.accounts@ == Map::<AccountId, AnnounceAccount>::empty(),
            r.route_back@ == Seq::<(CryptoHash, (PeerId, Timestamp))>::empty(),
    {
        RoutingTableView {
            me,
            next_hops: IdMap::new(),
            local_edges: IdMap::new(),
            accounts: IdMap::new(),
            route_back: RouteBackCache::new(route_back_capacity, route_back_ttl),
        }
    }

    /// The current edge between the local node and `peer`, if any.
    pub fn get_local_edge(&self, peer: PeerId) -> (r: Option<&Edge>)
        ensures
            match r {
                Some(e) => self.local_edges@.contains_key(peer) && *e == self.local_edges@[peer],
                None => !self.local_edges@.contains_key(peer),
            },
    {
        self.local_edges.get(peer)
    }

    /// Resolve a target to the peer the message should be handed to.
    /// A peer target is looked up in the next-hop table; a hash target
    /// consumes its route-back binding, so a reply path is single-use.
    pub fn find_route(&mut self, now: Timestamp, target: &PeerIdOrHash)
        -> (r: Result<PeerId, FindRouteError>)
        ensures
            final(self).me == old(self).me,
            final(self).next_hops == old(self).next_hops,
            final(self).local_edges == old(self).local_edges,
            final(self).accounts == old(self).accounts,
            match *target {
                PeerIdOrHash::PeerId(p) => {
                    &&& final(self).route_back == old(self).route_back
                    &&& r == if old(self).next_hops@.contains_key(p) {
                            Result::<PeerId, FindRouteError>::Ok(old(self).next_hops@[p])
                        } else {
                            Result::<PeerId, FindRouteError>::Err(FindRouteError::Unreachable)
                        }
                }
                PeerIdOrHash::Hash(h) => {
                    &&& final(self).route_back.as_map() == old(self).route_back.as_map().remove(h)
                    &&& r == if old(self).route_back.as_map().contains_key(h)
                            && old(self).route_back.spec_fresh(
                                old(self).route_back.as_map()[h].1, now) {
                            Result::<PeerId, FindRouteError>::Ok(
                                old(self).route_back.as_map()[h].0)
                        } else {
                            Result::<PeerId, FindRouteError>::Err(
                                FindRouteError::RouteBackExpired)
                        }
                }
            },
    {
        match target {
            PeerIdOrHash::PeerId(p) => {
                match self.next_hops.get(*p) {
                    Some(h) => Ok(*h),
                    None => Err(FindRouteError::Unreachable),
                }
            }
            PeerIdOrHash::Hash(h) => {
                match self.route_back.remove(now, *h) {
                    Some(peer) => Ok(peer),
                    None => Err(FindRouteError::RouteBackExpired),
                }
            }
        }
    }

    /// Record that a reply addressed by `hash` should go to
    /// `prev_hop`.
    pub fn add_route_back(&mut self, now: Timestamp, hash: CryptoHash, prev_hop: PeerId)
        ensures
            final(self).me == old(self).me,
            final(self).next_hops == old(self).next_hops,
            final(self).local_edges == old(self).local_edges,
            final(self).accounts == old(self).accounts,
            final(self).route_back.spec_capacity() == old(self).route_back.spec_capacity(),
            final(self).route_back.spec_ttl() == old(self).route_back.spec_ttl(),
            final(self).route_back.as_map().contains_key(hash),
            final(self).route_back.as_map()[hash] == (prev_hop, now),
            forall|k: CryptoHash| k != hash
                && #[trigger] final(self).route_back.as_map().contains_key(k)
                ==> old(self).route_back.as_map().contains_key(k)
                    && final(self).route_back.as_map()[k] == old(self).route_back.as_map()[k],
            forall|k: CryptoHash| #[trigger] old(self).route_back.as_map().contains_key(k)
                && k != hash && !final(self).route_back.as_map().contains_key(k)
                ==> old(self).route_back@.len() == old(self).route_back.spec_capacity()
                    && old(self).route_back@[0].0 == k,
    {
        self.route_back.insert(now, hash, prev_hop);
    }

    /// Whether the cache maps `hash` to `candidate` and the binding is
    /// still live.
    pub fn compare_route_back(&self, now: Timestamp, hash: CryptoHash, candidate: PeerId)
        -> (r: bool)
        ensures
            r == (self.route_back.as_map().contains_key(hash)
                && self.route_back.spec_fresh(self.route_back.as_map()[hash].1, now)
                && self.route_back.as_map()[hash].0 == candidate),
    {
        match self.route_back.get(now, hash) {
            Some(p) => p == candidate,
            None => false,
        }
    }

    /// Record the edges of a batch that are adjacent to the local
    /// node, keyed by the far endpoint; the rest are ignored.
    pub fn add_local_edges(&mut self, edges: &Vec<Edge>)
        ensures
            final(self).me == old(self).me,
            final(self).next_hops == old(self).next_hops,
            final(self).accounts == old(self).accounts,
            final(self).route_back == old(self).route_back,
            // untouched peers keep their edge
            forall|p: PeerId| #[trigger] final(self).local_edges@.contains_key(p)
                ==> (old(self).local_edges@.contains_key(p)
                        && final(self).local_edges@[p] == old(self).local_edges@[p])
                    || exists|j: int| 0 <= j < edges@.len()
                        && (#[trigger] edges@[j]).spec_touches(old(self).me)
                        && edges@[j].spec_other(old(self).me) == p
                        && final(self).local_edges@[p] == edges@[j],
            forall|p: PeerId| #[trigger] old(self).local_edges@.contains_key(p)
                ==> final(self).local_edges@.contains_key(p),
            // every adjacent batch edge lands under its far endpoint
            forall|j: int| 0 <= j < edges@.len()
                && (#[trigger] edges@[j]).spec_touches(old(self).me)
                && edges@[j].spec_other(old(self).me) != old(self).me
                ==> final(self).local_edges@.contains_key(edges@[j].spec_other(old(self).me)),
            // with the last edge for each endpoint winning
            forall|j: int| 0 <= j < edges@.len()
                && (#[trigger] edges@[j]).spec_touches(old(self).me)
                && edges@[j].spec_other(old(self).me) != old(self).me
                && (forall|j2: int| j < j2 < edges@.len()
                    ==> !((#[trigger] edges@[j2]).spec_touches(old(self).me)
                        && edges@[j2].spec_other(old(self).me)
                            == edges@[j].spec_other(old(self).me)))
                ==> final(self).local_edges@[edges@[j].spec_other(old(self).me)] == edges@[j],
    {
        let n = edges.len();
        let mut i: usize = 0;
        while i < n
            invariant
                i <= n,
                n == edges@.len(),
                self.me == old(self).me,
                self.next_hops == old(self).next_hops,
                self.accounts == old(self).accounts,
                self.route_back == old(self).route_back,
                forall|p: PeerId| #[trigger] self.local_edges@.contains_key(p)
                    ==> (old(self).local_edges@.contains_key(p)
                            && self.local_edges@[p] == old(self).local_edges@[p])
                        || exists|j: int| 0 <= j < edges@.len()
                            && (#[trigger] edges@[j]).spec_touches(old(self).me)
                            && edges@[j].spec_other(old(self).me) == p
                            && self.local_edges@[p] == edges@[j],
                forall|p: PeerId| #[trigger] old(self).local_edges@.contains_key(p)
                    ==> self.local_edges@.contains_key(p),
                forall|j: int| 0 <= j < i
                    && (#[trigger] edges@[j]).spec_touches(old(self).me)
                    && edges@[j].spec_other(old(self).me) != old(self).me
                    ==> self.local_edges@.contains_key(edges@[j].spec_other(old(self).me)),
                forall|j: int| 0 <= j < i
                    && (#[trigger] edges@[j]).spec_touches(old(self).me)
                    && edges@[j].spec_other(old(self).me) != old(self).me
                    && (forall|j2: int| j < j2 < i
                        ==> !((#[trigger] edges@[j2]).spec_touches(old(self).me)
                            && edges@[j2].spec_other(old(self).me)
                                == edges@[j].spec_other(old(self).me)))
                    ==> self.local_edges@[edges@[j].spec_other(old(self).me)] == edges@[j],
            decreases n - i,
        {
            let e = edges[i];
            match e.other(self.me) {
                Some(o) => {
                    if o != self.me {
                        self.local_edges.insert(o, e);
                        proof {
                            assert(edges@[i as int].spec_touches(old(self).me));
                            assert(edges@[i as int].spec_other(old(self).me) == o);
                        }
                    }
                }
                None => {}
            }
            i += 1;
        }
    }

    /// Accept the announcements that are strictly newer than anything
    /// known for their account; the accepted subset is returned in
    /// order.
    pub fn add_accounts(&mut self, batch: &Vec<AnnounceAccount>) -> (r: Vec<AnnounceAccount>)
        ensures
            final(self).me == old(self).me,
            final(self).next_hops == old(self).next_hops,
            final(self).local_edges == old(self).local_edges,
            final(self).route_back == old(self).route_back,
            // accepted announcements come from the batch and beat what
            // was known
            forall|k: int| 0 <= k < r@.len()
                ==> batch@.contains(#[trigger] r@[k])
                    && (!old(self).accounts@.contains_key(r@[k].account_id)
                        || r@[k].spec_newer_than(old(self).accounts@[r@[k].account_id])),
            // the known map only moves forward
            forall|a: AccountId| #[trigger] old(self).accounts@.contains_key(a)
                ==> final(self).accounts@.contains_key(a)
                    && (final(self).accounts@[a] == old(self).accounts@[a]
                        || final(self).accounts@[a].spec_newer_than(old(self).accounts@[a])),
            forall|a: AccountId| #[trigger] final(self).accounts@.contains_key(a)
                ==> old(self).accounts@.contains_key(a)
                    || exists|j: int| 0 <= j < batch@.len()
                        && (#[trigger] batch@[j]).account_id == a,
            // a batch announcement for a fresh or beaten account is
            // accepted when its account occurs once in the batch
            forall|j: int| 0 <= j < batch@.len()
                && (!old(self).accounts@.contains_key((#[trigger] batch@[j]).account_id)
                    || batch@[j].spec_newer_than(
                        old(self).accounts@[batch@[j].account_id]))
                && (forall|j2: int| 0 <= j2 < batch@.len() && j2 != j
                    ==> (#[trigger] batch@[j2]).account_id != batch@[j].account_id)
                ==> r@.contains(batch@[j]),
    {
        let n = batch.len();
        let mut r: Vec<AnnounceAccount> = Vec::new();
        let mut i: usize = 0;
        while i < n
            invariant
                i <= n,
                n == batch@.len(),
                self.me == old(self).me,
                self.next_hops == old(self).next_hops,
                self.local_edges == old(self).local_edges,
                self.route_back == old(self).route_back,
                forall|k: int| 0 <= k < r@.len()
                    ==> batch@.contains(#[trigger] r@[k])
                        && (!old(self).accounts@.contains_key(r@[k].account_id)
                            || r@[k].spec_newer_than(old(self).accounts@[r@[k].account_id])),
                forall|a: AccountId| #[trigger] old(self).accounts@.contains_key(a)
                    ==> self.accounts@.contains_key(a)
                        && (self.accounts@[a] == old(self).accounts@[a]
                            || self.accounts@[a].spec_newer_than(old(self).accounts@[a])),
                forall|a: AccountId| #[trigger] self.accounts@.contains_key(a)
                    ==> old(self).accounts@.contains_key(a)
                        || exists|j: int| 0 <= j < batch@.len()
                            && (#[trigger] batch@[j]).account_id == a,
                forall|j: int| 0 <= j < i
                    && (!old(self).accounts@.contains_key((#[trigger] batch@[j]).account_id)
                        || batch@[j].spec_newer_than(
                            old(self).accounts@[batch@[j].account_id]))
                    && (forall|j2: int| 0 <= j2 < batch@.len() && j2 != j
                        ==> (#[trigger] batch@[j2]).account_id != batch@[j].account_id)
                    ==> r@.contains(batch@[j]),
                forall|a: AccountId| #![trigger self.accounts@.contains_key(a)]
                    (forall|j2: int| 0 <= j2 < i ==> (#[trigger] batch@[j2]).account_id != a)
                    ==> self.accounts@.contains_key(a) == old(self).accounts@.contains_key(a)
                        && (old(self).accounts@.contains_key(a)
                            ==> self.accounts@[a] == old(self).accounts@[a]),
            decreases n - i,
        {
            let an = batch[i];
            let ghost r0 = r@;
            let accept = match self.accounts.get(an.account_id) {
                Some(known) => an.newer_than(known),
                None => true,
            };
            if accept {
                self.accounts.insert(an.account_id, an);
                r.push(an);
                proof {
                    assert(batch@.contains(batch@[i as int]));
                }
            }
            proof {
                assert forall|k: int| 0 <= k < r0.len()
                    implies r@[k] == r0[k] by {}
                assert forall|j: int| 0 <= j < i + 1
                    && (!old(self).accounts@.contains_key((#[trigger] batch@[j]).account_id)
                        || batch@[j].spec_newer_than(
                            old(self).accounts@[batch@[j].account_id]))
                    && (forall|j2: int| 0 <= j2 < batch@.len() && j2 != j
                        ==> (#[trigger] batch@[j2]).account_id != batch@[j].account_id)
                    implies r@.contains(batch@[j]) by {
                    if j < i {
                        let k = choose|k: int| 0 <= k < r0.len() && r0[k] == batch@[j];
                        assert(r@[k] == batch@[j]);
                    } else {
                        // nothing else in the batch names this account,
                        // so the known entry was still the old one
                        assert(forall|j2: int| 0 <= j2 < i
                            ==> (#[trigger] batch@[j2]).account_id != an.account_id);
                        assert(accept);
                        assert(r@[r@.len() - 1] == batch@[j]);
                    }
                }
                assert forall|a: AccountId| #![trigger self.accounts@.contains_key(a)]
                    (forall|j2: int| 0 <= j2 < i + 1
                        ==> (#[trigger] batch@[j2]).account_id != a)
                    implies self.accounts@.contains_key(a)
                            == old(self).accounts@.contains_key(a)
                        && (old(self).accounts@.contains_key(a)
                            ==> self.accounts@[a] == old(self).accounts@[a]) by {
                    assert(batch@[i as int].account_id != a);
                }
            }
            i += 1;
        }
        r
    }

    /// The peer currently announced for `account`, if any.
    pub fn account_owner(&self, account: AccountId) -> (r: Option<PeerId>)
        ensures
            r == if self.accounts@.contains_key(account) {
                Some(self.accounts@[account].peer_id)
            } else {
                None::<PeerId>
            },
    {
        match self.accounts.get(account) {
            Some(an) => Some(an.peer_id),
            None => None,
        }
    }

    /// The peers the next-hop table can reach, each exactly once.
    pub fn reachable_peers(&self) -> (r: Vec<PeerId>)
        ensures
            forall|j: int| 0 <= j < r@.len()
                ==> self.next_hops@.contains_key(#[trigger] r@[j]),
            forall|p: PeerId| #[trigger] self.next_hops@.contains_key(p) ==> r@.contains(p),
            forall|a: int, b: int| 0 <= a < b < r@.len() ==> r@[a] != r@[b],
    {
        self.next_hops.ids()
    }

    /// The accounts with a known owner, each exactly once.
    pub fn get_accounts_keys(&self) -> (r: Vec<AccountId>)
        ensures
            forall|j: int| 0 <= j < r@.len()
                ==> self.accounts@.contains_key(#[trigger] r@[j]),
            forall|a: AccountId| #[trigger] self.accounts@.contains_key(a) ==> r@.contains(a),
            forall|a: int, b: int| 0 <= a < b < r@.len() ==> r@[a] != r@[b],
    {
        self.accounts.ids()
    }

    /// Replace the derived state after a graph prune: install the new
    /// next-hop table and forget local edges that were pruned (same
    /// pair and nonce).
    pub fn update(&mut self, pruned_edges: &Vec<Edge>, next_hops: IdMap<PeerId>)
        ensures
            final(self).me == old(self).me,
            final(self).accounts == old(self).accounts,
            final(self).route_back == old(self).route_back,
            final(self).next_hops@ == next_hops@,
            forall|p: PeerId| #[trigger] final(self).local_edges@.contains_key(p)
                ==> old(self).local_edges@.contains_key(p)
                    && final(self).local_edges@[p] == old(self).local_edges@[p],
            forall|p: PeerId| #[trigger] old(self).local_edges@.contains_key(p)
                && !final(self).local_edges@.contains_key(p)
                ==> exists|j: int| 0 <= j < pruned_edges@.len()
                    && (#[trigger] pruned_edges@[j]).spec_same_pair(old(self).local_edges@[p])
                    && pruned_edges@[j].nonce == old(self).local_edges@[p].nonce,
    {
        self.next_hops = next_hops;
        let n = pruned_edges.len();
        let mut i: usize = 0;
        while i < n
            invariant
                i <= n,
                n == pruned_edges@.len(),
                self.me == old(self).me,
                self.accounts == old(self).accounts,
                self.route_back == old(self).route_back,
                self.next_hops@ == next_hops@,
                forall|p: PeerId| #[trigger] self.local_edges@.contains_key(p)
                    ==> old(self).local_edges@.contains_key(p)
                        && self.local_edges@[p] == old(self).local_edges@[p],
                forall|p: PeerId| #[trigger] old(self).local_edges@.contains_key(p)
                    && !self.local_edges@.contains_key(p)
                    ==> exists|j: int| 0 <= j < pruned_edges@.len()
                        && (#[trigger] pruned_edges@[j]).spec_same_pair(
                            old(self).local_edges@[p])
                        && pruned_edges@[j].nonce == old(self).local_edges@[p].nonce,
            decreases n - i,
        {
            let e = pruned_edges[i];
            match e.other(self.me) {
                Some(o) => {
                    let matches_local = match self.local_edges.get(o) {
                        Some(le) => le.peer0 == e.peer0 && le.peer1 == e.peer1
                            && le.nonce == e.nonce,
                        None => false,
                    };
                    if matches_local {
                        self.local_edges.remove(o);
                        proof {
                            assert(pruned_edges@[i as int].spec_same_pair(
                                old(self).local_edges@[o]));
                        }
                    }
                }
                None => {}
            }
            i += 1;
        }
    }
}

} // verus!
