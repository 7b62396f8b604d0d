//! Registry of ready connections, keyed by peer identity.
//!
//! A connection models a peer session in the Ready state: it carries a
//! bounded outbox standing for the send channel.  A send succeeds
//! exactly when the peer is present and its outbox has room; broadcast
//! fans out best-effort, counting the peers whose outbox was full.
//! Stopping a peer removes it from the ready set and records the stop
//! request for the session driver.

use vstd::prelude::*;
use crate::idmap::IdMap;
use crate::inc64;
use crate::message::{PeerMessage, PeerMessageV};
use crate::types::{PeerId, ReasonForBan, Tier};

verus! {

/// A ready connection: tier, pending outbound messages and the bound
/// of its send channel.
#[derive(Clone, Debug)]
pub struct Connection {
    pub peer_id: PeerId,
    pub tier: Tier,
    pub outbox: Vec<PeerMessage>,
    pub outbox_cap: usize,
}

impl Connection {
    /// Content of the outbox.
    pub open spec fn spec_outbox_v(self) -> Seq<PeerMessageV> {
        self.outbox@.map_values(|m: PeerMessage| m@)
    }

    /// The send channel has room for one more message.
    pub open spec fn spec_has_room(self) -> bool {
        self.outbox@.len() < self.outbox_cap
    }

    /// A fresh connection with an empty outbox.
    pub fn new(peer_id: PeerId, tier: Tier, outbox_cap: usize) -> (r: Self)
        ensures
            r.peer_id == peer_id,
            r.tier == tier,
            r.outbox_cap == outbox_cap,
            r.outbox@ == Seq::<PeerMessage>::empty(),
    {
        Connection { peer_id, tier, outbox: Vec::new(), outbox_cap }
    }
}

/// Failure of a pool insertion.
#[derive(Clone, Copy, PartialEq, Eq, Structural, Debug)]
pub enum PoolError {
    AlreadyConnected,
}

/// How one send transforms a pool: accepted exactly when the peer is
/// ready with room, in which case its outbox grows by the message;
/// everyone else is untouched.
pub open spec fn spec_send_rel(pre: Pool, post: Pool, peer: PeerId, m: PeerMessageV, sent: bool) -> bool {
    &&& post.spec_tier() == pre.spec_tier()
    &&& post.spec_stop_log() == pre.spec_stop_log()
    &&& sent == pre.spec_can_send(peer)
    &&& post.spec_ready().dom() == pre.spec_ready().dom()
    &&& forall|q: PeerId| q != peer && #[trigger] pre.spec_contains(q)
            ==> post.spec_ready()[q] == pre.spec_ready()[q]
    &&& (!pre.spec_contains(peer) ==> post.spec_ready() == pre.spec_ready())
    &&& (pre.spec_contains(peer) ==> {
            let c0 = pre.spec_ready()[peer];
            let c1 = post.spec_ready()[peer];
            &&& c1.peer_id == c0.peer_id
            &&& c1.tier == c0.tier
            &&& c1.outbox_cap == c0.outbox_cap
            &&& c1.spec_outbox_v() == if sent {
                    c0.spec_outbox_v().push(m)
                } else {
                    c0.spec_outbox_v()
                }
        })
}

/// How a broadcast transforms a pool: every ready peer with room gets
/// the message appended; a full peer keeps its outbox.
pub open spec fn spec_broadcast_rel(pre: Pool, post: Pool, m: PeerMessageV) -> bool {
    &&& post.spec_tier() == pre.spec_tier()
    &&& post.spec_stop_log() == pre.spec_stop_log()
    &&& post.spec_ready().dom() == pre.spec_ready().dom()
    &&& forall|p: PeerId| #[trigger] pre.spec_contains(p) ==> {
            let c0 = pre.spec_ready()[p];
            let c1 = post.spec_ready()[p];
            &&& c1.peer_id == c0.peer_id
            &&& c1.tier == c0.tier
            &&& c1.outbox_cap == c0.outbox_cap
            &&& c1.spec_outbox_v() == if c0.spec_has_room() {
                    c0.spec_outbox_v().push(m)
                } else {
                    c0.spec_outbox_v()
                }
        }
}

/// Registry of ready connections of one tier.
pub struct Pool {
    tier: Tier,
    ready: IdMap<Connection>,
    dropped_sends: u64,
    stop_log: Vec<(PeerId, Option<ReasonForBan>)>,
}

impl Pool {
    #[verifier::type_invariant]
    spec fn inv(self) -> bool {
        forall|p: PeerId| #[trigger] self.ready@.contains_key(p)
            ==> self.ready@[p].peer_id == p && self.ready@[p].tier == self.tier
    }

    /// The ready set: peer identity to connection.
    pub closed spec fn spec_ready(self) -> Map<PeerId, Connection> {
        self.ready@
    }

    /// Tier this pool serves.
    pub closed spec fn spec_tier(self) -> Tier {
        self.tier
    }

    /// Count of sends dropped because an outbox was full.
    pub closed spec fn spec_dropped(self) -> u64 {
        self.dropped_sends
    }

    /// Stop requests issued so far, in order.
    pub closed spec fn spec_stop_log(self) -> Seq<(PeerId, Option<ReasonForBan>)> {
        self.stop_log@
    }

    /// The peer is in the ready set.
    pub open spec fn spec_contains(self, peer: PeerId) -> bool {
        self.spec_ready().contains_key(peer)
    }

    /// Content of the peer's outbox.
    pub open spec fn spec_outbox_v(self, peer: PeerId) -> Seq<PeerMessageV> {
        self.spec_ready()[peer].spec_outbox_v()
    }

    /// A send to `peer` would be accepted now.
    pub open spec fn spec_can_send(self, peer: PeerId) -> bool {
        self.spec_contains(peer) && self.spec_ready()[peer].spec_has_room()
    }

    /// An empty pool for the given tier.
    pub fn new(tier: Tier) -> (r: Self)
        ensures
            r.spec_tier() == tier,
            r.spec_ready() == Map::<PeerId, Connection>::empty(),
            r.spec_dropped() == 0,
            r.spec_stop_log() == Seq::<(PeerId, Option<ReasonForBan>)>::empty(),
    {
        Pool { tier, ready: IdMap::new(), dropped_sends: 0, stop_log: Vec::new() }
    }

    /// Number of ready connections.
    pub fn len(&self) -> (r: usize)
        ensures
            r == self.spec_ready().dom().len(),
    {
        self.ready.len()
    }

    /// Whether `peer` is in the ready set.
    pub fn contains(&self, peer: PeerId) -> (r: bool)
        ensures
            r == self.spec_contains(peer),
    {
        self.ready.contains_key(peer)
    }

    /// The connection of `peer`, if ready.
    pub fn get(&self, peer: PeerId) -> (r: Option<&Connection>)
        ensures
            match r {
                Some(c) => self.spec_contains(peer) && *c == self.spec_ready()[peer],
                None => !self.spec_contains(peer),
            },
    {
        self.ready.get(peer)
    }

    /// The peers of the ready set, each exactly once.
    pub fn ready_ids(&self) -> (r: Vec<PeerId>)
        ensures
            r@.len() == self.spec_ready().dom().len(),
            forall|j: int| 0 <= j < r@.len() ==> self.spec_contains(#[trigger] r@[j]),
            forall|p: PeerId| #[trigger] self.spec_contains(p) ==> r@.contains(p),
            forall|a: int, b: int| 0 <= a < b < r@.len() ==> r@[a] != r@[b],
    {
        self.ready.ids()
    }

    /// The stop requests issued so far, in order.
    pub fn stop_requests(&self) -> (r: &Vec<(PeerId, Option<ReasonForBan>)>)
        ensures
            r@ == self.spec_stop_log(),
    {
        &self.stop_log
    }

    /// Hand out and clear the pending outbox of `peer`.
    pub fn take_outbox(&mut self, peer: PeerId) -> (r: Vec<PeerMessage>)
        ensures
            final(self).spec_tier() == old(self).spec_tier(),
            final(self).spec_dropped() == old(self).spec_dropped(),
            final(self).spec_stop_log() == old(self).spec_stop_log(),
            final(self).spec_ready().dom() == old(self).spec_ready().dom(),
            forall|q: PeerId| q != peer && #[trigger] old(self).spec_contains(q)
                ==> final(self).spec_ready()[q] == old(self).spec_ready()[q],
            !old(self).spec_contains(peer) ==> final(self).spec_ready()
                == old(self).spec_ready() && r@ == Seq::<PeerMessage>::empty(),
            old(self).spec_contains(peer) ==> {
                let c0 = old(self).spec_ready()[peer];
                let c1 = final(self).spec_ready()[peer];
                &&& r@ == c0.outbox@
                &&& c1.peer_id == c0.peer_id
                &&& c1.tier == c0.tier
                &&& c1.outbox_cap == c0.outbox_cap
                &&& c1.outbox@ == Seq::<PeerMessage>::empty()
            },
    {
        proof {
            use_type_invariant(&*self);
        }
        let mut ready: IdMap<Connection> = IdMap::new();
        core::mem::swap(&mut ready, &mut self.ready);
        let removed = ready.remove(peer);
        match removed {
            Some(mut conn) => {
                let mut out: Vec<PeerMessage> = Vec::new();
                core::mem::swap(&mut out, &mut conn.outbox);
                ready.insert(peer, conn);
                core::mem::swap(&mut ready, &mut self.ready);
                proof {
                    assert(final(self).spec_ready() =~= old(self).spec_ready().insert(
                        peer,
                        final(self).spec_ready()[peer],
                    ));
                    assert(final(self).spec_ready().dom()
                        =~= old(self).spec_ready().dom());
                }
                out
            }
            None => {
                core::mem::swap(&mut ready, &mut self.ready);
                proof {
                    assert(old(self).spec_ready().remove(peer) =~= old(self).spec_ready());
                }
                Vec::new()
            }
        }
    }

    /// Register a connection; refused when the peer is already
    /// connected.
    pub fn insert(&mut self, conn: Connection) -> (r: Result<(), PoolError>)
        requires
            conn.tier == old(self).spec_tier(),
        ensures
            final(self).spec_tier() == old(self).spec_tier(),
            final(self).spec_dropped() == old(self).spec_dropped(),
            final(self).spec_stop_log() == old(self).spec_stop_log(),
            r is Ok <==> !old(self).spec_contains(conn.peer_id),
            r is Ok ==> final(self).spec_ready()
                == old(self).spec_ready().insert(conn.peer_id, conn),
            r is Err ==> final(self).spec_ready() == old(self).spec_ready(),
    {
        proof {
            use_type_invariant(&*self);
        }
        if self.ready.contains_key(conn.peer_id) {
            Err(PoolError::AlreadyConnected)
        } else {
            let peer = conn.peer_id;
            let mut ready: IdMap<Connection> = IdMap::new();
            core::mem::swap(&mut ready, &mut self.ready);
            ready.insert(peer, conn);
            core::mem::swap(&mut ready, &mut self.ready);
            Ok(())
        }
    }

    /// Drop `peer` from the ready set; a no-op if absent.
    pub fn remove(&mut self, peer: PeerId)
        ensures
            final(self).spec_tier() == old(self).spec_tier(),
            final(self).spec_dropped() == old(self).spec_dropped(),
            final(self).spec_stop_log() == old(self).spec_stop_log(),
            final(self).spec_ready() == old(self).spec_ready().remove(peer),
    {
        proof {
            use_type_invariant(&*self);
        }
        let mut ready: IdMap<Connection> = IdMap::new();
        core::mem::swap(&mut ready, &mut self.ready);
        ready.remove(peer);
        core::mem::swap(&mut ready, &mut self.ready);
    }

    /// Ask the peer's session to stop: the connection leaves the ready
    /// set and the request is recorded for the session driver.
    pub fn stop_peer(&mut self, peer: PeerId, reason: Option<ReasonForBan>) -> (r: bool)
        ensures
            final(self).spec_tier() == old(self).spec_tier(),
            final(self).spec_dropped() == old(self).spec_dropped(),
            r == old(self).spec_contains(peer),
            final(self).spec_ready() == old(self).spec_ready().remove(peer),
            final(self).spec_stop_log() == if r {
                old(self).spec_stop_log().push((peer, reason))
            } else {
                old(self).spec_stop_log()
            },
    {
        proof {
            use_type_invariant(&*self);
        }
        let mut ready: IdMap<Connection> = IdMap::new();
        core::mem::swap(&mut ready, &mut self.ready);
        let removed = ready.remove(peer);
        core::mem::swap(&mut ready, &mut self.ready);
        match removed {
            Some(_) => {
                let mut log: Vec<(PeerId, Option<ReasonForBan>)> = Vec::new();
                core::mem::swap(&mut log, &mut self.stop_log);
                log.push((peer, reason));
                core::mem::swap(&mut log, &mut self.stop_log);
                true
            }
            None => false,
        }
    }

    /// Hand `msg` to `peer`'s send channel.  Succeeds exactly when the
    /// peer is ready and its outbox has room; a full outbox counts a
    /// dropped send.
    pub fn send_message(&mut self, peer: PeerId, msg: PeerMessage) -> (r: bool)
        ensures
            final(self).spec_tier() == old(self).spec_tier(),
            final(self).spec_stop_log() == old(self).spec_stop_log(),
            r == old(self).spec_can_send(peer),
            final(self).spec_ready().dom() == old(self).spec_ready().dom(),
            forall|q: PeerId| q != peer && #[trigger] old(self).spec_contains(q)
                ==> final(self).spec_ready()[q] == old(self).spec_ready()[q],
            !old(self).spec_contains(peer)
                ==> final(self).spec_ready() == old(self).spec_ready(),
            old(self).spec_contains(peer) ==> {
                let c0 = old(self).spec_ready()[peer];
                let c1 = final(self).spec_ready()[peer];
                &&& c1.peer_id == c0.peer_id
                &&& c1.tier == c0.tier
                &&& c1.outbox_cap == c0.outbox_cap
                &&& c1.outbox@ == if r { c0.outbox@.push(msg) } else { c0.outbox@ }
                &&& c1.spec_outbox_v() == if r {
                        c0.spec_outbox_v().push(msg@)
                    } else {
                        c0.spec_outbox_v()
                    }
            },
            final(self).spec_dropped() == if old(self).spec_contains(peer) && !r {
                inc64(old(self).spec_dropped())
            } else {
                old(self).spec_dropped()
            },
            spec_send_rel(*old(self), *final(self), peer, msg@, r),
    {
        proof {
            use_type_invariant(&*self);
        }
        let mut ready: IdMap<Connection> = IdMap::new();
        core::mem::swap(&mut ready, &mut self.ready);
        let removed = ready.remove(peer);
        match removed {
            Some(mut conn) => {
                let ok = conn.outbox.len() < conn.outbox_cap;
                if ok {
                    let ghost ob0 = conn.outbox@;
                    conn.outbox.push(msg);
                    proof {
                        assert(conn.spec_outbox_v()
                            =~= ob0.map_values(|m: PeerMessage| m@).push(msg@));
                    }
                } else {
                    self.dropped_sends = if self.dropped_sends == u64::MAX {
                        self.dropped_sends
                    } else {
                        self.dropped_sends + 1
                    };
                }
                ready.insert(peer, conn);
                core::mem::swap(&mut ready, &mut self.ready);
                proof {
                    assert(final(self).spec_ready() =~= old(self).spec_ready().insert(
                        peer,
                        final(self).spec_ready()[peer],
                    ));
                    assert(final(self).spec_ready().dom()
                        =~= old(self).spec_ready().dom());
                }
                ok
            }
            None => {
                core::mem::swap(&mut ready, &mut self.ready);
                proof {
                    assert(old(self).spec_ready().remove(peer) =~= old(self).spec_ready());
                }
                false
            }
        }
    }

    /// Fan `msg` out to every ready peer, best-effort: a peer with a
    /// full outbox is skipped and counted, and keeps its connection
    /// otherwise untouched.
    pub fn broadcast_message(&mut self, msg: &PeerMessage)
        ensures
            final(self).spec_tier() == old(self).spec_tier(),
            final(self).spec_stop_log() == old(self).spec_stop_log(),
            final(self).spec_ready().dom() == old(self).spec_ready().dom(),
            forall|p: PeerId| #[trigger] old(self).spec_contains(p) ==> {
                let c0 = old(self).spec_ready()[p];
                let c1 = final(self).spec_ready()[p];
                &&& c1.peer_id == c0.peer_id
                &&& c1.tier == c0.tier
                &&& c1.outbox_cap == c0.outbox_cap
                &&& c1.spec_outbox_v() == if c0.spec_has_room() {
                        c0.spec_outbox_v().push(msg@)
                    } else {
                        c0.spec_outbox_v()
                    }
            },
            spec_broadcast_rel(*old(self), *final(self), msg@),
    {
        proof {
            use_type_invariant(&*self);
        }
        let ids = self.ready_ids();
        let ghost p0 = *self;
        let n = ids.len();
        let mut i: usize = 0;
        while i < n
            invariant
                i <= n,
                n == ids@.len(),
                forall|j: int| 0 <= j < n ==> p0.spec_contains(#[trigger] ids@[j]),
                forall|p: PeerId| #[trigger] p0.spec_contains(p) ==> ids@.contains(p),
                forall|a: int, b: int| 0 <= a < b < n ==> ids@[a] != ids@[b],
                self.spec_tier() == p0.spec_tier(),
                self.spec_stop_log() == p0.spec_stop_log(),
                self.spec_ready().dom() == p0.spec_ready().dom(),
                forall|j: int| 0 <= j < i ==> {
                    let c0 = p0.spec_ready()[#[trigger] ids@[j]];
                    let c1 = self.spec_ready()[ids@[j]];
                    &&& c1.peer_id == c0.peer_id
                    &&& c1.tier == c0.tier
                    &&& c1.outbox_cap == c0.outbox_cap
                    &&& c1.spec_outbox_v() == if c0.spec_has_room() {
                            c0.spec_outbox_v().push(msg@)
                        } else {
                            c0.spec_outbox_v()
                        }
                },
                forall|j: int| i <= j < n
                    ==> self.spec_ready()[#[trigger] ids@[j]] == p0.spec_ready()[ids@[j]],
            decreases n - i,
        {
            let m = msg.duplicate();
            let peer = ids[i];
            let ghost pre = *self;
            self.send_message(peer, m);
            proof {
                let iv = i as int;
                assert(pre.spec_ready()[ids@[iv]] == p0.spec_ready()[ids@[iv]]);
                assert(pre.spec_contains(ids@[iv]) == p0.spec_contains(ids@[iv]));
                assert forall|j: int| 0 <= j < iv + 1 implies {
                    let c0 = p0.spec_ready()[#[trigger] ids@[j]];
                    let c1 = self.spec_ready()[ids@[j]];
                    &&& c1.peer_id == c0.peer_id
                    &&& c1.tier == c0.tier
                    &&& c1.outbox_cap == c0.outbox_cap
                    &&& c1.spec_outbox_v() == if c0.spec_has_room() {
                            c0.spec_outbox_v().push(msg@)
                        } else {
                            c0.spec_outbox_v()
                        }
                } by {
                    assert(p0.spec_contains(ids@[j]));
                    assert(pre.spec_contains(ids@[j]));
                    if j < iv {
                        assert(ids@[j] != ids@[iv]);
                    }
                }
                assert forall|j: int| iv + 1 <= j < n implies
                    self.spec_ready()[#[trigger] ids@[j]] == p0.spec_ready()[ids@[j]] by {
                    assert(ids@[j] != ids@[iv]);
                    assert(p0.spec_contains(ids@[j]));
                    assert(pre.spec_contains(ids@[j]));
                }
            }
            i += 1;
        }
        proof {
            assert forall|p: PeerId| #[trigger] old(self).spec_contains(p) implies {
                let c0 = old(self).spec_ready()[p];
                let c1 = final(self).spec_ready()[p];
                &&& c1.peer_id == c0.peer_id
                &&& c1.tier == c0.tier
                &&& c1.outbox_cap == c0.outbox_cap
                &&& c1.spec_outbox_v() == if c0.spec_has_room() {
                        c0.spec_outbox_v().push(msg@)
                    } else {
                        c0.spec_outbox_v()
                    }
            } by {
                assert(ids@.contains(p));
                let j = choose|j: int| 0 <= j < ids@.len() && ids@[j] == p;
                assert(0 <= j < i);
            }
        }
    }
}

} // verus!
