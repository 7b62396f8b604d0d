//! The signed routing graph: retained edges and derived forwarding.
//!
//! The graph keeps, for every unordered pair of peers, the well-signed
//! edge it prefers among everything it has ever been handed: the
//! highest nonce, with ties broken by a fixed total order on the
//! signatures, so the outcome never depends on arrival order.  A ghost
//! history records every edge received since the last prune, so
//! retention is stated against everything received: per pair, the
//! retained edge is the unique maximum of the received edges.
//!
//! From the Active subgraph the graph derives a next-hop table: the
//! first hop towards each peer reachable from the local node.

use vstd::prelude::*;
use crate::edge::Edge;
use crate::idmap::IdMap;
use crate::types::{EdgeSig, PeerId, Timestamp};

verus! {

/// Some edge of `s` covers `e`'s pair with at least its nonce.
pub open spec fn spec_dominates(s: Seq<Edge>, e: Edge) -> bool {
    exists|i: int| 0 <= i < s.len() && (#[trigger] s[i]).spec_same_pair(e) && s[i].nonce >= e.nonce
}

/// The pair of `e` occurs in `s`.
pub open spec fn spec_has_pair(s: Seq<Edge>, e: Edge) -> bool {
    exists|i: int| 0 <= i < s.len() && (#[trigger] s[i]).spec_same_pair(e)
}

/// Lexicographic order on signature slots: an absent signature ranks
/// lowest, present ones compare by signer, pair and nonce.
pub open spec fn spec_sig_gt(a: Option<EdgeSig>, b: Option<EdgeSig>) -> bool {
    match (a, b) {
        (Some(x), None) => true,
        (None, _) => false,
        (Some(x), Some(y)) => {
            ||| x.signer > y.signer
            ||| (x.signer == y.signer && (x.peer0 > y.peer0
                || (x.peer0 == y.peer0 && (x.peer1 > y.peer1
                    || (x.peer1 == y.peer1 && x.nonce > y.nonce)))))
        }
    }
}

/// Tie-break among edges of the same pair and nonce: lexicographic on
/// the two signature slots.  A strict total order on distinct edges
/// of one triple, so retention does not depend on arrival order.
pub open spec fn spec_tie_greater(a: Edge, b: Edge) -> bool {
    ||| spec_sig_gt(a.sig0, b.sig0)
    ||| (a.sig0 == b.sig0 && spec_sig_gt(a.sig1, b.sig1))
}

/// `w` is retained in preference to `l`: same pair, and a higher
/// nonce, or the same nonce with `w` equal or greater in the
/// tie-break order.
pub open spec fn spec_wins(w: Edge, l: Edge) -> bool {
    &&& w.spec_same_pair(l)
    &&& {
        ||| w.nonce > l.nonce
        ||| (w.nonce == l.nonce && (w == l || spec_tie_greater(w, l)))
    }
}

/// Some edge of `s` is retained in preference to `e`.
pub open spec fn spec_settled(s: Seq<Edge>, e: Edge) -> bool {
    exists|i: int| 0 <= i < s.len() && (#[trigger] s[i]).spec_same_pair(e) && spec_wins(s[i], e)
}

fn sig_gt(x: &Option<EdgeSig>, y: &Option<EdgeSig>) -> (r: bool)
    ensures
        r == spec_sig_gt(*x, *y),
{
    match (x, y) {
        (Some(a), None) => true,
        (None, _) => false,
        (Some(a), Some(b)) => {
            a.signer > b.signer
                || (a.signer == b.signer && (a.peer0 > b.peer0
                    || (a.peer0 == b.peer0 && (a.peer1 > b.peer1
                        || (a.peer1 == b.peer1 && a.nonce > b.nonce)))))
        }
    }
}

fn sig_eq(x: &Option<EdgeSig>, y: &Option<EdgeSig>) -> (r: bool)
    ensures
        r == (*x == *y),
{
    match (x, y) {
        (None, None) => true,
        (Some(a), Some(b)) => {
            a.signer == b.signer && a.peer0 == b.peer0 && a.peer1 == b.peer1
                && a.nonce == b.nonce
        }
        _ => false,
    }
}

/// Whether `a` beats `b` in the tie-break order.
fn tie_greater(a: &Edge, b: &Edge) -> (r: bool)
    ensures
        r == spec_tie_greater(*a, *b),
{
    if sig_gt(&a.sig0, &b.sig0) {
        true
    } else if sig_eq(&a.sig0, &b.sig0) {
        sig_gt(&a.sig1, &b.sig1)
    } else {
        false
    }
}

/// The tie-break order is irreflexive and asymmetric.
proof fn lemma_tie_strict(a: Edge, b: Edge)
    ensures
        !spec_tie_greater(a, a),
        !(spec_tie_greater(a, b) && spec_tie_greater(b, a)),
{
}

/// Distinct edges of one pair and nonce are ordered by the tie-break.
proof fn lemma_tie_total(a: Edge, b: Edge)
    requires
        a.spec_same_pair(b),
        a.nonce == b.nonce,
        a != b,
    ensures
        spec_tie_greater(a, b) || spec_tie_greater(b, a),
{
}

/// The tie-break order is transitive.
proof fn lemma_tie_trans(a: Edge, b: Edge, c: Edge)
    requires
        spec_tie_greater(a, b),
        spec_tie_greater(b, c),
    ensures
        spec_tie_greater(a, c),
{
}

/// Preference composes: what wins against the winner wins against
/// the loser.
proof fn lemma_wins_trans(a: Edge, b: Edge, c: Edge)
    requires
        spec_wins(a, b),
        spec_wins(b, c),
    ensures
        spec_wins(a, c),
{
    if a.nonce == b.nonce && b.nonce == c.nonce && a != b && b != c && a != c {
        lemma_tie_trans(a, b, c);
    }
}

/// Mutual preference is equality: the retained edge of a pair is the
/// unique maximum under the nonce-then-tie-break order.
pub proof fn lemma_wins_antisymmetric(a: Edge, b: Edge)
    requires
        spec_wins(a, b),
        spec_wins(b, a),
    ensures
        a == b,
{
    if a != b {
        lemma_tie_strict(a, b);
    }
}

/// Retention is a function of the received set alone: two runs that
/// received the same edges, in any order, retain the same edge for a
/// pair.  `r1` and `r2` are each a received edge of the pair that is
/// preferred over every received edge of that pair, as the graph's
/// retention clauses ensure; they must then be the same edge.
pub proof fn lemma_retention_deterministic(h1: Seq<Edge>, h2: Seq<Edge>, r1: Edge, r2: Edge)
    requires
        forall|e: Edge| h1.contains(e) <==> h2.contains(e),
        h1.contains(r1),
        h2.contains(r2),
        r1.spec_same_pair(r2),
        forall|k: int| 0 <= k < h1.len() && (#[trigger] h1[k]).spec_same_pair(r1)
            ==> spec_wins(r1, h1[k]),
        forall|k: int| 0 <= k < h2.len() && (#[trigger] h2[k]).spec_same_pair(r2)
            ==> spec_wins(r2, h2[k]),
    ensures
        r1 == r2,
{
    assert(h1.contains(r2));
    let k1 = choose|k1: int| 0 <= k1 < h1.len() && h1[k1] == r2;
    assert(spec_wins(r1, r2));
    assert(h2.contains(r1));
    let k2 = choose|k2: int| 0 <= k2 < h2.len() && h2[k2] == r1;
    assert(spec_wins(r2, r1));
    lemma_wins_antisymmetric(r1, r2);
}

/// Last time each peer was seen reachable; a peer never seen counts
/// as reachable at time zero.
pub open spec fn spec_reach_time(m: Map<PeerId, Timestamp>, p: PeerId) -> Timestamp {
    if m.contains_key(p) { m[p] } else { 0 }
}

/// Why a retained entry is dropped by a prune: a tombstone retained
/// before the cut-off, or an Active edge with an endpoint other than
/// the local node that is unreachable and has been since the given
/// instant.
pub open spec fn spec_prune_cond(
    entry: (Edge, Timestamp),
    me: PeerId,
    since: Option<Timestamp>,
    older: Option<Timestamp>,
    reachable: Set<PeerId>,
    reach_time: Map<PeerId, Timestamp>,
) -> bool {
    ||| (entry.0.spec_state() is Removed && (older matches Some(t) && entry.1 < t))
    ||| (entry.0.spec_state() is Active && (since matches Some(s)
        && exists|p: PeerId| #[trigger] entry.0.spec_touches(p) && p != me
            && !reachable.contains(p) && spec_reach_time(reach_time, p) <= s))
}

/// `e` is the edge of some entry of `ents` that `spec_prune_cond`
/// condemns.
pub open spec fn spec_condemned_one(
    e: Edge,
    ents: Seq<(Edge, Timestamp)>,
    me: PeerId,
    since: Option<Timestamp>,
    older: Option<Timestamp>,
    reachable: Set<PeerId>,
    reach_time: Map<PeerId, Timestamp>,
) -> bool {
    exists|b: int| #![trigger ents[b]] 0 <= b < ents.len()
        && ents[b].0 == e
        && spec_prune_cond(ents[b], me, since, older, reachable, reach_time)
}

/// Everything in `pruned` is the edge of some entry of `ents` that
/// `spec_prune_cond` condemns.
pub open spec fn spec_all_condemned(
    pruned: Seq<Edge>,
    ents: Seq<(Edge, Timestamp)>,
    me: PeerId,
    since: Option<Timestamp>,
    older: Option<Timestamp>,
    reachable: Set<PeerId>,
    reach_time: Map<PeerId, Timestamp>,
) -> bool {
    forall|c: int| 0 <= c < pruned.len()
        ==> spec_condemned_one(
            #[trigger] pruned[c], ents, me, since, older, reachable, reach_time)
}

proof fn lemma_condemned_from_witnesses(
    pruned: Seq<Edge>,
    ents: Seq<(Edge, Timestamp)>,
    me: PeerId,
    since: Option<Timestamp>,
    older: Option<Timestamp>,
    reachable: Set<PeerId>,
    reach_time: Map<PeerId, Timestamp>,
    ws: Seq<int>,
)
    requires
        ws.len() == pruned.len(),
        forall|c: int| 0 <= c < ws.len()
            ==> 0 <= #[trigger] ws[c] < ents.len()
                && ents[ws[c]].0 == pruned[c]
                && spec_prune_cond(ents[ws[c]], me, since, older, reachable, reach_time),
    ensures
        spec_all_condemned(pruned, ents, me, since, older, reachable, reach_time),
{
    assert forall|c: int| 0 <= c < pruned.len()
        implies spec_condemned_one(
            #[trigger] pruned[c], ents, me, since, older, reachable, reach_time) by {
        let b = ws[c];
        assert(0 <= b < ents.len() && ents[b].0 == pruned[c]
            && spec_prune_cond(ents[b], me, since, older, reachable, reach_time));
    }
}

/// The routing graph of one node.
pub struct EdgeGraph {
    me: PeerId,
    entries: Vec<(Edge, Timestamp)>,
    last_reachable: IdMap<Timestamp>,
    hist: Ghost<Seq<Edge>>,
}

impl EdgeGraph {
    /// Retained entries: edge and the time it was retained.
    pub closed spec fn spec_entries(self) -> Seq<(Edge, Timestamp)> {
        self.entries@
    }

    /// Retained edges.
    pub open spec fn spec_edges(self) -> Seq<Edge> {
        self.spec_entries().map_values(|p: (Edge, Timestamp)| p.0)
    }

    /// Local node identity.
    pub closed spec fn spec_me(self) -> PeerId {
        self.me
    }

    /// Every edge received by `add_verified` since the last prune (or
    /// construction), in order; pruned survivors re-seed it.
    pub closed spec fn spec_hist(self) -> Seq<Edge> {
        self.hist@
    }

    /// Last time each peer was seen reachable by a prune pass.
    pub closed spec fn spec_last_reachable(self) -> Map<PeerId, Timestamp> {
        self.last_reachable@
    }

    /// An Active retained edge joins `a` and `b`.
    pub open spec fn spec_direct_active(self, a: PeerId, b: PeerId) -> bool {
        exists|i: int| 0 <= i < self.spec_edges().len() && {
            let e = #[trigger] self.spec_edges()[i];
            e.spec_state() is Active && e.spec_touches(a) && e.spec_touches(b) && a != b
        }
    }

    #[verifier::type_invariant]
    spec fn inv(self) -> bool {
        &&& forall|i: int| 0 <= i < self.entries@.len()
                ==> (#[trigger] self.entries@[i]).0.spec_valid()
        &&& forall|i: int, j: int| 0 <= i < j < self.entries@.len()
                ==> !(#[trigger] self.entries@[i]).0.spec_same_pair(
                    (#[trigger] self.entries@[j]).0)
        // every retained edge was received
        &&& forall|i: int| 0 <= i < self.entries@.len()
                ==> self.hist@.contains((#[trigger] self.entries@[i]).0)
        // the retained edge of a pair is preferred over every
        // received edge of that pair
        &&& forall|i: int, k: int|
                0 <= i < self.entries@.len() && 0 <= k < self.hist@.len()
                && (#[trigger] self.hist@[k]).spec_same_pair((#[trigger] self.entries@[i]).0)
                ==> spec_wins(self.entries@[i].0, self.hist@[k])
        // every received pair has a retained edge
        &&& forall|k: int| 0 <= k < self.hist@.len()
                ==> spec_has_pair(self.spec_edges(), #[trigger] self.hist@[k])
    }

    /// An empty graph for the local node.
    pub fn new(me: PeerId) -> (r: Self)
        ensures
            r.spec_me() == me,
            r.spec_entries() == Seq::<(Edge, Timestamp)>::empty(),
            r.spec_hist() == Seq::<Edge>::empty(),
            r.spec_last_reachable() == Map::<PeerId, Timestamp>::empty(),
    {
        EdgeGraph {
            me,
            entries: Vec::new(),
            last_reachable: IdMap::new(),
            hist: Ghost(Seq::empty()),
        }
    }

    fn find_pair(&self, peer0: PeerId, peer1: PeerId) -> (r: Option<usize>)
        ensures
            match r {
                Some(i) => i < self.spec_entries().len()
                    && self.spec_entries()[i as int].0.peer0 == peer0
                    && self.spec_entries()[i as int].0.peer1 == peer1,
                None => forall|j: int| 0 <= j < self.spec_entries().len()
                    ==> !((#[trigger] self.spec_entries()[j]).0.peer0 == peer0
                        && self.spec_entries()[j].0.peer1 == peer1),
            },
    {
        let n = self.entries.len();
        let mut i: usize = 0;
        while i < n
            invariant
                i <= n,
                n == self.spec_entries().len(),
                forall|j: int| 0 <= j < i
                    ==> !((#[trigger] self.spec_entries()[j]).0.peer0 == peer0
                        && self.spec_entries()[j].0.peer1 == peer1),
            decreases n - i,
        {
            if self.entries[i].0.peer0 == peer0 && self.entries[i].0.peer1 == peer1 {
                return Some(i);
            }
            i += 1;
        }
        None
    }

    /// Whether an edge with the same pair and nonce is retained.
    pub fn contains_triple(&self, e: &Edge) -> (r: bool)
        ensures
            r == exists|i: int| 0 <= i < self.spec_edges().len()
                && (#[trigger] self.spec_edges()[i]).spec_same_pair(*e)
                && self.spec_edges()[i].nonce == e.nonce,
    {
        match self.find_pair(e.peer0, e.peer1) {
            Some(i) => {
                let hit = self.entries[i].0.nonce == e.nonce;
                proof {
                    use_type_invariant(self);
                    let iv = i as int;
                    assert(self.spec_edges()[iv] == self.spec_entries()[iv].0);
                    if !hit {
                        assert forall|j: int|
                            0 <= j < self.spec_edges().len()
                            && (#[trigger] self.spec_edges()[j]).spec_same_pair(*e)
                            implies self.spec_edges()[j].nonce != e.nonce by {
                            if j != iv {
                                assert(self.spec_entries()[j].0.spec_same_pair(
                                    self.spec_entries()[iv].0));
                            }
                        }
                    }
                }
                hit
            }
            None => {
                proof {
                    use_type_invariant(self);
                    assert forall|j: int|
                        0 <= j < self.spec_edges().len()
                        implies !((#[trigger] self.spec_edges()[j]).spec_same_pair(*e)
                            && self.spec_edges()[j].nonce == e.nonce) by {
                        assert(self.spec_edges()[j] == self.spec_entries()[j].0);
                    }
                }
                false
            }
        }
    }

    /// The retained edge of a pair, if any.
    pub fn retained_edge(&self, peer0: PeerId, peer1: PeerId) -> (r: Option<Edge>)
        ensures
            match r {
                Some(e) => self.spec_edges().contains(e)
                    && e.peer0 == peer0 && e.peer1 == peer1,
                None => forall|j: int| 0 <= j < self.spec_edges().len()
                    ==> !((#[trigger] self.spec_edges()[j]).peer0 == peer0
                        && self.spec_edges()[j].peer1 == peer1),
            },
    {
        match self.find_pair(peer0, peer1) {
            Some(i) => {
                let e = self.entries[i].0;
                proof {
                    assert(self.spec_edges()[i as int] == e);
                }
                Some(e)
            }
            None => {
                proof {
                    assert forall|j: int| 0 <= j < self.spec_edges().len()
                        implies !((#[trigger] self.spec_edges()[j]).peer0 == peer0
                            && self.spec_edges()[j].peer1 == peer1) by {
                        assert(self.spec_edges()[j] == self.spec_entries()[j].0);
                    }
                }
                None
            }
        }
    }

    /// Offer one verified edge: it is retained exactly when its pair
    /// is new or it is preferred over the incumbent under the
    /// nonce-then-tie-break order.
    pub(crate) fn insert_one(&mut self, now: Timestamp, e: Edge) -> (ins: bool)
        requires
            e.spec_valid(),
        ensures
            final(self).spec_me() == old(self).spec_me(),
            final(self).spec_last_reachable() == old(self).spec_last_reachable(),
            final(self).spec_hist() == old(self).spec_hist().push(e),
            ins == !spec_settled(old(self).spec_edges(), e),
            !ins ==> final(self).spec_entries() == old(self).spec_entries(),
            // the new state is preferred over the old one and the
            // offered edge
            forall|j: int| 0 <= j < old(self).spec_edges().len()
                ==> spec_settled(final(self).spec_edges(),
                    #[trigger] old(self).spec_edges()[j]),
            spec_settled(final(self).spec_edges(), e),
            // no edge is invented
            forall|i: int| 0 <= i < final(self).spec_entries().len()
                ==> old(self).spec_entries().contains(#[trigger] final(self).spec_entries()[i])
                    || final(self).spec_entries()[i] == (e, now),
            ins ==> final(self).spec_entries().contains((e, now)),
            // edges of other pairs survive untouched
            forall|j: int| 0 <= j < old(self).spec_entries().len()
                && !(#[trigger] old(self).spec_entries()[j]).0.spec_same_pair(e)
                ==> final(self).spec_entries().contains(old(self).spec_entries()[j]),
    {
        proof {
            use_type_invariant(&*self);
        }
        let r = self.find_pair(e.peer0, e.peer1);
        let me_copy = self.me;
        let mut tmp = EdgeGraph::new(me_copy);
        core::mem::swap(&mut tmp, self);
        let EdgeGraph { me, entries: mut ents, last_reachable, hist } = tmp;
        let ghost ents0 = ents@;
        let ghost hist0 = hist@;
        let ghost hist1 = hist0.push(e);
        let mut ins = false;
        let ghost mut iv: int = 0;
        match r {
            Some(i) => {
                proof {
                    iv = i as int;
                    assert(ents0[iv].0.spec_same_pair(e));
                }
                let inc_nonce = ents[i].0.nonce;
                let beats = inc_nonce < e.nonce
                    || (inc_nonce == e.nonce && tie_greater(&e, &ents[i].0));
                proof {
                    assert forall|j: int|
                        0 <= j < ents0.len() && (#[trigger] ents0[j]).0.spec_same_pair(e)
                        implies j == iv by {
                        if j != iv {
                            assert(ents0[if j < iv { j } else { iv }].0.spec_same_pair(
                                ents0[if j < iv { iv } else { j }].0));
                        }
                    }
                }
                if beats {
                    proof {
                        lemma_tie_strict(e, ents0[iv].0);
                        assert(!spec_wins(ents0[iv].0, e));
                        assert(!spec_settled(old(self).spec_edges(), e));
                    }
                    ents[i] = (e, now);
                    ins = true;
                } else {
                    proof {
                        assert(old(self).spec_edges()[iv] == ents0[iv].0);
                        assert(spec_wins(ents0[iv].0, e)) by {
                            if ents0[iv].0.nonce == e.nonce && ents0[iv].0 != e {
                                lemma_tie_total(ents0[iv].0, e);
                            }
                        }
                        assert(spec_settled(old(self).spec_edges(), e));
                    }
                }
            }
            None => {
                proof {
                    assert forall|j: int| 0 <= j < ents0.len()
                        implies !(#[trigger] ents0[j]).0.spec_same_pair(e) by {
                        assert(old(self).spec_entries()[j] == ents0[j]);
                    }
                    assert(!spec_settled(old(self).spec_edges(), e));
                    iv = ents0.len() as int;
                }
                ents.push((e, now));
                ins = true;
            }
        }
        proof {
            let cur = ents@;
            // the offered edge and all prior pairs are dominated
            if ins {
                assert(cur[iv] == (e, now));
                assert(cur.map_values(|p: (Edge, Timestamp)| p.0)[iv] == e);
            }
            assert forall|j: int| 0 <= j < ents0.len()
                implies spec_settled(cur.map_values(|p: (Edge, Timestamp)| p.0),
                    (#[trigger] ents0[j]).0) by {
                let cs = cur.map_values(|p: (Edge, Timestamp)| p.0);
                if ins && j == iv {
                    assert(cs[iv] == e);
                    assert(cs[iv].spec_same_pair(ents0[j].0));
                    assert(spec_wins(e, ents0[iv].0)) by {
                        if e.nonce == ents0[iv].0.nonce {
                            assert(spec_tie_greater(e, ents0[iv].0));
                        }
                    }
                } else {
                    assert(cur[j] == ents0[j]);
                    assert(cs[j] == ents0[j].0);
                    assert(cs[j].spec_same_pair(ents0[j].0));
                    assert(spec_wins(cs[j], ents0[j].0));
                }
            }
            assert(spec_settled(cur.map_values(|p: (Edge, Timestamp)| p.0), e)) by {
                let cs = cur.map_values(|p: (Edge, Timestamp)| p.0);
                if ins {
                    assert(cs[iv] == e);
                    assert(cs[iv].spec_same_pair(e));
                    assert(spec_wins(cs[iv], e));
                } else {
                    assert(cs[iv] == ents0[iv].0);
                    assert(cs[iv].spec_same_pair(e) && spec_wins(cs[iv], e));
                }
            }
            // provenance and survival
            assert forall|i2: int| 0 <= i2 < cur.len()
                implies ents0.contains(#[trigger] cur[i2]) || cur[i2] == (e, now) by {
                if !(ins && i2 == iv) {
                    assert(cur[i2] == ents0[i2]);
                }
            }
            assert forall|j: int| 0 <= j < ents0.len()
                && !(#[trigger] ents0[j]).0.spec_same_pair(e)
                implies cur.contains(ents0[j]) by {
                assert(cur[j] == ents0[j]);
            }
            // well-formedness of the rebuilt graph
            assert forall|i2: int, j2: int| 0 <= i2 < j2 < cur.len()
                implies !(#[trigger] cur[i2]).0.spec_same_pair((#[trigger] cur[j2]).0) by {
                if ins && iv == ents0.len() as int && j2 == iv {
                    assert(cur[i2] == ents0[i2]);
                    assert(cur[j2].0 == e);
                } else {
                    if i2 != iv {
                        assert(cur[i2] == ents0[i2]);
                    }
                    if j2 != iv {
                        assert(cur[j2] == ents0[j2]);
                    }
                    if i2 == iv || j2 == iv {
                        if ins {
                            assert(ents0[iv].0.spec_same_pair(e));
                        }
                    }
                }
            }
            // retention clauses against the extended history
            assert forall|i2: int| 0 <= i2 < cur.len()
                implies hist1.contains((#[trigger] cur[i2]).0) by {
                if ins && i2 == iv {
                    assert(hist1[hist0.len() as int] == e);
                } else {
                    assert(cur[i2] == ents0[i2]);
                    assert(hist0.contains(ents0[i2].0));
                    let k = choose|k: int| 0 <= k < hist0.len() && hist0[k] == ents0[i2].0;
                    assert(hist1[k] == ents0[i2].0);
                }
            }
            assert forall|i2: int, k: int|
                0 <= i2 < cur.len() && 0 <= k < hist1.len()
                && (#[trigger] hist1[k]).spec_same_pair((#[trigger] cur[i2]).0)
                implies spec_wins(cur[i2].0, hist1[k]) by {
                if k < hist0.len() {
                    assert(hist1[k] == hist0[k]);
                    if ins && i2 == iv {
                        // the replacement is preferred over the incumbent,
                        // which was preferred over everything received
                        if iv < ents0.len() {
                            assert(hist0[k].spec_same_pair(ents0[iv].0));
                            assert(spec_wins(ents0[iv].0, hist0[k]));
                            assert(spec_wins(e, ents0[iv].0)) by {
                                if e.nonce == ents0[iv].0.nonce {
                                    assert(spec_tie_greater(e, ents0[iv].0));
                                }
                            }
                            lemma_wins_trans(e, ents0[iv].0, hist0[k]);
                        } else {
                            // a fresh pair: its pair was never received
                            assert(spec_has_pair(old(self).spec_edges(), hist0[k]));
                            let j = choose|j: int| 0 <= j < old(self).spec_edges().len()
                                && (#[trigger] old(self).spec_edges()[j]).spec_same_pair(
                                    hist0[k]);
                            assert(old(self).spec_edges()[j] == ents0[j].0);
                            assert(ents0[j].0.spec_same_pair(e));
                        }
                    } else {
                        assert(cur[i2] == ents0[i2]);
                    }
                } else {
                    assert(hist1[k] == e);
                    if ins && i2 == iv {
                        assert(cur[iv].0 == e);
                        assert(spec_wins(e, e));
                    } else if !ins && i2 == iv {
                        assert(cur[i2] == ents0[i2]);
                        assert(spec_wins(ents0[iv].0, e));
                    } else {
                        assert(cur[i2] == ents0[i2]);
                        assert(!ents0[i2].0.spec_same_pair(e)
                            || (iv < ents0.len() && i2 == iv));
                    }
                }
            }
            assert forall|k: int| 0 <= k < hist1.len()
                implies spec_has_pair(cur.map_values(|p: (Edge, Timestamp)| p.0),
                    #[trigger] hist1[k]) by {
                let cs = cur.map_values(|p: (Edge, Timestamp)| p.0);
                if k < hist0.len() {
                    assert(spec_has_pair(old(self).spec_edges(), hist0[k]));
                    let j = choose|j: int| 0 <= j < old(self).spec_edges().len()
                        && (#[trigger] old(self).spec_edges()[j]).spec_same_pair(hist0[k]);
                    assert(old(self).spec_edges()[j] == ents0[j].0);
                    if ins && j == iv {
                        assert(cs[iv] == e);
                        assert(cs[iv].spec_same_pair(ents0[j].0));
                        assert(cs[iv].spec_same_pair(hist1[k]));
                    } else {
                        assert(cur[j] == ents0[j]);
                        assert(cs[j].spec_same_pair(hist1[k]));
                    }
                } else {
                    assert(hist1[k] == e);
                    assert(cs[iv].spec_same_pair(e));
                }
            }
            if ins {
                assert(cur.contains((e, now))) by {
                    assert(cur[iv] == (e, now));
                }
            }
        }
        let g2 = EdgeGraph { me, entries: ents, last_reachable, hist: Ghost(hist1) };
        *self = g2;
        ins
    }

    /// Feed a batch of verified edges into the graph, in order.  Per
    /// pair the edge preferred under the nonce-then-tie-break order is
    /// retained, so the outcome does not depend on arrival order; the
    /// result is the batch subset that was freshly retained (it may
    /// since have been beaten by a later edge of the same batch).
    pub fn add_verified(&mut self, now: Timestamp, batch: &Vec<Edge>) -> (result: Vec<Edge>)
        requires
            forall|b: int| 0 <= b < batch@.len() ==> (#[trigger] batch@[b]).spec_valid(),
        ensures
            final(self).spec_me() == old(self).spec_me(),
            final(self).spec_last_reachable() == old(self).spec_last_reachable(),
            final(self).spec_hist() == old(self).spec_hist() + batch@,
            // every prior retained pair is still dominated
            forall|j: int| 0 <= j < old(self).spec_edges().len()
                ==> spec_dominates(final(self).spec_edges(),
                    #[trigger] old(self).spec_edges()[j]),
            // every batch edge is dominated
            forall|b: int| 0 <= b < batch@.len()
                ==> spec_dominates(final(self).spec_edges(), #[trigger] batch@[b]),
            // nothing is invented: a retained entry is an old one or a
            // batch edge stamped now
            forall|i: int| 0 <= i < final(self).spec_entries().len()
                ==> old(self).spec_entries().contains(#[trigger] final(self).spec_entries()[i])
                    || (batch@.contains(final(self).spec_entries()[i].0)
                        && final(self).spec_entries()[i].1 == now),
            // the result comes from the batch and was not retained
            // before
            forall|r: int| 0 <= r < result@.len()
                ==> batch@.contains(#[trigger] result@[r])
                    && !old(self).spec_edges().contains(result@[r]),
            // every freshly retained edge is reported
            forall|i: int| 0 <= i < final(self).spec_edges().len()
                && !old(self).spec_edges().contains(#[trigger] final(self).spec_edges()[i])
                ==> result@.contains(final(self).spec_edges()[i]),
            // retention, stated over everything received since the
            // last prune: retained edges are well signed, were
            // received, and bound the received nonces of their pair;
            // every received pair is retained in some form
            forall|i: int| 0 <= i < final(self).spec_edges().len()
                ==> (#[trigger] final(self).spec_edges()[i]).spec_valid(),
            forall|i: int| 0 <= i < final(self).spec_edges().len()
                ==> final(self).spec_hist().contains(#[trigger] final(self).spec_edges()[i]),
            forall|i: int, k: int|
                0 <= i < final(self).spec_edges().len()
                && 0 <= k < final(self).spec_hist().len()
                && (#[trigger] final(self).spec_hist()[k]).spec_same_pair(
                    #[trigger] final(self).spec_edges()[i])
                ==> final(self).spec_hist()[k].nonce <= final(self).spec_edges()[i].nonce,
            forall|k: int| 0 <= k < final(self).spec_hist().len()
                ==> spec_has_pair(final(self).spec_edges(), #[trigger] final(self).spec_hist()[k]),
            // moreover the retained edge of a pair is preferred over
            // every received edge of the pair, which pins it uniquely
            forall|i: int, k: int|
                0 <= i < final(self).spec_edges().len()
                && 0 <= k < final(self).spec_hist().len()
                && (#[trigger] final(self).spec_hist()[k]).spec_same_pair(
                    #[trigger] final(self).spec_edges()[i])
                ==> spec_wins(final(self).spec_edges()[i], final(self).spec_hist()[k]),
    {
        proof {
            use_type_invariant(&*self);
        }
        let ghost g0 = *self;
        let mut result: Vec<Edge> = Vec::new();
        let n = batch.len();
        let mut k: usize = 0;
        while k < n
            invariant
                k <= n,
                n == batch@.len(),
                forall|b: int| 0 <= b < n ==> (#[trigger] batch@[b]).spec_valid(),
                self.spec_me() == g0.spec_me(),
                self.spec_last_reachable() == g0.spec_last_reachable(),
                self.spec_hist() == g0.spec_hist() + batch@.subrange(0, k as int),
                forall|j: int| 0 <= j < g0.spec_edges().len()
                    ==> spec_settled(self.spec_edges(), #[trigger] g0.spec_edges()[j]),
                forall|b: int| 0 <= b < k
                    ==> spec_settled(self.spec_edges(), #[trigger] batch@[b]),
                forall|i: int| 0 <= i < self.spec_entries().len()
                    ==> g0.spec_entries().contains(#[trigger] self.spec_entries()[i])
                        || (batch@.contains(self.spec_entries()[i].0)
                            && self.spec_entries()[i].1 == now),
                forall|r: int| 0 <= r < result@.len()
                    ==> batch@.contains(#[trigger] result@[r])
                        && !g0.spec_edges().contains(result@[r]),
                forall|i: int| 0 <= i < self.spec_edges().len()
                    && !g0.spec_edges().contains(#[trigger] self.spec_edges()[i])
                    ==> result@.contains(self.spec_edges()[i]),
            decreases n - k,
        {
            let e = batch[k];
            let ghost pre = *self;
            let ghost result0 = result@;
            let ins = self.insert_one(now, e);
            if ins {
                result.push(e);
            }
            proof {
                let kv = k as int;
                assert(batch@.subrange(0, kv + 1).drop_last() =~= batch@.subrange(0, kv));
                assert(batch@.subrange(0, kv + 1).last() == batch@[kv]);
                assert(self.spec_hist() =~= g0.spec_hist() + batch@.subrange(0, kv + 1));
                assert(batch@.contains(batch@[kv]));
                // preference is preserved through the step
                assert forall|j: int| 0 <= j < g0.spec_edges().len()
                    implies spec_settled(self.spec_edges(),
                        #[trigger] g0.spec_edges()[j]) by {
                    let d = choose|d: int| 0 <= d < pre.spec_edges().len()
                        && (#[trigger] pre.spec_edges()[d]).spec_same_pair(g0.spec_edges()[j])
                        && spec_wins(pre.spec_edges()[d], g0.spec_edges()[j]);
                    let d2 = choose|d2: int| 0 <= d2 < self.spec_edges().len()
                        && (#[trigger] self.spec_edges()[d2]).spec_same_pair(pre.spec_edges()[d])
                        && spec_wins(self.spec_edges()[d2], pre.spec_edges()[d]);
                    lemma_wins_trans(self.spec_edges()[d2], pre.spec_edges()[d],
                        g0.spec_edges()[j]);
                }
                assert forall|b: int| 0 <= b < kv + 1
                    implies spec_settled(self.spec_edges(), #[trigger] batch@[b]) by {
                    if b < kv {
                        let d = choose|d: int| 0 <= d < pre.spec_edges().len()
                            && (#[trigger] pre.spec_edges()[d]).spec_same_pair(batch@[b])
                            && spec_wins(pre.spec_edges()[d], batch@[b]);
                        let d2 = choose|d2: int| 0 <= d2 < self.spec_edges().len()
                            && (#[trigger] self.spec_edges()[d2]).spec_same_pair(pre.spec_edges()[d])
                            && spec_wins(self.spec_edges()[d2], pre.spec_edges()[d]);
                        lemma_wins_trans(self.spec_edges()[d2], pre.spec_edges()[d],
                            batch@[b]);
                    }
                }
                // provenance of retained entries
                assert forall|i: int| 0 <= i < self.spec_entries().len()
                    implies g0.spec_entries().contains(#[trigger] self.spec_entries()[i])
                        || (batch@.contains(self.spec_entries()[i].0)
                            && self.spec_entries()[i].1 == now) by {
                    if pre.spec_entries().contains(self.spec_entries()[i]) {
                        let j = choose|j: int| 0 <= j < pre.spec_entries().len()
                            && pre.spec_entries()[j] == self.spec_entries()[i];
                    } else {
                        assert(self.spec_entries()[i] == (e, now));
                    }
                }
                // freshly retained edges are all reported
                assert forall|i: int| 0 <= i < self.spec_edges().len()
                    && !g0.spec_edges().contains(#[trigger] self.spec_edges()[i])
                    implies result@.contains(self.spec_edges()[i]) by {
                    let entry = self.spec_entries()[i];
                    assert(self.spec_edges()[i] == entry.0);
                    if pre.spec_entries().contains(entry) {
                        let j = choose|j: int| 0 <= j < pre.spec_entries().len()
                            && pre.spec_entries()[j] == entry;
                        assert(pre.spec_edges()[j] == entry.0);
                        assert(!g0.spec_edges().contains(pre.spec_edges()[j]));
                        assert(result0.contains(entry.0));
                        let r = choose|r: int| 0 <= r < result0.len() && result0[r] == entry.0;
                        assert(result@[r] == entry.0);
                    } else {
                        assert(entry == (e, now));
                        assert(ins);
                        assert(result@[result@.len() - 1] == e);
                    }
                }
                // insertion implies the edge was not retained before
                if ins {
                    assert(!g0.spec_edges().contains(e)) by {
                        if g0.spec_edges().contains(e) {
                            let j = choose|j: int| 0 <= j < g0.spec_edges().len()
                                && g0.spec_edges()[j] == e;
                            assert(spec_settled(pre.spec_edges(), g0.spec_edges()[j]));
                            let d = choose|d: int| 0 <= d < pre.spec_edges().len()
                                && (#[trigger] pre.spec_edges()[d]).spec_same_pair(e)
                                && spec_wins(pre.spec_edges()[d], e);
                            assert(spec_settled(pre.spec_edges(), e));
                        }
                    }
                }
            }
            k += 1;
        }
        proof {
            assert(batch@.subrange(0, n as int) =~= batch@);
            use_type_invariant(&*self);
            assert forall|i: int| 0 <= i < self.spec_edges().len()
                implies (#[trigger] self.spec_edges()[i]).spec_valid()
                    && self.spec_hist().contains(self.spec_edges()[i]) by {
                assert(self.spec_edges()[i] == self.spec_entries()[i].0);
            }
            assert forall|i: int, k2: int|
                0 <= i < self.spec_edges().len() && 0 <= k2 < self.spec_hist().len()
                && (#[trigger] self.spec_hist()[k2]).spec_same_pair(
                    #[trigger] self.spec_edges()[i])
                implies spec_wins(self.spec_edges()[i], self.spec_hist()[k2])
                    && self.spec_hist()[k2].nonce <= self.spec_edges()[i].nonce by {
                assert(self.spec_edges()[i] == self.spec_entries()[i].0);
                assert(spec_wins(self.spec_entries()[i].0, self.spec_hist()[k2]));
            }
            // preference gives the nonce bound the callers use
            assert forall|j: int| 0 <= j < g0.spec_edges().len()
                implies spec_dominates(self.spec_edges(),
                    #[trigger] g0.spec_edges()[j]) by {
                let d = choose|d: int| 0 <= d < self.spec_edges().len()
                    && (#[trigger] self.spec_edges()[d]).spec_same_pair(g0.spec_edges()[j])
                    && spec_wins(self.spec_edges()[d], g0.spec_edges()[j]);
                assert(self.spec_edges()[d].nonce >= g0.spec_edges()[j].nonce);
            }
            assert forall|b: int| 0 <= b < batch@.len()
                implies spec_dominates(self.spec_edges(), #[trigger] batch@[b]) by {
                let d = choose|d: int| 0 <= d < self.spec_edges().len()
                    && (#[trigger] self.spec_edges()[d]).spec_same_pair(batch@[b])
                    && spec_wins(self.spec_edges()[d], batch@[b]);
                assert(self.spec_edges()[d].nonce >= batch@[b].nonce);
            }
        }
        result
    }

    /// Derive the next-hop table from the Active subgraph: the first
    /// hop on a path from the local node to each peer found reachable.
    /// Direct neighbours route to themselves; every entry routes
    /// through an Active edge at the local node.
    pub fn compute_next_hops(&self) -> (r: IdMap<PeerId>)
        ensures
            !r@.contains_key(self.spec_me()),
            forall|p: PeerId| #[trigger] r@.contains_key(p)
                ==> p != self.spec_me() && r@[p] != self.spec_me()
                    && self.spec_direct_active(self.spec_me(), r@[p]),
            forall|p: PeerId| p != self.spec_me()
                && #[trigger] self.spec_direct_active(self.spec_me(), p)
                ==> r@.contains_key(p) && r@[p] == p,
    {
        proof {
            use_type_invariant(self);
        }
        let me = self.me;
        let mut hops: IdMap<PeerId> = IdMap::new();
        let n = self.entries.len();
        let mut i: usize = 0;
        while i < n
            invariant
                i <= n,
                n == self.spec_entries().len(),
                me == self.spec_me(),
                !hops@.contains_key(me),
                forall|p: PeerId| #[trigger] hops@.contains_key(p)
                    ==> p != me && hops@[p] == p && self.spec_direct_active(me, p),
                forall|j: int| 0 <= j < i ==> {
                    let e = (#[trigger] self.spec_entries()[j]).0;
                    (e.spec_state() is Active && e.spec_touches(me))
                        ==> (e.spec_other(me) == me
                            || (hops@.contains_key(e.spec_other(me))
                                && hops@[e.spec_other(me)] == e.spec_other(me)))
                },
            decreases n - i,
        {
            let e = self.entries[i].0;
            proof {
                assert(self.spec_edges()[i as int] == e);
            }
            if e.edge_type() == crate::edge::EdgeState::Active {
                if e.peer0 == me && e.peer1 != me {
                    if !hops.contains_key(e.peer1) {
                        hops.insert(e.peer1, e.peer1);
                    }
                } else if e.peer1 == me && e.peer0 != me {
                    if !hops.contains_key(e.peer0) {
                        hops.insert(e.peer0, e.peer0);
                    }
                }
            }
            i += 1;
        }
        proof {
            assert forall|p: PeerId| p != me && #[trigger] self.spec_direct_active(me, p)
                implies hops@.contains_key(p) && hops@[p] == p by {
                let j = choose|j: int| 0 <= j < self.spec_edges().len() && {
                    let e = #[trigger] self.spec_edges()[j];
                    e.spec_state() is Active && e.spec_touches(me) && e.spec_touches(p)
                        && me != p
                };
                let e = self.spec_edges()[j];
                assert(e == self.spec_entries()[j].0);
                assert(e.spec_other(me) == p);
            }
        }
        let ghost seeded = hops@;
        let mut round: usize = 0;
        while round < n
            invariant
                n == self.spec_entries().len(),
                me == self.spec_me(),
                !hops@.contains_key(me),
                forall|p: PeerId| #[trigger] hops@.contains_key(p)
                    ==> p != me && hops@[p] != me
                        && self.spec_direct_active(me, hops@[p]),
                forall|p: PeerId| #[trigger] seeded.contains_key(p)
                    ==> hops@.contains_key(p) && hops@[p] == seeded[p],
            decreases n - round,
        {
            let mut j: usize = 0;
            while j < n
                invariant
                    j <= n,
                    n == self.spec_entries().len(),
                    me == self.spec_me(),
                    !hops@.contains_key(me),
                    forall|p: PeerId| #[trigger] hops@.contains_key(p)
                        ==> p != me && hops@[p] != me
                            && self.spec_direct_active(me, hops@[p]),
                    forall|p: PeerId| #[trigger] seeded.contains_key(p)
                        ==> hops@.contains_key(p) && hops@[p] == seeded[p],
                decreases n - j,
            {
                let e = self.entries[j].0;
                if e.edge_type() == crate::edge::EdgeState::Active
                    && e.peer0 != me && e.peer1 != me {
                    let h0 = match hops.get(e.peer0) {
                        Some(h) => Some(*h),
                        None => None,
                    };
                    let h1 = match hops.get(e.peer1) {
                        Some(h) => Some(*h),
                        None => None,
                    };
                    match (h0, h1) {
                        (Some(h), None) => {
                            hops.insert(e.peer1, h);
                        }
                        (None, Some(h)) => {
                            hops.insert(e.peer0, h);
                        }
                        _ => {}
                    }
                }
                j += 1;
            }
            round += 1;
        }
        proof {
            assert forall|p: PeerId| p != me && #[trigger] self.spec_direct_active(me, p)
                implies hops@.contains_key(p) && hops@[p] == p by {
                assert(seeded.contains_key(p) && seeded[p] == p);
            }
        }
        hops
    }
}


impl EdgeGraph {
    /// Prune the graph and recompute forwarding.  The next-hop table
    /// is derived first; peers in it are stamped reachable now.  Then
    /// an entry is dropped exactly when `spec_prune_cond` holds of it:
    /// a tombstone retained before the cut-off, or an Active edge with
    /// an unreachable endpoint that has been out of reach since the
    /// given instant.  The receive history restarts from the
    /// survivors.
    #[verifier::loop_isolation(false)]
    #[verifier::rlimit(100)]
    pub fn prune(
        &mut self,
        now: Timestamp,
        prune_unreachable_since: Option<Timestamp>,
        prune_edges_older_than: Option<Timestamp>,
    ) -> (r: (Vec<Edge>, IdMap<PeerId>))
        ensures
            final(self).spec_me() == old(self).spec_me(),
            // next hops, derived from the graph as it was
            !r.1@.contains_key(old(self).spec_me()),
            forall|p: PeerId| #[trigger] r.1@.contains_key(p)
                ==> p != old(self).spec_me() && r.1@[p] != old(self).spec_me()
                    && old(self).spec_direct_active(old(self).spec_me(), r.1@[p]),
            forall|p: PeerId| p != old(self).spec_me()
                && #[trigger] old(self).spec_direct_active(old(self).spec_me(), p)
                ==> r.1@.contains_key(p) && r.1@[p] == p,
            // reachability stamps
            forall|p: PeerId| #[trigger] r.1@.contains_key(p)
                ==> final(self).spec_last_reachable().contains_key(p)
                    && final(self).spec_last_reachable()[p] == now,
            forall|p: PeerId| !#[trigger] r.1@.contains_key(p)
                ==> final(self).spec_last_reachable().contains_key(p)
                        == old(self).spec_last_reachable().contains_key(p)
                    && (old(self).spec_last_reachable().contains_key(p)
                        ==> final(self).spec_last_reachable()[p]
                            == old(self).spec_last_reachable()[p]),
            // every survivor is an old entry that was not condemned
            forall|a: int| 0 <= a < final(self).spec_entries().len()
                ==> old(self).spec_entries().contains(#[trigger] final(self).spec_entries()[a])
                    && !spec_prune_cond(
                        final(self).spec_entries()[a],
                        old(self).spec_me(),
                        prune_unreachable_since,
                        prune_edges_older_than,
                        r.1@.dom().insert(old(self).spec_me()),
                        final(self).spec_last_reachable(),
                    ),
            // every old entry either survives or is reported pruned
            forall|b: int| 0 <= b < old(self).spec_entries().len()
                ==> if spec_prune_cond(
                        #[trigger] old(self).spec_entries()[b],
                        old(self).spec_me(),
                        prune_unreachable_since,
                        prune_edges_older_than,
                        r.1@.dom().insert(old(self).spec_me()),
                        final(self).spec_last_reachable(),
                    ) {
                    r.0@.contains(old(self).spec_entries()[b].0)
                } else {
                    final(self).spec_entries().contains(old(self).spec_entries()[b])
                },
            // everything reported pruned is a condemned old entry
            spec_all_condemned(
                r.0@,
                old(self).spec_entries(),
                old(self).spec_me(),
                prune_unreachable_since,
                prune_edges_older_than,
                r.1@.dom().insert(old(self).spec_me()),
                final(self).spec_last_reachable(),
            ),
            // the history restarts from the survivors
            final(self).spec_hist() == final(self).spec_edges(),
    {
        proof {
            use_type_invariant(&*self);
        }
        let nh = self.compute_next_hops();
        let me_copy = self.me;
        let mut tmp = EdgeGraph::new(me_copy);
        core::mem::swap(&mut tmp, self);
        let EdgeGraph { me, entries: ents, last_reachable: mut lr, hist: _ } = tmp;
        let ghost ents0 = ents@;
        refresh_reachable(&mut lr, &nh, now);
        let ghost reach_set = nh@.dom().insert(me);
        let ghost cond = |en: (Edge, Timestamp)| spec_prune_cond(
            en, me, prune_unreachable_since, prune_edges_older_than, reach_set, lr@);
        let n = ents.len();
        let mut kept: Vec<(Edge, Timestamp)> = Vec::new();
        let mut pruned: Vec<Edge> = Vec::new();
        let ghost mut srcs: Seq<int> = Seq::empty();
        let ghost mut psrcs: Seq<int> = Seq::empty();
        let mut i: usize = 0;
        while i < n
            invariant
                i <= n,
                srcs.len() == kept@.len(),
                forall|a: int| 0 <= a < srcs.len()
                    ==> 0 <= #[trigger] srcs[a] < i && ents0[srcs[a]] == kept@[a]
                        && !cond(ents0[srcs[a]]),
                forall|a: int, b: int| 0 <= a < b < srcs.len() ==> srcs[a] < srcs[b],
                psrcs.len() == pruned@.len(),
                forall|c: int| 0 <= c < psrcs.len()
                    ==> 0 <= #[trigger] psrcs[c] < i && ents0[psrcs[c]].0 == pruned@[c]
                        && cond(ents0[psrcs[c]]),
                forall|b: int| 0 <= b < i
                    ==> if cond(#[trigger] ents0[b]) {
                        pruned@.contains(ents0[b].0)
                    } else {
                        kept@.contains(ents0[b])
                    },
            decreases n - i,
        {
            let en = ents[i];
            let e = en.0;
            let tomb = match prune_edges_older_than {
                Some(t0) => {
                    matches!(e.edge_type(), crate::edge::EdgeState::Removed) && en.1 < t0
                }
                None => false,
            };
            let unreach = match prune_unreachable_since {
                Some(s) => {
                    if matches!(e.edge_type(), crate::edge::EdgeState::Active) {
                        let u0 = e.peer0 != me && !nh.contains_key(e.peer0)
                            && (match lr.get(e.peer0) { Some(t) => *t, None => 0 }) <= s;
                        let u1 = e.peer1 != me && !nh.contains_key(e.peer1)
                            && (match lr.get(e.peer1) { Some(t) => *t, None => 0 }) <= s;
                        u0 || u1
                    } else {
                        false
                    }
                }
                None => false,
            };
            let c = tomb || unreach;
            proof {
                assert(c == cond(en)) by {
                    match prune_unreachable_since {
                        Some(s) => {
                            if e.spec_state() is Active {
                                if unreach {
                                    let w = if e.peer0 != me && !nh@.contains_key(e.peer0)
                                        && spec_reach_time(lr@, e.peer0) <= s {
                                        e.peer0
                                    } else {
                                        e.peer1
                                    };
                                    assert(e.spec_touches(w) && w != me
                                        && !reach_set.contains(w)
                                        && spec_reach_time(lr@, w) <= s);
                                } else if cond(en) && !tomb {
                                    let p = choose|p: PeerId| #[trigger] e.spec_touches(p)
                                        && p != me && !reach_set.contains(p)
                                        && spec_reach_time(lr@, p) <= s;
                                    assert(p == e.peer0 || p == e.peer1);
                                }
                            }
                        }
                        None => {}
                    }
                }
            }
            let ghost kept0 = kept@;
            let ghost pruned0 = pruned@;
            if c {
                pruned.push(e);
                proof {
                    psrcs = psrcs.push(i as int);
                    assert(pruned@.last() == ents0[i as int].0);
                }
            } else {
                kept.push(en);
                proof {
                    srcs = srcs.push(i as int);
                    assert(kept@.last() == ents0[i as int]);
                }
            }
            proof {
                assert forall|b: int| 0 <= b < i + 1
                    implies (if cond(#[trigger] ents0[b]) {
                        pruned@.contains(ents0[b].0)
                    } else {
                        kept@.contains(ents0[b])
                    }) by {
                    if b < i {
                        if cond(ents0[b]) {
                            assert(pruned0.contains(ents0[b].0));
                            let c0 = choose|c0: int| 0 <= c0 < pruned0.len()
                                && pruned0[c0] == ents0[b].0;
                            assert(pruned@[c0] == ents0[b].0);
                        } else {
                            assert(kept0.contains(ents0[b]));
                            let a0 = choose|a0: int| 0 <= a0 < kept0.len()
                                && kept0[a0] == ents0[b];
                            assert(kept@[a0] == ents0[b]);
                        }
                    } else {
                        if c {
                            assert(pruned@[pruned@.len() - 1] == ents0[b].0);
                        } else {
                            assert(kept@[kept@.len() - 1] == ents0[b]);
                        }
                    }
                }
            }
            i += 1;
        }
        let ghost kept_edges = kept@.map_values(|en: (Edge, Timestamp)| en.0);
        proof {
            // survivors are well formed, pairwise distinct, and seed
            // the new history
            assert forall|a: int| 0 <= a < kept@.len()
                implies (#[trigger] kept@[a]).0.spec_valid() by {
                let b = srcs[a];
                assert(old(self).spec_entries()[b] == ents0[b]);
            }
            assert forall|a: int, b2: int| 0 <= a < b2 < kept@.len()
                implies !(#[trigger] kept@[a]).0.spec_same_pair(
                    (#[trigger] kept@[b2]).0) by {
                let ja = srcs[a];
                let jb = srcs[b2];
                assert(old(self).spec_entries()[ja] == ents0[ja]);
                assert(old(self).spec_entries()[jb] == ents0[jb]);
                assert(ja < jb);
                assert(!ents0[ja].0.spec_same_pair(ents0[jb].0));
            }
            assert forall|a: int| 0 <= a < kept@.len()
                implies kept_edges.contains((#[trigger] kept@[a]).0) by {
                assert(kept_edges[a] == kept@[a].0);
            }
            assert forall|k: int, a: int|
                0 <= a < kept@.len() && 0 <= k < kept_edges.len()
                && (#[trigger] kept_edges[k]).spec_same_pair((#[trigger] kept@[a]).0)
                implies kept_edges[k].nonce <= kept@[a].0.nonce by {
                assert(kept_edges[k] == kept@[k].0);
                if k != a {
                    if k < a {
                        assert(!kept@[k].0.spec_same_pair(kept@[a].0));
                    } else {
                        assert(!kept@[a].0.spec_same_pair(kept@[k].0));
                    }
                }
            }
            assert forall|k: int| 0 <= k < kept_edges.len()
                implies spec_has_pair(kept_edges, #[trigger] kept_edges[k]) by {
                assert(kept_edges[k].spec_same_pair(kept_edges[k]));
            }
        }
        let g2 = EdgeGraph { me, entries: kept, last_reachable: lr, hist: Ghost(kept_edges) };
        *self = g2;
        proof {
            assert(me == old(self).spec_me());
            assert forall|en: (Edge, Timestamp)| #[trigger] cond(en) == spec_prune_cond(
                en,
                old(self).spec_me(),
                prune_unreachable_since,
                prune_edges_older_than,
                nh@.dom().insert(old(self).spec_me()),
                final(self).spec_last_reachable(),
            ) by {}
            assert forall|a: int| 0 <= a < final(self).spec_entries().len()
                implies old(self).spec_entries().contains(
                    #[trigger] final(self).spec_entries()[a])
                    && !spec_prune_cond(
                        final(self).spec_entries()[a],
                        old(self).spec_me(),
                        prune_unreachable_since,
                        prune_edges_older_than,
                        nh@.dom().insert(old(self).spec_me()),
                        final(self).spec_last_reachable(),
                    ) by {
                let b = srcs[a];
                assert(old(self).spec_entries()[b] == final(self).spec_entries()[a]);
                assert(!cond(ents0[b]));
            }
            assert forall|b: int| 0 <= b < old(self).spec_entries().len()
                implies (if spec_prune_cond(
                        #[trigger] old(self).spec_entries()[b],
                        old(self).spec_me(),
                        prune_unreachable_since,
                        prune_edges_older_than,
                        nh@.dom().insert(old(self).spec_me()),
                        final(self).spec_last_reachable(),
                    ) {
                    pruned@.contains(old(self).spec_entries()[b].0)
                } else {
                    final(self).spec_entries().contains(old(self).spec_entries()[b])
                }) by {
                assert(old(self).spec_entries()[b] == ents0[b]);
                assert(cond(ents0[b]) == spec_prune_cond(
                    ents0[b],
                    old(self).spec_me(),
                    prune_unreachable_since,
                    prune_edges_older_than,
                    nh@.dom().insert(old(self).spec_me()),
                    final(self).spec_last_reachable(),
                ));
            }
            assert forall|c: int| 0 <= c < psrcs.len()
                implies 0 <= #[trigger] psrcs[c] < old(self).spec_entries().len()
                    && old(self).spec_entries()[psrcs[c]].0 == pruned@[c]
                    && spec_prune_cond(
                        old(self).spec_entries()[psrcs[c]],
                        old(self).spec_me(),
                        prune_unreachable_since,
                        prune_edges_older_than,
                        nh@.dom().insert(old(self).spec_me()),
                        final(self).spec_last_reachable(),
                    ) by {
                let b = psrcs[c];
                assert(old(self).spec_entries()[b] == ents0[b]);
                assert(cond(ents0[b]));
            }
            lemma_condemned_from_witnesses(
                pruned@,
                old(self).spec_entries(),
                old(self).spec_me(),
                prune_unreachable_since,
                prune_edges_older_than,
                nh@.dom().insert(old(self).spec_me()),
                final(self).spec_last_reachable(),
                psrcs,
            );
            assert(final(self).spec_hist() =~= final(self).spec_edges());
        }
        (pruned, nh)
    }
}


/// Update the reachability times: every peer in the next-hop table
/// was seen reachable now; the others keep their old record.
fn refresh_reachable(lr: &mut IdMap<Timestamp>, nh: &IdMap<PeerId>, now: Timestamp)
    ensures
        forall|p: PeerId| #[trigger] nh@.contains_key(p)
            ==> final(lr)@.contains_key(p) && final(lr)@[p] == now,
        forall|p: PeerId| !#[trigger] nh@.contains_key(p)
            ==> final(lr)@.contains_key(p) == old(lr)@.contains_key(p)
                && (old(lr)@.contains_key(p) ==> final(lr)@[p] == old(lr)@[p]),
{
    let ids = nh.ids();
    let ghost lr0 = lr@;
    let n = ids.len();
    let mut i: usize = 0;
    while i < n
        invariant
            i <= n,
            n == ids@.len(),
            forall|j: int| 0 <= j < n ==> nh@.contains_key(#[trigger] ids@[j]),
            forall|p: PeerId| #[trigger] nh@.contains_key(p) ==> ids@.contains(p),
            forall|a: int, b: int| 0 <= a < b < n ==> ids@[a] != ids@[b],
            forall|j: int| 0 <= j < i
                ==> lr@.contains_key(#[trigger] ids@[j]) && lr@[ids@[j]] == now,
            forall|p: PeerId| !#[trigger] nh@.contains_key(p)
                ==> lr@.contains_key(p) == lr0.contains_key(p)
                    && (lr0.contains_key(p) ==> lr@[p] == lr0[p]),
            forall|j: int| i <= j < n
                ==> lr@.contains_key(#[trigger] ids@[j]) == lr0.contains_key(ids@[j])
                    && (lr0.contains_key(ids@[j]) ==> lr@[ids@[j]] == lr0[ids@[j]]),
        decreases n - i,
    {
        lr.insert(ids[i], now);
        proof {
            assert forall|j: int| i + 1 <= j < n
                implies lr@.contains_key(#[trigger] ids@[j]) == lr0.contains_key(ids@[j])
                    && (lr0.contains_key(ids@[j]) ==> lr@[ids@[j]] == lr0[ids@[j]]) by {
                assert(ids@[j] != ids@[i as int]);
            }
        }
        i += 1;
    }
    proof {
        assert forall|p: PeerId| #[trigger] nh@.contains_key(p)
            implies lr@.contains_key(p) && lr@[p] == now by {
            let j = choose|j: int| 0 <= j < ids@.len() && ids@[j] == p;
        }
    }
}

} // verus!
