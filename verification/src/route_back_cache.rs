//! Bounded TTL cache from message hashes to previous hops.
//!
//! A routed message that expects a reply leaves a crumb at every hop:
//! the hash of the message mapped to the peer it arrived from.  The
//! cache is bounded: when full, the least-recently-inserted entry is
//! evicted, and every entry expires a fixed TTL after insertion.
//!
//! The view is the sequence of live entries in insertion order, oldest
//! first; `as_map` derives the hash-to-entry map the routing contracts
//! speak of.

use vstd::prelude::*;
use crate::idmap::{map_of, unique_keys, lemma_map_of_contains, lemma_map_of_index,
    lemma_map_of_push, lemma_map_of_remove, lemma_map_of_len};
use crate::types::{CryptoHash, PeerId, Timestamp};

verus! {

/// Route-back cache: hash of an earlier message to the peer it came
/// from, with its insertion time.
pub struct RouteBackCache {
    capacity: usize,
    ttl: u64,
    entries: Vec<(CryptoHash, (PeerId, Timestamp))>,
}

impl View for RouteBackCache {
    type V = Seq<(CryptoHash, (PeerId, Timestamp))>;

    closed spec fn view(&self) -> Seq<(CryptoHash, (PeerId, Timestamp))> {
        self.entries@
    }
}

impl RouteBackCache {
    #[verifier::type_invariant]
    spec fn inv(self) -> bool {
        &&& unique_keys(self.entries@)
        &&& self.entries@.len() <= self.capacity
        &&& self.capacity >= 1
    }

    /// The map the cache denotes: hash to `(previous hop, inserted at)`.
    pub open spec fn as_map(self) -> Map<CryptoHash, (PeerId, Timestamp)> {
        map_of(self@)
    }

    /// An entry inserted at `at` is still live at `now`.
    pub open spec fn spec_fresh(self, at: Timestamp, now: Timestamp) -> bool {
        at + self.spec_ttl() > now
    }

    /// Configured TTL in milliseconds.
    pub closed spec fn spec_ttl(self) -> u64 {
        self.ttl
    }

    /// Configured capacity bound.
    pub closed spec fn spec_capacity(self) -> usize {
        self.capacity
    }

    /// An empty cache with the given bound and TTL.
    pub fn new(capacity: usize, ttl: u64) -> (r: Self)
        requires
            capacity >= 1,
        ensures
            r@ == Seq::<(CryptoHash, (PeerId, Timestamp))>::empty(),
            r.spec_capacity() == capacity,
            r.spec_ttl() == ttl,
    {
        RouteBackCache { capacity, ttl, entries: Vec::new() }
    }

    /// Number of entries held, live or expired.
    pub fn len(&self) -> (r: usize)
        ensures
            r == self@.len(),
            r <= self.spec_capacity(),
    {
        proof {
            use_type_invariant(self);
        }
        self.entries.len()
    }

    fn find_index(&self, hash: CryptoHash) -> (r: Option<usize>)
        ensures
            match r {
                Some(i) => i < self@.len() && self@[i as int].0 == hash,
                None => forall|j: int| 0 <= j < self@.len() ==> (#[trigger] self@[j]).0 != hash,
            },
    {
        let n = self.entries.len();
        let mut i: usize = 0;
        while i < n
            invariant
                i <= n,
                n == self@.len(),
                forall|j: int| 0 <= j < i ==> (#[trigger] self@[j]).0 != hash,
            decreases n - i,
        {
            if self.entries[i].0 == hash {
                return Some(i);
            }
            i += 1;
        }
        None
    }

    /// Record that a reply addressed by `hash` should go to `prev_hop`.
    /// A binding for the same hash is renewed in place at the back; a
    /// full cache first evicts its oldest entry.
    pub fn insert(&mut self, now: Timestamp, hash: CryptoHash, prev_hop: PeerId)
        ensures
            final(self).spec_capacity() == old(self).spec_capacity(),
            final(self).spec_ttl() == old(self).spec_ttl(),
            final(self)@.len() <= old(self).spec_capacity(),
            final(self)@.last() == (hash, (prev_hop, now)),
            final(self).as_map().contains_key(hash),
            final(self).as_map()[hash] == (prev_hop, now),
            // the surviving entries keep their bindings
            forall|k: CryptoHash| k != hash && #[trigger] final(self).as_map().contains_key(k)
                ==> old(self).as_map().contains_key(k)
                    && final(self).as_map()[k] == old(self).as_map()[k],
            // an entry disappears only to make room: the cache was full
            // and it was the oldest
            forall|k: CryptoHash| #[trigger] old(self).as_map().contains_key(k) && k != hash
                && !final(self).as_map().contains_key(k)
                ==> old(self)@.len() == old(self).spec_capacity() && old(self)@[0].0 == k,
    {
        proof {
            use_type_invariant(&*self);
        }
        let mut es: Vec<(CryptoHash, (PeerId, Timestamp))> = Vec::new();
        core::mem::swap(&mut es, &mut self.entries);
        let ghost s0 = es@;
        match self.find_index_of(&es, hash) {
            Some(i) => {
                proof {
                    lemma_map_of_remove(es@, i as int);
                }
                es.remove(i);
            }
            None => {
                proof {
                    lemma_map_of_contains(es@, hash);
                }
                if es.len() == self.capacity {
                    proof {
                        lemma_map_of_remove(es@, 0);
                    }
                    es.remove(0);
                }
            }
        }
        let ghost s1 = es@;
        proof {
            lemma_map_of_push(es@, hash, (prev_hop, now));
            assert forall|a: int, b: int| 0 <= a < b < s1.push((hash, (prev_hop, now))).len() implies
                (#[trigger] s1.push((hash, (prev_hop, now)))[a]).0
                    != (#[trigger] s1.push((hash, (prev_hop, now)))[b]).0 by {
                if b < s1.len() {
                    assert(s1.push((hash, (prev_hop, now)))[a] == s1[a]);
                    assert(s1.push((hash, (prev_hop, now)))[b] == s1[b]);
                } else {
                    assert(s1.push((hash, (prev_hop, now)))[a] == s1[a]);
                    lemma_map_of_contains(s1, hash);
                    assert(s1.push((hash, (prev_hop, now)))[b] == (hash, (prev_hop, now)));
                }
            }
        }
        es.push((hash, (prev_hop, now)));
        core::mem::swap(&mut es, &mut self.entries);
        proof {
            assert(map_of(self.entries@) == map_of(s1).insert(hash, (prev_hop, now)));
            assert forall|k: CryptoHash| #[trigger] map_of(s0).contains_key(k) && k != hash
                && !map_of(self.entries@).contains_key(k)
                implies s0.len() == old(self).spec_capacity() && s0[0].0 == k by {
                assert(!map_of(s1).contains_key(k));
            }
        }
    }

    fn find_index_of(&self, es: &Vec<(CryptoHash, (PeerId, Timestamp))>, hash: CryptoHash) -> (r: Option<usize>)
        ensures
            match r {
                Some(i) => i < es@.len() && es@[i as int].0 == hash,
                None => forall|j: int| 0 <= j < es@.len() ==> (#[trigger] es@[j]).0 != hash,
            },
    {
        let n = es.len();
        let mut i: usize = 0;
        while i < n
            invariant
                i <= n,
                n == es@.len(),
                forall|j: int| 0 <= j < i ==> (#[trigger] es@[j]).0 != hash,
            decreases n - i,
        {
            if es[i].0 == hash {
                return Some(i);
            }
            i += 1;
        }
        None
    }

    /// Consume the binding of `hash`: the entry, live or expired, is
    /// deleted, and the previous hop is handed back only while live.
    pub fn remove(&mut self, now: Timestamp, hash: CryptoHash) -> (r: Option<PeerId>)
        ensures
            final(self).spec_capacity() == old(self).spec_capacity(),
            final(self).spec_ttl() == old(self).spec_ttl(),
            final(self).as_map() == old(self).as_map().remove(hash),
            r == if old(self).as_map().contains_key(hash)
                    && old(self).spec_fresh(old(self).as_map()[hash].1, now) {
                Some(old(self).as_map()[hash].0)
            } else {
                None::<PeerId>
            },
    {
        proof {
            use_type_invariant(&*self);
            lemma_map_of_contains(self.entries@, hash);
        }
        match self.find_index(hash) {
            Some(i) => {
                proof {
                    lemma_map_of_index(self@, i as int);
                    lemma_map_of_remove(self@, i as int);
                }
                let mut es: Vec<(CryptoHash, (PeerId, Timestamp))> = Vec::new();
                core::mem::swap(&mut es, &mut self.entries);
                let e = es.remove(i);
                core::mem::swap(&mut es, &mut self.entries);
                let live = if now >= e.1.1 { now - e.1.1 < self.ttl } else { true };
                if live {
                    Some(e.1.0)
                } else {
                    None
                }
            }
            None => {
                proof {
                    assert(old(self).as_map() =~= old(self).as_map().remove(hash));
                }
                None
            }
        }
    }

    /// The previous hop bound to `hash`, while live; the cache is not
    /// changed.
    pub fn get(&self, now: Timestamp, hash: CryptoHash) -> (r: Option<PeerId>)
        ensures
            r == if self.as_map().contains_key(hash)
                    && self.spec_fresh(self.as_map()[hash].1, now) {
                Some(self.as_map()[hash].0)
            } else {
                None::<PeerId>
            },
    {
        proof {
            use_type_invariant(self);
            lemma_map_of_contains(self.entries@, hash);
        }
        match self.find_index(hash) {
            Some(i) => {
                proof {
                    use_type_invariant(self);
                    lemma_map_of_index(self@, i as int);
                }
                let e = self.entries[i];
                let live = if now >= e.1.1 { now - e.1.1 < self.ttl } else { true };
                if live {
                    Some(e.1.0)
                } else {
                    None
                }
            }
            None => None,
        }
    }
}

/// Route-back bindings are single-use: once a hash is consumed by
/// `remove`, the resulting cache no longer holds it, so a second
/// `remove` of the same hash yields nothing.
pub proof fn lemma_route_back_single_use(m: Map<CryptoHash, (PeerId, Timestamp)>, hash: CryptoHash)
    ensures
        !m.remove(hash).contains_key(hash),
{
}

} // verus!
