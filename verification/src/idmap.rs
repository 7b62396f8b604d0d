//! Association map keyed by 64-bit identities.
//!
//! Components of the core keep registries keyed by peer, account or
//! hash identities.  `IdMap` stores the entries as a vector of pairs
//! with pairwise-distinct keys and presents them as a mathematical
//! `Map<u64, V>`, which every contract of the crate speaks in.

use vstd::prelude::*;

verus! {

/// The keys of the pair sequence are pairwise distinct.
pub open spec fn unique_keys<V>(s: Seq<(u64, V)>) -> bool {
    forall|i: int, j: int| 0 <= i < j < s.len() ==> (#[trigger] s[i]).0 != (#[trigger] s[j]).0
}

/// The map a pair sequence denotes: later entries win, though with
/// `unique_keys` each key occurs once.
pub open spec fn map_of<V>(s: Seq<(u64, V)>) -> Map<u64, V>
    decreases s.len(),
{
    if s.len() == 0 {
        Map::empty()
    } else {
        map_of(s.drop_last()).insert(s.last().0, s.last().1)
    }
}

pub(crate) proof fn lemma_map_of_contains<V>(s: Seq<(u64, V)>, k: u64)
    ensures
        map_of(s).contains_key(k) <==> exists|i: int| 0 <= i < s.len() && (#[trigger] s[i]).0 == k,
    decreases s.len(),
{
    if s.len() == 0 {
    } else {
        lemma_map_of_contains(s.drop_last(), k);
        if s.last().0 == k {
            assert(s[s.len() - 1].0 == k);
        } else {
            if exists|i: int| 0 <= i < s.drop_last().len() && (#[trigger] s.drop_last()[i]).0 == k {
                let i = choose|i: int| 0 <= i < s.drop_last().len() && (#[trigger] s.drop_last()[i]).0 == k;
                assert(s[i].0 == k);
            }
            if exists|i: int| 0 <= i < s.len() && (#[trigger] s[i]).0 == k {
                let i = choose|i: int| 0 <= i < s.len() && (#[trigger] s[i]).0 == k;
                assert(i < s.len() - 1);
                assert(s.drop_last()[i].0 == k);
            }
        }
    }
}

pub(crate) proof fn lemma_unique_drop_last<V>(s: Seq<(u64, V)>)
    requires
        unique_keys(s),
        s.len() > 0,
    ensures
        unique_keys(s.drop_last()),
        !map_of(s.drop_last()).contains_key(s.last().0),
{
    assert forall|i: int, j: int| 0 <= i < j < s.drop_last().len() implies
        (#[trigger] s.drop_last()[i]).0 != (#[trigger] s.drop_last()[j]).0 by {
        assert(s.drop_last()[i] == s[i]);
        assert(s.drop_last()[j] == s[j]);
    }
    lemma_map_of_contains(s.drop_last(), s.last().0);
    assert forall|i: int| 0 <= i < s.drop_last().len() implies
        (#[trigger] s.drop_last()[i]).0 != s.last().0 by {
        assert(s.drop_last()[i] == s[i]);
        assert(s[i].0 != s[s.len() - 1].0);
    }
}

pub(crate) proof fn lemma_map_of_index<V>(s: Seq<(u64, V)>, i: int)
    requires
        unique_keys(s),
        0 <= i < s.len(),
    ensures
        map_of(s).contains_key(s[i].0),
        map_of(s)[s[i].0] == s[i].1,
    decreases s.len(),
{
    if i == s.len() - 1 {
    } else {
        lemma_unique_drop_last(s);
        lemma_map_of_index(s.drop_last(), i);
        assert(s.drop_last()[i] == s[i]);
        assert(s[i].0 != s[s.len() - 1].0);
    }
}

pub(crate) proof fn lemma_map_of_push<V>(s: Seq<(u64, V)>, k: u64, v: V)
    ensures
        map_of(s.push((k, v))) == map_of(s).insert(k, v),
{
    assert(s.push((k, v)).drop_last() =~= s);
    assert(s.push((k, v)).last() == (k, v));
}

pub(crate) proof fn lemma_map_of_update<V>(s: Seq<(u64, V)>, i: int, v: V)
    requires
        unique_keys(s),
        0 <= i < s.len(),
    ensures
        map_of(s.update(i, (s[i].0, v))) == map_of(s).insert(s[i].0, v),
        unique_keys(s.update(i, (s[i].0, v))),
    decreases s.len(),
{
    let k = s[i].0;
    let t = s.update(i, (k, v));
    assert forall|j: int| 0 <= j < s.len() implies (#[trigger] t[j]).0 == s[j].0 by {}
    if i == s.len() - 1 {
        assert(t.drop_last() =~= s.drop_last());
        assert(t.last() == (k, v));
        assert(map_of(s.drop_last()).insert(k, s.last().1).insert(k, v)
            =~= map_of(s.drop_last()).insert(k, v));
    } else {
        lemma_unique_drop_last(s);
        lemma_map_of_update(s.drop_last(), i, v);
        assert(s.drop_last()[i] == s[i]);
        assert(t.drop_last() =~= s.drop_last().update(i, (k, v)));
        assert(t.last() == s.last());
        assert(k != s.last().0);
        assert(map_of(s.drop_last()).insert(k, v).insert(s.last().0, s.last().1)
            =~= map_of(s.drop_last()).insert(s.last().0, s.last().1).insert(k, v));
    }
}

pub(crate) proof fn lemma_map_of_remove<V>(s: Seq<(u64, V)>, i: int)
    requires
        unique_keys(s),
        0 <= i < s.len(),
    ensures
        map_of(s.remove(i)) == map_of(s).remove(s[i].0),
        unique_keys(s.remove(i)),
    decreases s.len(),
{
    let k = s[i].0;
    let t = s.remove(i);
    assert forall|a: int, b: int| 0 <= a < b < t.len() implies
        (#[trigger] t[a]).0 != (#[trigger] t[b]).0 by {
        let a2 = if a < i { a } else { a + 1 };
        let b2 = if b < i { b } else { b + 1 };
        assert(t[a] == s[a2]);
        assert(t[b] == s[b2]);
    }
    lemma_unique_drop_last(s);
    if i == s.len() - 1 {
        assert(t =~= s.drop_last());
        assert(map_of(s.drop_last()).insert(k, s.last().1).remove(k)
            =~= map_of(s.drop_last()));
    } else {
        lemma_map_of_remove(s.drop_last(), i);
        assert(s.drop_last()[i] == s[i]);
        assert(t.drop_last() =~= s.drop_last().remove(i));
        assert(t.last() == s.last());
        assert(k != s.last().0);
        assert(map_of(s.drop_last()).remove(k).insert(s.last().0, s.last().1)
            =~= map_of(s.drop_last()).insert(s.last().0, s.last().1).remove(k));
    }
}

pub(crate) proof fn lemma_map_of_len<V>(s: Seq<(u64, V)>)
    requires
        unique_keys(s),
    ensures
        map_of(s).dom().finite(),
        map_of(s).dom().len() == s.len(),
    decreases s.len(),
{
    if s.len() == 0 {
        assert(map_of(s).dom() =~= Set::<u64>::empty());
    } else {
        lemma_unique_drop_last(s);
        lemma_map_of_len(s.drop_last());
        assert(map_of(s).dom() =~= map_of(s.drop_last()).dom().insert(s.last().0));
    }
}

/// A registry keyed by 64-bit identities, viewed as a `Map<u64, V>`.
pub struct IdMap<V> {
    pairs: Vec<(u64, V)>,
}

impl<V> View for IdMap<V> {
    type V = Map<u64, V>;

    closed spec fn view(&self) -> Map<u64, V> {
        map_of(self.pairs@)
    }
}

impl<V> IdMap<V> {
    #[verifier::type_invariant]
    spec fn inv(self) -> bool {
        unique_keys(self.pairs@)
    }

    /// The empty registry.
    pub fn new() -> (r: Self)
        ensures
            r@ == Map::<u64, V>::empty(),
    {
        IdMap { pairs: Vec::new() }
    }

    fn find_index(&self, k: u64) -> (r: Option<usize>)
        ensures
            match r {
                Some(i) => i < self.pairs@.len() && self.pairs@[i as int].0 == k,
                None => forall|j: int| 0 <= j < self.pairs@.len() ==> (#[trigger] self.pairs@[j]).0 != k,
            },
    {
        let n = self.pairs.len();
        let mut i: usize = 0;
        while i < n
            invariant
                i <= n,
                n == self.pairs@.len(),
                forall|j: int| 0 <= j < i ==> (#[trigger] self.pairs@[j]).0 != k,
            decreases n - i,
        {
            if self.pairs[i].0 == k {
                return Some(i);
            }
            i += 1;
        }
        None
    }

    /// Number of entries.
    pub fn len(&self) -> (r: usize)
        ensures
            r == self@.dom().len(),
    {
        proof {
            use_type_invariant(self);
            lemma_map_of_len(self.pairs@);
        }
        self.pairs.len()
    }

    /// Whether the registry holds no entry.
    pub fn is_empty(&self) -> (r: bool)
        ensures
            r == (self@.dom().len() == 0),
    {
        proof {
            use_type_invariant(self);
            lemma_map_of_len(self.pairs@);
        }
        self.pairs.len() == 0
    }

    /// Whether `k` is present.
    pub fn contains_key(&self, k: u64) -> (r: bool)
        ensures
            r == self@.contains_key(k),
    {
        proof {
            use_type_invariant(self);
            lemma_map_of_contains(self.pairs@, k);
        }
        match self.find_index(k) {
            Some(i) => {
                proof {
                    use_type_invariant(self);
                    lemma_map_of_index(self.pairs@, i as int);
                }
                true
            }
            None => false,
        }
    }

    /// The value under `k`, if any.
    pub fn get(&self, k: u64) -> (r: Option<&V>)
        ensures
            match r {
                Some(v) => self@.contains_key(k) && *v == self@[k],
                None => !self@.contains_key(k),
            },
    {
        proof {
            use_type_invariant(self);
            lemma_map_of_contains(self.pairs@, k);
        }
        match self.find_index(k) {
            Some(i) => {
                proof {
                    use_type_invariant(self);
                    lemma_map_of_index(self.pairs@, i as int);
                }
                Some(&self.pairs[i].1)
            }
            None => None,
        }
    }

    /// Bind `k` to `v`, replacing any earlier binding.
    pub fn insert(&mut self, k: u64, v: V)
        ensures
            final(self)@ == old(self)@.insert(k, v),
    {
        proof {
            use_type_invariant(&*self);
        }
        match self.find_index(k) {
            Some(i) => {
                proof {
                    lemma_map_of_update(self.pairs@, i as int, v);
                }
                let mut ps: Vec<(u64, V)> = Vec::new();
                core::mem::swap(&mut ps, &mut self.pairs);
                ps[i] = (k, v);
                core::mem::swap(&mut ps, &mut self.pairs);
            }
            None => {
                proof {
                    lemma_map_of_push(self.pairs@, k, v);
                    assert forall|a: int, b: int| 0 <= a < b < self.pairs@.push((k, v)).len() implies
                        (#[trigger] self.pairs@.push((k, v))[a]).0
                            != (#[trigger] self.pairs@.push((k, v))[b]).0 by {
                        if b < self.pairs@.len() {
                            assert(self.pairs@.push((k, v))[a] == self.pairs@[a]);
                            assert(self.pairs@.push((k, v))[b] == self.pairs@[b]);
                        } else {
                            assert(self.pairs@.push((k, v))[a] == self.pairs@[a]);
                            assert(self.pairs@.push((k, v))[b] == (k, v));
                        }
                    }
                }
                let mut ps: Vec<(u64, V)> = Vec::new();
                core::mem::swap(&mut ps, &mut self.pairs);
                ps.push((k, v));
                core::mem::swap(&mut ps, &mut self.pairs);
            }
        }
    }

    /// Drop the binding of `k`, returning the value it had.
    pub fn remove(&mut self, k: u64) -> (r: Option<V>)
        ensures
            final(self)@ == old(self)@.remove(k),
            match r {
                Some(v) => old(self)@.contains_key(k) && v == old(self)@[k],
                None => !old(self)@.contains_key(k),
            },
    {
        proof {
            use_type_invariant(&*self);
            lemma_map_of_contains(self.pairs@, k);
        }
        match self.find_index(k) {
            Some(i) => {
                proof {
                    lemma_map_of_index(self.pairs@, i as int);
                    lemma_map_of_remove(self.pairs@, i as int);
                }
                let mut ps: Vec<(u64, V)> = Vec::new();
                core::mem::swap(&mut ps, &mut self.pairs);
                let pr = ps.remove(i);
                core::mem::swap(&mut ps, &mut self.pairs);
                Some(pr.1)
            }
            None => {
                proof {
                    assert(old(self)@ =~= old(self)@.remove(k));
                }
                None
            }
        }
    }

    /// The keys, each exactly once.
    pub fn ids(&self) -> (r: Vec<u64>)
        ensures
            r@.len() == self@.dom().len(),
            forall|j: int| 0 <= j < r@.len() ==> self@.contains_key(#[trigger] r@[j]),
            forall|k: u64| #[trigger] self@.contains_key(k) ==> r@.contains(k),
            forall|a: int, b: int| 0 <= a < b < r@.len() ==> r@[a] != r@[b],
    {
        proof {
            use_type_invariant(self);
            lemma_map_of_len(self.pairs@);
        }
        let n = self.pairs.len();
        let mut r: Vec<u64> = Vec::new();
        let mut i: usize = 0;
        while i < n
            invariant
                i <= n,
                n == self.pairs@.len(),
                r@.len() == i,
                forall|j: int| 0 <= j < i ==> r@[j] == (#[trigger] self.pairs@[j]).0,
            decreases n - i,
        {
            r.push(self.pairs[i].0);
            i += 1;
        }
        proof {
            use_type_invariant(self);
            assert forall|j: int| 0 <= j < r@.len() implies self@.contains_key(#[trigger] r@[j]) by {
                lemma_map_of_index(self.pairs@, j);
            }
            assert forall|k: u64| #[trigger] self@.contains_key(k) implies r@.contains(k) by {
                lemma_map_of_contains(self.pairs@, k);
                let j = choose|j: int| 0 <= j < self.pairs@.len() && (#[trigger] self.pairs@[j]).0 == k;
                assert(r@[j] == k);
            }
            assert forall|a: int, b: int| 0 <= a < b < r@.len() implies r@[a] != r@[b] by {
                assert(self.pairs@[a].0 != self.pairs@[b].0);
            }
        }
        r
    }
}

impl<V: Copy> IdMap<V> {
    /// The entries as key-value pairs, keys pairwise distinct.
    pub fn entries(&self) -> (r: Vec<(u64, V)>)
        ensures
            r@.len() == self@.dom().len(),
            forall|j: int| 0 <= j < r@.len()
                ==> self@.contains_key((#[trigger] r@[j]).0) && self@[r@[j].0] == r@[j].1,
            forall|k: u64| #[trigger] self@.contains_key(k)
                ==> exists|j: int| 0 <= j < r@.len() && (#[trigger] r@[j]).0 == k,
            forall|a: int, b: int| 0 <= a < b < r@.len() ==> r@[a].0 != r@[b].0,
    {
        proof {
            use_type_invariant(self);
            lemma_map_of_len(self.pairs@);
        }
        let n = self.pairs.len();
        let mut r: Vec<(u64, V)> = Vec::new();
        let mut i: usize = 0;
        while i < n
            invariant
                i <= n,
                n == self.pairs@.len(),
                r@.len() == i,
                forall|j: int| 0 <= j < i ==> r@[j] == #[trigger] self.pairs@[j],
            decreases n - i,
        {
            r.push(self.pairs[i]);
            i += 1;
        }
        proof {
            use_type_invariant(self);
            assert forall|j: int| 0 <= j < r@.len() implies
                self@.contains_key((#[trigger] r@[j]).0) && self@[r@[j].0] == r@[j].1 by {
                lemma_map_of_index(self.pairs@, j);
            }
            assert forall|k: u64| #[trigger] self@.contains_key(k) implies
                exists|j: int| 0 <= j < r@.len() && (#[trigger] r@[j]).0 == k by {
                lemma_map_of_contains(self.pairs@, k);
                let j = choose|j: int| 0 <= j < self.pairs@.len() && (#[trigger] self.pairs@[j]).0 == k;
                assert(r@[j].0 == k);
            }
            assert forall|a: int, b: int| 0 <= a < b < r@.len() implies r@[a].0 != r@[b].0 by {
                assert(self.pairs@[a].0 != self.pairs@[b].0);
            }
        }
        r
    }
}

} // verus!
