//! Batch verification of edge signatures.
//!
//! A batch of announced edges is checked edge by edge: the well-signed
//! ones are kept, and a flag reports whether the whole batch was
//! clean, so the submitting peer can be held to account for a single
//! bad edge while its good edges still count.

use vstd::prelude::*;
use crate::edge::Edge;

verus! {

/// Verify a batch: the well-signed edges in their order of arrival,
/// and whether every edge of the batch was well-signed.
pub fn verify_all(edges: &Vec<Edge>) -> (r: (Vec<Edge>, bool))
    ensures
        r.0@ == edges@.filter(|e: Edge| e.spec_valid()),
        r.1 == forall|i: int| 0 <= i < edges@.len() ==> (#[trigger] edges@[i]).spec_valid(),
        forall|k: int| 0 <= k < r.0@.len() ==> edges@.contains(#[trigger] r.0@[k]),
        forall|i: int| 0 <= i < edges@.len() && (#[trigger] edges@[i]).spec_valid()
            ==> r.0@.contains(edges@[i]),
{
    let n = edges.len();
    let mut valid: Vec<Edge> = Vec::new();
    let mut all_ok = true;
    let mut i: usize = 0;
    while i < n
        invariant
            i <= n,
            n == edges@.len(),
            valid@ == edges@.subrange(0, i as int).filter(|e: Edge| e.spec_valid()),
            all_ok == forall|j: int| 0 <= j < i ==> (#[trigger] edges@[j]).spec_valid(),
            forall|k: int| 0 <= k < valid@.len() ==> edges@.contains(#[trigger] valid@[k]),
            forall|j: int| 0 <= j < i && (#[trigger] edges@[j]).spec_valid()
                ==> valid@.contains(edges@[j]),
        decreases n - i,
    {
        let e = edges[i];
        let ghost valid0 = valid@;
        proof {
            assert(edges@.subrange(0, i + 1).drop_last() =~= edges@.subrange(0, i as int));
            reveal_with_fuel(Seq::filter, 2);
        }
        if e.verify() {
            valid.push(e);
            proof {
                assert(edges@.contains(edges@[i as int]));
            }
        } else {
            all_ok = false;
        }
        proof {
            assert(edges@.subrange(0, i + 1).last() == edges@[i as int]);
            assert(valid@ =~= edges@.subrange(0, i + 1).filter(|e: Edge| e.spec_valid()));
            assert forall|j: int| 0 <= j < i + 1 && (#[trigger] edges@[j]).spec_valid()
                implies valid@.contains(edges@[j]) by {
                if j < i {
                    let k = choose|k: int| 0 <= k < valid0.len() && valid0[k] == edges@[j];
                    assert(valid@[k] == edges@[j]);
                } else {
                    assert(valid@[valid@.len() - 1] == edges@[i as int]);
                }
            }
        }
        i += 1;
    }
    proof {
        assert(edges@.subrange(0, n as int) =~= edges@);
    }
    (valid, all_ok)
}

} // verus!
