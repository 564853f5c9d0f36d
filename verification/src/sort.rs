//! A verified sort of keyed payloads.
//!
//! The engine walks expansions and resource patches nearest-first.  The
//! sort takes `(key, payload)` pairs and returns them in ascending key
//! order; equal keys may come out in any order, matching the engine's
//! arbitrary tie-breaking.
use vstd::prelude::*;

verus! {

use vstd::multiset::Multiset;

/// Ascending by key.
pub open spec fn sorted_by_key<T>(s: Seq<(u64, T)>) -> bool {
    forall|i: int, j: int| 0 <= i < j < s.len() ==> (#[trigger] s[i]).0 <= (#[trigger] s[j]).0
}

/// Sequences with equal multisets hold each other's elements.
pub proof fn lemma_multiset_elements<T>(a: Seq<T>, b: Seq<T>)
    requires
        a.to_multiset() == b.to_multiset(),
    ensures
        forall|j: int| 0 <= j < a.len() ==> b.contains(#[trigger] a[j]),
        forall|j: int| 0 <= j < b.len() ==> a.contains(#[trigger] b[j]),
{
    broadcast use vstd::seq_lib::group_to_multiset_ensures;

    assert forall|j: int| 0 <= j < a.len() implies b.contains(#[trigger] a[j]) by {
        assert(a.contains(a[j]));
        assert(a.to_multiset().count(a[j]) > 0);
    }
    assert forall|j: int| 0 <= j < b.len() implies a.contains(#[trigger] b[j]) by {
        assert(b.contains(b[j]));
        assert(b.to_multiset().count(b[j]) > 0);
    }
}

/// Index of a minimal key in `v`.
#[verifier::loop_isolation(false)]
fn min_key_index<T: Copy>(v: &Vec<(u64, T)>) -> (r: usize)
    requires
        v@.len() > 0,
    ensures
        r < v@.len(),
        forall|j: int| 0 <= j < v@.len() ==> v@[r as int].0 <= (#[trigger] v@[j]).0,
{
    let n = v.len();
    let mut best: usize = 0;
    let mut i: usize = 1;
    while i < n
        invariant
            best < i <= n,
            forall|j: int| 0 <= j < i ==> v@[best as int].0 <= (#[trigger] v@[j]).0,
        decreases n - i,
    {
        if v[i].0 < v[best].0 {
            best = i;
        }
        i += 1;
    }
    best
}

/// Sort pairs ascending by key.  The result holds exactly the input
/// pairs; equal keys come out in an unspecified order.
#[verifier::loop_isolation(false)]
pub fn sort_by_key<T: Copy>(v: Vec<(u64, T)>) -> (r: Vec<(u64, T)>)
    ensures
        r@.len() == v@.len(),
        r@.to_multiset() == v@.to_multiset(),
        sorted_by_key(r@),
{
    broadcast use vstd::seq_lib::group_to_multiset_ensures;

    let mut work = v;
    let mut out: Vec<(u64, T)> = Vec::new();
    proof {
        assert(out@.to_multiset().add(work@.to_multiset()) =~= v@.to_multiset());
    }
    while work.len() > 0
        invariant
            out@.to_multiset().add(work@.to_multiset()) == v@.to_multiset(),
            out@.len() + work@.len() == v@.len(),
            sorted_by_key(out@),
            forall|i: int, j: int|
                0 <= i < out@.len() && 0 <= j < work@.len() ==> (#[trigger] out@[i]).0 <= (
                #[trigger] work@[j]).0,
        decreases work.len(),
    {
        let m = min_key_index(&work);
        let x = work[m];
        let ghost work0 = work@;
        let ghost out0 = out@;
        work.remove(m);
        out.push(x);
        proof {
            assert(work@ == work0.remove(m as int));
            assert(out@ == out0.push(x));
            assert(work0.remove(m as int).to_multiset() =~= work0.to_multiset().remove(x));
            assert(out0.push(x).to_multiset() =~= out0.to_multiset().insert(x));
            assert(work0.to_multiset().count(x) > 0) by {
                assert(work0.contains(x));
            }
            assert(out@.to_multiset().add(work@.to_multiset()) =~= v@.to_multiset()) by {
                assert(forall|e: (u64, T)|
                    #[trigger] out@.to_multiset().count(e) + work@.to_multiset().count(e)
                        == out0.to_multiset().count(e) + work0.to_multiset().count(e));
            }
            // every remaining pair's key is at least the placed key
            assert(forall|j: int|
                0 <= j < work@.len() ==> x.0 <= (#[trigger] work@[j]).0) by {
                assert(forall|j: int|
                    0 <= j < work@.len() ==> work@[j] == work0[if j < m {
                        j
                    } else {
                        j + 1
                    }]);
            }
            assert(sorted_by_key(out@)) by {
                assert(forall|i: int| 0 <= i < out0.len() ==> out@[i] == #[trigger] out0[i]);
                assert(out@[out@.len() - 1] == x);
            }
        }
    }
    proof {
        assert(work@.to_multiset() =~= Multiset::<(u64, T)>::empty());
        assert(out@.to_multiset().add(work@.to_multiset()) =~= out@.to_multiset());
    }
    out
}

} // verus!
