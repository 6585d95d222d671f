//! Reassembling indexed results in order.
//!
//! Work that is handed out item by item comes back as (value, index)
//! pairs in arbitrary order; the output takes each value at its index.
//! Where an index never arrives its slot keeps the given default; where
//! it arrives more than once the last arrival wins.

use vstd::prelude::*;

verus! {

/// The value the output holds at slot `i` after placing every pair: the
/// value of the last pair indexed `i`, or the default.
pub open spec fn spec_place<T>(pairs: Seq<(T, usize)>, default: T, i: int) -> T
    decreases pairs.len(),
{
    if pairs.len() == 0 {
        default
    } else if pairs.last().1 == i {
        pairs.last().0
    } else {
        spec_place(pairs.drop_last(), default, i)
    }
}

/// Build the length-`n` output with every pair's value placed at its
/// index.
pub fn reorder_by_index<T: Copy>(pairs: &Vec<(T, usize)>, n: usize, default: T) -> (r: Vec<T>)
    requires
        forall|k: int| 0 <= k < pairs@.len() ==> (#[trigger] pairs@[k]).1 < n,
    ensures
        r@.len() == n,
        forall|i: int| 0 <= i < n ==> r@[i] == spec_place(pairs@, default, i),
{
    let mut out: Vec<T> = Vec::new();
    let mut i: usize = 0;
    while i < n
        invariant
            i <= n,
            out@.len() == i,
            forall|j: int| 0 <= j < i ==> out@[j] == default,
        decreases n - i,
    {
        out.push(default);
        i += 1;
    }
    proof {
        assert(pairs@.take(0) =~= Seq::<(T, usize)>::empty());
    }
    let m = pairs.len();
    let mut k: usize = 0;
    while k < m
        invariant
            m == pairs@.len(),
            k <= m,
            out@.len() == n,
            forall|j: int| 0 <= j < pairs@.len() ==> (#[trigger] pairs@[j]).1 < n,
            forall|j: int| 0 <= j < n ==> out@[j] == spec_place(pairs@.take(k as int), default, j),
        decreases m - k,
    {
        let (v, idx) = pairs[k];
        out.set(idx, v);
        proof {
            assert(pairs@.take(k as int + 1).drop_last() =~= pairs@.take(k as int));
            assert(pairs@.take(k as int + 1).last() == pairs@[k as int]);
            assert forall|j: int| 0 <= j < n implies out@[j] == spec_place(
                pairs@.take(k as int + 1),
                default,
                j,
            ) by {
                if j != idx {
                    assert(out@[j] == spec_place(pairs@.take(k as int), default, j));
                }
            }
        }
        k += 1;
    }
    proof {
        assert(pairs@.take(m as int) =~= pairs@);
    }
    out
}

} // verus!
