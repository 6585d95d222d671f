//! Small list exercises: element-wise addition and in-place
//! deduplication keeping first occurrences in order.

use vstd::prelude::*;

verus! {

broadcast use vstd::std_specs::hash::group_hash_axioms;

/// `s` with every later duplicate removed: each element is kept at its
/// first occurrence, in order.
pub open spec fn spec_dedup(s: Seq<i32>) -> Seq<i32>
    decreases s.len(),
{
    if s.len() == 0 {
        Seq::empty()
    } else if s.drop_last().contains(s.last()) {
        spec_dedup(s.drop_last())
    } else {
        spec_dedup(s.drop_last()).push(s.last())
    }
}

/// A new list with `n` added to every element.
pub fn add_n(v: Vec<i32>, n: i32) -> (r: Vec<i32>)
    requires
        forall|i: int| 0 <= i < v@.len() ==> i32::MIN <= #[trigger] v@[i] + n <= i32::MAX,
    ensures
        r@.len() == v@.len(),
        forall|i: int| 0 <= i < v@.len() ==> r@[i] == v@[i] + n,
{
    let mut new_v: Vec<i32> = Vec::new();
    let len = v.len();
    let mut i: usize = 0;
    while i < len
        invariant
            len == v@.len(),
            i <= len,
            new_v@.len() == i,
            forall|j: int| 0 <= j < v@.len() ==> i32::MIN <= #[trigger] v@[j] + n <= i32::MAX,
            forall|j: int| 0 <= j < i ==> new_v@[j] == v@[j] + n,
        decreases len - i,
    {
        new_v.push(v[i] + n);
        i += 1;
    }
    new_v
}

/// Add `n` to every element, in place.
pub fn add_n_inplace(v: &mut Vec<i32>, n: i32)
    requires
        forall|i: int| 0 <= i < old(v)@.len() ==> i32::MIN <= #[trigger] old(v)@[i] + n
            <= i32::MAX,
    ensures
        final(v)@.len() == old(v)@.len(),
        forall|i: int| 0 <= i < old(v)@.len() ==> final(v)@[i] == old(v)@[i] + n,
{
    let len = v.len();
    let mut i: usize = 0;
    while i < len
        invariant
            len == v@.len(),
            v@.len() == old(v)@.len(),
            i <= len,
            forall|j: int| 0 <= j < old(v)@.len() ==> i32::MIN <= #[trigger] old(v)@[j] + n
                <= i32::MAX,
            forall|j: int| 0 <= j < i ==> v@[j] == old(v)@[j] + n,
            forall|j: int| i <= j < len ==> v@[j] == old(v)@[j],
        decreases len - i,
    {
        let x = v[i];
        v.set(i, x + n);
        i += 1;
    }
}

/// Remove every duplicate, keeping the first occurrence of each element
/// and the order of those occurrences.
pub fn dedup(v: &mut Vec<i32>)
    ensures
        final(v)@ == spec_dedup(old(v)@),
{
    let mut h: std::collections::HashSet<i32> = std::collections::HashSet::new();
    let mut cnt: usize = 0;
    let n = v.len();
    let mut i: usize = 0;
    while i < n
        invariant
            n == old(v)@.len(),
            v@.len() == n,
            i <= n,
            cnt <= i,
            vstd::std_specs::hash::obeys_key_model::<i32>(),
            vstd::std_specs::hash::builds_valid_hashers::<std::collections::hash_map::RandomState>(),
            forall|x: i32| h@.contains(x) <==> old(v)@.take(i as int).contains(x),
            v@.subrange(0, cnt as int) == spec_dedup(old(v)@.take(i as int)),
            forall|j: int| i <= j < n ==> v@[j] == old(v)@[j],
        decreases n - i,
    {
        let x = v[i];
        proof {
            assert(x == old(v)@[i as int]);
            assert(old(v)@.take(i as int + 1).drop_last() =~= old(v)@.take(i as int));
            assert(old(v)@.take(i as int + 1).last() == old(v)@[i as int]);
        }
        if !h.contains(&x) {
            v.set(cnt, x);
            proof {
                assert(v@.subrange(0, cnt as int + 1) =~= spec_dedup(old(v)@.take(i as int)).push(
                    x,
                ));
            }
            cnt += 1;
            h.insert(x);
            proof {
                let t0 = old(v)@.take(i as int);
                let t1 = old(v)@.take(i as int + 1);
                assert forall|y: i32| h@.contains(y) <==> t1.contains(y) by {
                    if h@.contains(y) {
                        if y == x {
                            assert(t1.last() == y);
                        } else {
                            let k = choose|k: int| 0 <= k < t0.len() && t0[k] == y;
                            assert(t1[k] == y);
                        }
                    }
                    if t1.contains(y) {
                        let k = choose|k: int| 0 <= k < t1.len() && t1[k] == y;
                        if k < i {
                            assert(t0[k] == y);
                        }
                    }
                }
            }
        } else {
            proof {
                let t0 = old(v)@.take(i as int);
                let t1 = old(v)@.take(i as int + 1);
                assert(t0.contains(x));
                assert forall|y: i32| h@.contains(y) <==> t1.contains(y) by {
                    if h@.contains(y) {
                        let k = choose|k: int| 0 <= k < t0.len() && t0[k] == y;
                        assert(t1[k] == y);
                    }
                    if t1.contains(y) {
                        let k = choose|k: int| 0 <= k < t1.len() && t1[k] == y;
                        if k < i {
                            assert(t0[k] == y);
                        } else {
                            assert(y == x);
                            assert(t0.contains(y));
                        }
                    }
                }
            }
        }
        i += 1;
    }
    v.truncate(cnt);
    proof {
        assert(old(v)@.take(n as int) =~= old(v)@);
    }
}

} // verus!
