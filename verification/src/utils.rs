//! Small shared helpers.

use vstd::prelude::*;

use std::collections::hash_map::RandomState;
use std::collections::HashSet;
use vstd::std_specs::hash::{builds_valid_hashers, obeys_key_model};

verus! {

broadcast use vstd::std_specs::hash::group_hash_axioms;

/// Collect the given values into a hash set: the set holds exactly the values
/// the vector holds.
pub fn hashset(data: Vec<i32>) -> (r: HashSet<i32>)
    ensures
        forall|x: i32| r@.contains(x) <==> data@.contains(x),
{
    let mut r: HashSet<i32> = HashSet::new();
    let mut i: usize = 0;
    while i < data.len()
        invariant
            i <= data@.len(),
            forall|x: i32| r@.contains(x) <==> data@.subrange(0, i as int).contains(x),
        decreases data@.len() - i,
    {
        let ghost pre = r@;
        r.insert(data[i]);
        proof {
            assert(obeys_key_model::<i32>());
            assert(builds_valid_hashers::<RandomState>());
            assert(r@ == pre.insert(data@[i as int]));
            assert(data@.subrange(0, i + 1) =~= data@.subrange(0, i as int).push(
                data@[i as int],
            ));
            assert forall|x: i32| r@.contains(x) <==> data@.subrange(0, i + 1).contains(x) by {
                let s1 = data@.subrange(0, i as int);
                let s2 = data@.subrange(0, i + 1);
                if r@.contains(x) {
                    if x == data@[i as int] {
                        assert(s2[i as int] == x);
                        assert(s2.contains(x));
                    } else {
                        assert(pre.contains(x));
                        assert(s1.contains(x));
                        let k = choose|k: int| 0 <= k < s1.len() && #[trigger] s1[k] == x;
                        assert(s2[k] == x);
                        assert(s2.contains(x));
                    }
                }
                if s2.contains(x) {
                    let k = choose|k: int| 0 <= k < s2.len() && #[trigger] s2[k] == x;
                    if k < i {
                        assert(s1[k] == x);
                        assert(s1.contains(x));
                    } else {
                        assert(x == data@[i as int]);
                    }
                    assert(r@.contains(x));
                }
            }
        }
        i += 1;
    }
    proof {
        assert(data@.subrange(0, data@.len() as int) =~= data@);
    }
    r
}

} // verus!
