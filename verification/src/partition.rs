//! Deterministic batching of an ordered row-group sequence.
//!
//! Splitting a container hands out its row groups in consecutive, fixed-size
//! chunks of at most `g` groups each; only the last chunk may be shorter.
//! Boundaries fall on row-group boundaries alone, and the bucketing preserves
//! order: two consecutive row groups land in the same or in consecutive
//! outputs, never out of order.

use vstd::prelude::*;

use crate::error::EngineError;

verus! {

/// Ceiling division: the number of chunks of size `g` needed to cover `n`
/// items.
pub open spec fn ceil_div(n: nat, g: nat) -> nat
    decreases n,
{
    if g == 0 {
        0
    } else if n == 0 {
        0
    } else if n <= g {
        1
    } else {
        1 + ceil_div((n - g) as nat, g)
    }
}

/// `k` chunks of size `g` are exactly enough to cover `n` items as soon as
/// `k - 1` chunks are too few and `k` suffice.
pub proof fn lemma_ceil_div_exact(n: nat, g: nat, k: nat)
    requires
        g >= 1,
        n <= k * g,
        k == 0 || (k - 1) * g < n,
    ensures
        ceil_div(n, g) == k,
    decreases k,
{
    if k == 0 {
        assert(0 * g == 0) by (nonlinear_arith);
    } else if k == 1 {
        assert(1 * g == g) by (nonlinear_arith);
        assert((1 - 1) * g == 0) by (nonlinear_arith);
    } else {
        assert((k - 1) * g >= g) by (nonlinear_arith)
            requires
                k >= 2,
                g >= 1,
        ;
        assert(k * g - g == (k - 1) * g) by (nonlinear_arith);
        assert((k - 1) * g - g == (k - 2) * g) by (nonlinear_arith);
        lemma_ceil_div_exact((n - g) as nat, g, (k - 1) as nat);
    }
}

/// The planned boundaries are correct: chunk `k` covers the half-open index
/// range `[k * g, min((k + 1) * g, n))`.
pub open spec fn partition_post(v: Seq<(usize, usize)>, n: int, g: int) -> bool {
    forall|k: int| 0 <= k < v.len() ==> {
        &&& (#[trigger] v[k]).0 == k * g
        &&& k * g < n
        &&& v[k].1 == if (k + 1) * g <= n { (k + 1) * g } else { n }
    }
}

/// Plan the partition of `n` ordered row groups into consecutive chunks of at
/// most `g` groups each. Returns the `(start, end)` index bounds of each
/// chunk, in order; a zero chunk size is rejected before any work is done.
pub fn partition_bounds(n: usize, g: usize) -> (r: Result<Vec<(usize, usize)>, EngineError>)
    ensures
        g == 0 <==> r is Err,
        r is Err ==> r matches Err(EngineError::InvalidConfig),
        r matches Ok(v) ==> {
            &&& v@.len() == ceil_div(n as nat, g as nat)
            &&& partition_post(v@, n as int, g as int)
        },
{
    if g == 0 {
        return Err(EngineError::InvalidConfig);
    }
    let mut v: Vec<(usize, usize)> = Vec::new();
    let mut start: usize = 0;
    while start < n
        invariant
            g >= 1,
            partition_post(v@, n as int, g as int),
            start == if v@.len() * g <= n { v@.len() * g as int } else { n as int },
            forall|k: int| 0 <= k < v@.len() ==> #[trigger] (k * g) < n,
        decreases n - start,
    {
        let remaining = n - start;
        let end = if remaining < g {
            n
        } else {
            start + g
        };
        let ghost len0 = v@.len() as int;
        v.push((start, end));
        proof {
            assert((len0 + 1) * g == len0 * g + g) by (nonlinear_arith);
        }
        start = end;
    }
    proof {
        let len = v@.len() as int;
        if len > 0 {
            assert((len - 1) * g < n);
        }
        lemma_ceil_div_exact(n as nat, g as nat, v@.len());
    }
    Ok(v)
}

} // verus!
