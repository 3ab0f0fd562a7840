//! Splitting one container into many: partition its ordered row groups into
//! consecutive chunks of at most `g` groups and transplant each chunk into an
//! output of its own.
//!
//! Row groups are never split at the row level here; boundaries fall only on
//! row-group boundaries, and order is preserved within and across outputs.

use vstd::prelude::*;

use crate::error::EngineError;
use crate::footer::{
    clone_columns, container_groups, group_content, schema_view, wf_container, ContainerData,
};
use crate::merge::{concat_groups, merge_post};
use crate::partition::{ceil_div, partition_bounds, partition_post};
use crate::writer::OutputContainer;

verus! {

/// Arguments of the split operation: the output prefix, the maximum number of
/// row groups per output file, and the input path.
#[derive(Debug)]
pub struct Args {
    pub output: String,
    pub groups: u32,
    pub input: String,
}

/// What output `i` of a successful split holds: the input's schema, and
/// exactly the input's row groups with indices in `[i * g, min((i + 1) * g,
/// n))`, transplanted with their logical content intact.
pub open spec fn split_part_post(input: ContainerData, g: int, i: int, part: ContainerData) -> bool {
    let n = input.footer.groups@.len() as int;
    let lo = i * g;
    let hi = if (i + 1) * g <= n {
        (i + 1) * g
    } else {
        n
    };
    &&& wf_container(part)
    &&& schema_view(part.footer.schema@) == schema_view(input.footer.schema@)
    &&& part.footer.groups@.len() == hi - lo
    &&& container_groups(part) == container_groups(input).subrange(lo, hi)
}

/// What a successful split guarantees: `ceil(n / g)` outputs, each as
/// [`split_part_post`] says.
pub open spec fn split_post(input: ContainerData, g: int, parts: Seq<ContainerData>) -> bool {
    &&& parts.len() == ceil_div(input.footer.groups@.len() as nat, g as nat)
    &&& forall|i: int| 0 <= i < parts.len() ==> split_part_post(input, g, i, #[trigger] parts[i])
}

/// Split the input's row groups into consecutive chunks of at most
/// `groups_per_file` each, transplanting every chunk byte-for-byte into an
/// output of its own. A zero chunk size is rejected with `InvalidConfig`
/// before any byte is copied.
pub fn split_container(input: &ContainerData, groups_per_file: usize) -> (r: Result<
    Vec<ContainerData>,
    EngineError,
>)
    requires
        wf_container(*input),
    ensures
        groups_per_file == 0 <==> r is Err,
        r is Err ==> r matches Err(EngineError::InvalidConfig),
        r matches Ok(parts) ==> split_post(*input, groups_per_file as int, parts@),
{
    let n = input.footer.groups.len();
    let bounds = match partition_bounds(n, groups_per_file) {
        Err(e) => {
            return Err(e);
        },
        Ok(b) => b,
    };
    let ghost g = groups_per_file as int;
    let mut parts: Vec<ContainerData> = Vec::new();
    let mut i: usize = 0;
    while i < bounds.len()
        invariant
            wf_container(*input),
            n == input.footer.groups@.len(),
            groups_per_file >= 1,
            g == groups_per_file as int,
            partition_post(bounds@, n as int, g),
            bounds@.len() == ceil_div(n as nat, groups_per_file as nat),
            i <= bounds@.len(),
            parts@.len() == i,
            forall|k: int| 0 <= k < i ==> split_part_post(*input, g, k, #[trigger] parts@[k]),
        decreases bounds@.len() - i,
    {
        let b = bounds[i];
        let lo = b.0;
        let hi = b.1;
        proof {
            assert(b == bounds@[i as int]);
            assert(bounds@[i as int].0 == i * g);
            assert((i as int + 1) * g == i * g + g) by (nonlinear_arith);
            assert(lo == i * g);
            assert(lo <= hi <= n);
        }
        let mut w = OutputContainer::new(clone_columns(&input.footer.schema));
        let mut k: usize = lo;
        while k < hi
            invariant
                wf_container(*input),
                n == input.footer.groups@.len(),
                lo <= k <= hi <= n,
                !w.closed,
                w.wf(),
                schema_view(w.schema@) == schema_view(input.footer.schema@),
                w.groups@.len() == k - lo,
                w.content() == container_groups(*input).subrange(lo as int, k as int),
            decreases hi - k,
        {
            let _ = w.append_transplanted(input, k);
            proof {
                assert(container_groups(*input)[k as int] == group_content(
                    input.bytes@,
                    input.footer.groups@[k as int],
                ));
                assert(w.content() =~= container_groups(*input).subrange(lo as int, k + 1));
            }
            k += 1;
        }
        let _ = w.close();
        let part = w.into_data();
        parts.push(part);
        proof {
            assert(split_part_post(*input, g, i as int, part));
        }
        i += 1;
    }
    Ok(parts)
}

/// Splitting into single-group files covers one group per file.
pub proof fn lemma_ceil_div_one(n: nat)
    ensures
        ceil_div(n, 1) == n,
    decreases n,
{
    if n > 1 {
        lemma_ceil_div_one((n - 1) as nat);
    }
}

/// The concatenation of consecutive single-group slices of a sequence is the
/// sequence itself, prefix by prefix.
proof fn lemma_concat_singleton_prefix(parts: Seq<ContainerData>, all: Seq<crate::footer::GroupContent>, k: int)
    requires
        0 <= k <= parts.len(),
        parts.len() == all.len(),
        forall|i: int| 0 <= i < parts.len() ==> container_groups(#[trigger] parts[i])
            == all.subrange(i, i + 1),
    ensures
        concat_groups(parts.subrange(0, k)) == all.subrange(0, k),
    decreases k,
{
    if k == 0 {
        assert(concat_groups(parts.subrange(0, 0)) =~= all.subrange(0, 0));
    } else {
        lemma_concat_singleton_prefix(parts, all, k - 1);
        assert(parts.subrange(0, k).drop_last() =~= parts.subrange(0, k - 1));
        assert(parts.subrange(0, k).last() == parts[k - 1]);
        assert(all.subrange(0, k - 1) + all.subrange(k - 1, k) =~= all.subrange(0, k));
    }
}

/// Split/merge round trip: splitting a container into single-group files and
/// merging all the resulting files, in the original order, reproduces a
/// container logically equal to the original — the same schema, and the same
/// row groups with the same content in the same order. (A container with no
/// row groups splits into no files at all, so the merge step has no input and
/// the round trip is about containers with at least one row group.)
pub proof fn lemma_split_merge_round_trip(
    input: ContainerData,
    parts: Seq<ContainerData>,
    merged: ContainerData,
)
    requires
        input.footer.groups@.len() > 0,
        split_post(input, 1, parts),
        merge_post(parts, merged),
    ensures
        schema_view(merged.footer.schema@) == schema_view(input.footer.schema@),
        container_groups(merged) == container_groups(input),
{
    let all = container_groups(input);
    let n = input.footer.groups@.len() as int;
    lemma_ceil_div_one(input.footer.groups@.len() as nat);
    assert(parts.len() == n);
    assert forall|i: int| 0 <= i < parts.len() implies container_groups(#[trigger] parts[i])
        == all.subrange(i, i + 1) by {
        assert(split_part_post(input, 1, i, parts[i]));
        assert(i * 1 == i) by (nonlinear_arith);
        assert((i + 1) * 1 == i + 1) by (nonlinear_arith);
    }
    lemma_concat_singleton_prefix(parts, all, n);
    assert(parts.subrange(0, n) =~= parts);
    assert(all.subrange(0, n) =~= all);
    assert(split_part_post(input, 1, 0, parts[0]));
}

} // verus!
