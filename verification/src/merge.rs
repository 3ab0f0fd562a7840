//! Merging containers: concatenate the row groups of several inputs sharing
//! one schema into one output, in input order, without decoding anything.
//!
//! The schema gate runs before any byte is copied; on a mismatch the merge
//! fails and no output is assembled. On success the output holds every
//! input's row groups, in the order the inputs were given, each transplanted
//! with its logical content intact.

use vstd::prelude::*;

use crate::error::EngineError;
use crate::footer::{
    clone_columns, container_groups, content_rows, lemma_sum_rows_matches_content, schema_view,
    sum_rows, wf_container, ContainerData, GroupContent,
};
use crate::schema::{check_schemas, schemas_all_match};
use crate::writer::OutputContainer;

verus! {

/// Arguments of the merge operation: the output path and the input paths, in
/// the order their row groups are to appear.
#[derive(Debug)]
pub struct Args {
    pub output: String,
    pub input: Vec<String>,
}

/// The row-group contents of several containers, concatenated in input order.
pub open spec fn concat_groups(inputs: Seq<ContainerData>) -> Seq<GroupContent>
    decreases inputs.len(),
{
    if inputs.len() == 0 {
        Seq::empty()
    } else {
        concat_groups(inputs.drop_last()) + container_groups(inputs.last())
    }
}

/// What a successful merge guarantees: the output is well-formed, carries the
/// first input's schema, and its row groups are exactly the inputs' row
/// groups, concatenated in input order with their logical content intact.
pub open spec fn merge_post(inputs: Seq<ContainerData>, out: ContainerData) -> bool {
    &&& wf_container(out)
    &&& schema_view(out.footer.schema@) == schema_view(inputs[0].footer.schema@)
    &&& container_groups(out) == concat_groups(inputs)
    &&& sum_rows(out.footer.groups@) == content_rows(concat_groups(inputs))
}

/// Extending the input prefix by one container appends that container's
/// groups.
pub proof fn lemma_concat_groups_step(inputs: Seq<ContainerData>, i: int)
    requires
        0 <= i < inputs.len(),
    ensures
        concat_groups(inputs.subrange(0, i + 1)) == concat_groups(inputs.subrange(0, i))
            + container_groups(inputs[i]),
{
    assert(inputs.subrange(0, i + 1).drop_last() =~= inputs.subrange(0, i));
    assert(inputs.subrange(0, i + 1).last() == inputs[i]);
}

/// Merge completeness: the total row count of the concatenation is the sum of
/// the inputs' total row counts, input by input.
pub proof fn lemma_concat_groups_rows(inputs: Seq<ContainerData>)
    ensures
        content_rows(concat_groups(inputs)) == if inputs.len() == 0 {
            0
        } else {
            content_rows(concat_groups(inputs.drop_last())) + content_rows(
                container_groups(inputs.last()),
            )
        },
{
    if inputs.len() > 0 {
        crate::footer::lemma_content_rows_concat(
            concat_groups(inputs.drop_last()),
            container_groups(inputs.last()),
        );
    }
}

/// Merge the row groups of the given inputs into one container, in input
/// order, transplanting every chunk byte-for-byte. Fails with
/// `InvalidConfig` when no input is given, and with `SchemaMismatch` — naming
/// the first disagreeing pair — when the inputs do not all share the first
/// input's schema; in both cases nothing is assembled.
pub fn merge_containers(inputs: &Vec<ContainerData>) -> (r: Result<ContainerData, EngineError>)
    requires
        forall|i: int| 0 <= i < inputs@.len() ==> wf_container(#[trigger] inputs@[i]),
    ensures
        inputs@.len() == 0 ==> r matches Err(EngineError::InvalidConfig),
        r is Ok <==> inputs@.len() > 0 && schemas_all_match(inputs@),
        r matches Ok(out) ==> merge_post(inputs@, out),
        inputs@.len() > 0 ==> (r matches Err(e) ==> ({
            &&& e matches EngineError::SchemaMismatch { first, second, expected, actual }
            &&& first == 0
            &&& 0 < second < inputs@.len()
            &&& expected@ == inputs@[0].footer.schema@
            &&& actual@ == inputs@[second as int].footer.schema@
            &&& schema_view(inputs@[second as int].footer.schema@) != schema_view(
                inputs@[0].footer.schema@,
            )
            &&& forall|k: int| 0 <= k < second ==> schema_view(
                #[trigger] inputs@[k].footer.schema@,
            ) == schema_view(inputs@[0].footer.schema@)
        })),
{
    if inputs.len() == 0 {
        return Err(EngineError::InvalidConfig);
    }
    match check_schemas(inputs) {
        Err(e) => {
            return Err(e);
        },
        Ok(()) => {},
    }
    let mut w = OutputContainer::new(clone_columns(&inputs[0].footer.schema));
    let mut i: usize = 0;
    while i < inputs.len()
        invariant
            i <= inputs@.len(),
            inputs@.len() > 0,
            schemas_all_match(inputs@),
            forall|k: int| 0 <= k < inputs@.len() ==> wf_container(#[trigger] inputs@[k]),
            !w.closed,
            w.wf(),
            schema_view(w.schema@) == schema_view(inputs@[0].footer.schema@),
            w.content() == concat_groups(inputs@.subrange(0, i as int)),
        decreases inputs@.len() - i,
    {
        let input = &inputs[i];
        let mut j: usize = 0;
        while j < input.footer.groups.len()
            invariant
                i < inputs@.len(),
                j <= input.footer.groups@.len(),
                inputs@.len() > 0,
                schemas_all_match(inputs@),
                forall|k: int| 0 <= k < inputs@.len() ==> wf_container(#[trigger] inputs@[k]),
                input == inputs@[i as int],
                !w.closed,
                w.wf(),
                schema_view(w.schema@) == schema_view(inputs@[0].footer.schema@),
                w.content() == concat_groups(inputs@.subrange(0, i as int)) + container_groups(
                    *input,
                ).subrange(0, j as int),
            decreases input.footer.groups@.len() - j,
        {
            let _ = w.append_transplanted(input, j);
            proof {
                assert(container_groups(*input)[j as int] == crate::footer::group_content(
                    input.bytes@,
                    input.footer.groups@[j as int],
                ));
                assert(w.content() =~= concat_groups(inputs@.subrange(0, i as int))
                    + container_groups(*input).subrange(0, j + 1));
            }
            j += 1;
        }
        proof {
            assert(container_groups(*input).subrange(0, input.footer.groups@.len() as int)
                =~= container_groups(*input));
            lemma_concat_groups_step(inputs@, i as int);
        }
        i += 1;
    }
    let _ = w.close();
    proof {
        assert(inputs@.subrange(0, inputs@.len() as int) =~= inputs@);
    }
    let out = w.into_data();
    proof {
        lemma_sum_rows_matches_content(out.bytes@, out.footer.groups@);
    }
    Ok(out)
}

} // verus!
