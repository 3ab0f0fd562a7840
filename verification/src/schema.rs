//! Structural schema comparison across inputs.
//!
//! Before any byte is moved between containers, every input must report a
//! schema structurally equal to the first input's: same column names, types,
//! nullability and ordinal order. A disagreement is a hard error naming the
//! first disagreeing pair of inputs and their schemas; nothing is ever
//! coerced. The check is pure metadata comparison and decodes nothing.

use vstd::prelude::*;

use crate::error::EngineError;
use crate::footer::{clone_columns, col_view, schema_view, ContainerData, SchemaColumn};

verus! {

/// Every input reports a schema structurally equal to the first input's.
pub open spec fn schemas_all_match(inputs: Seq<ContainerData>) -> bool {
    forall|i: int| 0 <= i < inputs.len() ==> schema_view(
        #[trigger] inputs[i].footer.schema@,
    ) == schema_view(inputs[0].footer.schema@)
}

/// Structural equality of two schema columns.
pub fn columns_equal(a: &SchemaColumn, b: &SchemaColumn) -> (r: bool)
    ensures
        r == (col_view(*a) == col_view(*b)),
{
    let r = a.name == b.name && a.ptype == b.ptype && a.nullable == b.nullable;
    proof {
        if r {
            assert(col_view(*a) =~= col_view(*b));
        }
    }
    r
}

/// Structural equality of two schemas: equal length and equal columns at
/// every ordinal.
pub fn schemas_equal(a: &Vec<SchemaColumn>, b: &Vec<SchemaColumn>) -> (r: bool)
    ensures
        r == (schema_view(a@) == schema_view(b@)),
{
    if a.len() != b.len() {
        assert(schema_view(a@).len() != schema_view(b@).len());
        return false;
    }
    let mut i: usize = 0;
    while i < a.len()
        invariant
            i <= a@.len(),
            a@.len() == b@.len(),
            forall|k: int| 0 <= k < i ==> col_view(#[trigger] a@[k]) == col_view(b@[k]),
        decreases a@.len() - i,
    {
        if !columns_equal(&a[i], &b[i]) {
            assert(schema_view(a@)[i as int] != schema_view(b@)[i as int]);
            return false;
        }
        i += 1;
    }
    proof {
        assert(schema_view(a@) =~= schema_view(b@));
    }
    true
}

/// Gate the inputs of a transplant: all must agree structurally with the
/// first. On disagreement the result names the first disagreeing pair — the
/// first input and the earliest input that differs from it — and carries both
/// schemas.
pub fn check_schemas(inputs: &Vec<ContainerData>) -> (r: Result<(), EngineError>)
    ensures
        r is Ok <==> schemas_all_match(inputs@),
        r matches Err(e) ==> ({
            &&& e matches EngineError::SchemaMismatch { first, second, expected, actual }
            &&& first == 0
            &&& 0 < second < inputs@.len()
            &&& expected@ == inputs@[0].footer.schema@
            &&& actual@ == inputs@[second as int].footer.schema@
            &&& schema_view(inputs@[second as int].footer.schema@) != schema_view(
                inputs@[0].footer.schema@,
            )
            &&& forall|k: int| 0 <= k < second ==> schema_view(
                #[trigger] inputs@[k].footer.schema@,
            ) == schema_view(inputs@[0].footer.schema@)
        }),
{
    if inputs.len() == 0 {
        return Ok(());
    }
    let mut i: usize = 1;
    while i < inputs.len()
        invariant
            1 <= i <= inputs@.len(),
            forall|k: int| 0 <= k < i ==> schema_view(#[trigger] inputs@[k].footer.schema@)
                == schema_view(inputs@[0].footer.schema@),
        decreases inputs@.len() - i,
    {
        if !schemas_equal(&inputs[0].footer.schema, &inputs[i].footer.schema) {
            return Err(
                EngineError::SchemaMismatch {
                    first: 0,
                    second: i,
                    expected: clone_columns(&inputs[0].footer.schema),
                    actual: clone_columns(&inputs[i].footer.schema),
                },
            );
        }
        i += 1;
    }
    Ok(())
}

} // verus!
