//! Row dumping: which rows of a row group the dump emits.
//!
//! The dump walks a row group's rows in order and prints a window of them:
//! rows before `offset` are skipped, and once a positive limit — counted from
//! the start of the group, so an offset extends it — is reached, the walk
//! stops. The printing itself is plain output; the window decision is here.

use vstd::prelude::*;

verus! {

/// The output format of the row dump.
#[derive(Clone, Copy, Debug, PartialEq, Eq, Structural)]
pub enum OutputFormat {
    CSV,
    JSON,
}

/// Arguments of the row dump: the row group to read, the row window, the
/// output format, the columns to keep (all when empty), and the input path.
#[derive(Debug)]
pub struct Args {
    pub group: Option<usize>,
    pub limit: u64,
    pub output: OutputFormat,
    pub offset: u64,
    pub column: Vec<i32>,
    pub file: String,
}

/// Where a positive limit stops the walk: a positive offset shifts the limit
/// by the rows it skips, and a zero limit means no bound at all.
pub open spec fn spec_effective_limit(offset: u64, limit: u64) -> int {
    if offset > 0 {
        limit + offset
    } else {
        limit as int
    }
}

/// Whether the dump emits the row at index `idx`: at or past the offset, and
/// below the effective limit when one is set.
pub open spec fn spec_row_emitted(idx: int, offset: u64, limit: u64) -> bool {
    &&& (offset > 0 ==> idx >= offset)
    &&& (spec_effective_limit(offset, limit) > 0 ==> idx < spec_effective_limit(offset, limit))
}

/// Decide whether the row at index `idx` falls inside the dump window.
pub fn row_in_window(idx: u64, offset: u64, limit: u64) -> (r: bool)
    requires
        limit + offset <= u64::MAX,
    ensures
        r == spec_row_emitted(idx as int, offset, limit),
{
    let effective = if offset > 0 {
        limit + offset
    } else {
        limit
    };
    (offset == 0 || idx >= offset) && (effective == 0 || idx < effective)
}

} // verus!
