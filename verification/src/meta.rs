//! Metadata dumping: the arguments of the footer inspection command.
//!
//! The command prints totals, optionally the schema, and per-row-group
//! information, filtered to the row groups and columns asked for; it reads
//! metadata only and never decodes a value.

use vstd::prelude::*;

verus! {

/// Arguments of the metadata dump: the row groups to detail, the input path,
/// whether to print the schema, and the columns to detail.
#[derive(Debug)]
pub struct Args {
    pub group: Vec<i32>,
    pub file: String,
    pub schema: bool,
    pub column: Vec<i32>,
}

} // verus!
