//! The arguments of the query command, which hands a configured SQL query to
//! an external dataframe engine and writes the result out. The engine, the
//! configuration format and the query semantics are external collaborators;
//! only the argument shape lives here.

use vstd::prelude::*;

verus! {

/// Arguments of the query command: the configuration path, the query name to
/// run (the default one when unset), source paths overriding the configured
/// ones, and an overriding target path.
#[derive(Debug)]
pub struct Args {
    pub config: String,
    pub query: Option<String>,
    pub source: Vec<String>,
    pub sink: Option<String>,
}

} // verus!
