//! The error taxonomy of the engine.

use vstd::prelude::*;

verus! {

/// Every failure the engine reports falls in one of these categories.
///
/// Metadata-level errors (`SchemaMismatch`, `InvalidConfig`) abort an
/// operation before any output is assembled. `ClosedContainer` marks a
/// lifecycle violation: an append or a second close on an output container
/// that was already closed. `WorkerStalled` reports a writer that gave up
/// waiting on the shared queue instead of blocking forever.
#[derive(Debug)]
pub enum EngineError {
    /// Two inputs disagree structurally; `first` and `second` index the first
    /// disagreeing pair of inputs, in the order the inputs were given, and
    /// `expected` and `actual` carry their two schemas.
    SchemaMismatch {
        first: usize,
        second: usize,
        expected: Vec<crate::footer::SchemaColumn>,
        actual: Vec<crate::footer::SchemaColumn>,
    },
    /// A configuration value is unusable, such as a zero row-group limit.
    InvalidConfig,
    /// Opening, reading or writing a specific file failed.
    IoFailure,
    /// A batch could not be decoded; the source sequence ends there.
    DecodeFailure,
    /// An append or a close was attempted on an already closed container.
    ClosedContainer,
    /// A writer timed out waiting on the shared queue.
    WorkerStalled,
}

impl EngineError {
    /// The category name, for operator-facing reporting.
    pub fn category(&self) -> (r: &'static str)
        ensures
            r@ == match self {
                EngineError::SchemaMismatch { .. } => "schema mismatch"@,
                EngineError::InvalidConfig => "invalid configuration"@,
                EngineError::IoFailure => "io failure"@,
                EngineError::DecodeFailure => "decode failure"@,
                EngineError::ClosedContainer => "closed container"@,
                EngineError::WorkerStalled => "worker stalled"@,
            },
    {
        match self {
            EngineError::SchemaMismatch { .. } => "schema mismatch",
            EngineError::InvalidConfig => "invalid configuration",
            EngineError::IoFailure => "io failure",
            EngineError::DecodeFailure => "decode failure",
            EngineError::ClosedContainer => "closed container",
            EngineError::WorkerStalled => "worker stalled",
        }
    }
}

} // verus!
