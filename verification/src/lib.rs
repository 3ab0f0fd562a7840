//! A columnar-container transplantation and repartitioning engine.
//!
//! The library rewrites large columnar data files at the metadata and byte
//! level: merging several containers into one, splitting one into many, and
//! re-sharding by row count. Containers are modelled by a footer (schema plus
//! ordered row-group metadata) together with the byte region the metadata
//! points into; moving a row group between containers copies its column-chunk
//! payloads verbatim and rewrites only the byte offsets.

pub mod batch;
pub mod cat;
pub mod df;
pub mod dispatch;
pub mod error;
pub mod footer;
pub mod partition;
pub mod merge;
pub mod meta;
pub mod schema;
pub mod split;
pub mod utils;
pub mod writer;

pub use error::EngineError;
