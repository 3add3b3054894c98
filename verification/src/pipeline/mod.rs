//! The import pipeline: passes over chapter files and the in-memory graph.

pub mod graph_buf;
pub mod passes;

use vstd::prelude::*;
use crate::store::StoreError;

verus! {

/// Declares `std::io::Error` to the verifier.
#[verifier::external_type_specification]
#[verifier::external_body]
pub struct ExIoError(std::io::Error);

/// Why the pipeline stopped.
#[derive(Debug)]
pub enum PipelineError {
    /// Reading a file failed.
    Io(std::io::Error),
    /// The store failed.
    Store(StoreError),
    /// The run was cancelled.
    Cancelled,
    /// Anything else.
    Other(String),
}

impl From<std::io::Error> for PipelineError {
    fn from(e: std::io::Error) -> (r: Self) {
        PipelineError::Io(e)
    }
}

impl vstd::std_specs::convert::FromSpecImpl<std::io::Error> for PipelineError {
    open spec fn obeys_from_spec() -> bool {
        true
    }

    open spec fn from_spec(e: std::io::Error) -> Self {
        PipelineError::Io(e)
    }
}

impl From<StoreError> for PipelineError {
    fn from(e: StoreError) -> (r: Self) {
        PipelineError::Store(e)
    }
}

impl vstd::std_specs::convert::FromSpecImpl<StoreError> for PipelineError {
    open spec fn obeys_from_spec() -> bool {
        true
    }

    open spec fn from_spec(e: StoreError) -> Self {
        PipelineError::Store(e)
    }
}

} // verus!
