//! Error taxonomy of the memory index.

use vstd::prelude::*;

verus! {

/// Failures surfaced by indexing and search.
#[derive(Debug)]
pub enum MemoryError {
    /// The embedding model failed to load or run.
    ModelUnavailable(String),
    /// The underlying database could not be opened, read or written, or
    /// holds rows the index cannot interpret.
    StoreUnavailable(String),
    /// A single memory file could not be read.
    FileReadError(String),
}

impl MemoryError {
    /// A short human-readable description.
    pub fn describe(&self) -> (r: &str)
        ensures
            (self is ModelUnavailable ==> r@ == self->ModelUnavailable_0@),
            (self is StoreUnavailable ==> r@ == self->StoreUnavailable_0@),
            (self is FileReadError ==> r@ == self->FileReadError_0@),
    {
        match self {
            MemoryError::ModelUnavailable(m) => m.as_str(),
            MemoryError::StoreUnavailable(m) => m.as_str(),
            MemoryError::FileReadError(m) => m.as_str(),
        }
    }
}

} // verus!
