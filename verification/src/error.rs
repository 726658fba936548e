//! The failures that the library reports.
use vstd::prelude::*;

verus! {

/// A failure of the search library.
#[derive(Debug, Clone, Copy, PartialEq, Eq, Structural)]
pub enum SearchError {
    /// The embedding model could not be made ready.
    ModelUnavailable,
    /// The floating-point kernel returned a vector of this length, which is
    /// not the embedding dimension.
    Dimension(usize),
    /// The tags of a record could not be written as a JSON array.
    TagsNotEncodable,
}

} // verus!
