//! The failures that the operations of this library report.

use vstd::prelude::*;

verus! {

/// Why an operation did not take place. Whenever one of these is
/// returned, nothing was changed.
#[derive(Debug, PartialEq, Eq)]
pub enum CoreError {
    /// No node of the tree has the identifier that was given.
    NodeNotFound,
    /// The root of a tree cannot be removed.
    CannotRemoveRoot,
    /// The bytes are not the encoding of a bot definition.
    CorruptData,
    /// An asset could not be loaded, for the reason given.
    AssetLoadError(String),
    /// A frame replacement may only be queued alone.
    InvalidEventSequence,
}

} // verus!
