use vstd::prelude::*;

verus! {

/// Errors raised by the validating constructors of the journal model.
#[derive(Clone, Copy, Debug, PartialEq, Eq, Structural)]
pub enum ModelError {
    /// An empty string was given where prose (at least one grapheme cluster)
    /// is required.
    InvalidProse,
    /// An identifier was empty after trimming surrounding whitespace.
    InvalidIdentifier,
    /// A string could not be parsed as a URL.
    InvalidUrl,
    /// A non-empty sequence was asked to hold zero elements.
    EmptySequence,
    /// An entry was inserted under an id the journal already holds.
    DuplicateEntryId,
}

} // verus!
