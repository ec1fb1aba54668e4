use vstd::prelude::*;

verus! {

/// Why a text is not accepted.
#[derive(Clone, Copy, Debug, PartialEq, Eq, Structural)]
pub enum Error {
    /// A malformed or truncated UTF-8 sequence.
    InvalidEncoding,
    /// A path segment with characters outside its grammar.
    InvalidSegment,
    /// A fragment with characters outside its grammar.
    InvalidFragment,
    /// The text as a whole is no IRI reference.
    InvalidIriRef,
}

} // verus!
