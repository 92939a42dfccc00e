//! The error of deserialization.

use vstd::prelude::*;

verus! {

/// An error occurred during deserialization.
#[derive(Debug, PartialEq, Eq)]
pub enum Error<T> {
    /// An error occurred while reading bytes.
    Io(T),
    /// A malformed item began at the given offset into the stream.
    Syntax(usize),
    /// A well-formed but unacceptable item: holds the offset of the item
    /// when one is known, and a description.
    Semantic(Option<usize>, String),
    /// More nested arrays and maps than the recursion limit allows.
    RecursionLimitExceeded,
}

impl<T> Error<T> {
    /// Composes a semantic error.
    pub fn semantic(offset: Option<usize>, msg: String) -> (r: Error<T>)
        ensures
            r == Error::<T>::Semantic(offset, msg),
    {
        Error::Semantic(offset, msg)
    }
}

} // verus!
