//! The error of serialization.

use vstd::prelude::*;

verus! {

/// An error occurred during serialization.
#[derive(Debug, PartialEq, Eq)]
pub enum Error<T> {
    /// An error occurred while writing bytes.
    Io(T),
    /// A value cannot be serialized; holds a description of the problem.
    Value(String),
}

} // verus!
