//! A wrapper marking a byte vector as a CBOR byte string.

use vstd::prelude::*;

verus! {

/// An abstract representation for bytes.
///
/// The wrapper distinguishes a byte string from a plain vector, so that the
/// serialization bridges can emit it as a CBOR byte string rather than an
/// array of small integers.
#[derive(Clone, Debug, Hash, PartialEq, Eq)]
pub struct Bytes<T>(pub T);

impl<T> Bytes<T> {
    /// Creates a new `Bytes` instance.
    pub fn new(value: T) -> (r: Bytes<T>)
        ensures
            r.0 == value,
    {
        Bytes(value)
    }

    /// Returns the wrapped value.
    pub fn get(&self) -> (r: &T)
        ensures
            r == &self.0,
    {
        &self.0
    }

    /// Unwraps the value.
    pub fn into_inner(self) -> (r: T)
        ensures
            r == self.0,
    {
        self.0
    }
}

} // verus!
