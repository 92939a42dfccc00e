//! Errors of the byte sources and sinks that the codec runs on.

use vstd::prelude::*;

verus! {

/// An error indicating there are no more bytes to read.
#[derive(Copy, Clone, Debug, PartialEq, Eq, Structural)]
pub struct EndOfFile;

/// An error indicating that the output cannot accept more bytes.
#[derive(Copy, Clone, Debug, PartialEq, Eq, Structural)]
pub struct OutOfSpace;

/// The error of a sink that cannot fail, such as a growable vector: no
/// function of this crate ever returns it.
#[derive(Copy, Clone, Debug, PartialEq, Eq, Structural)]
pub struct Infallible;

} // verus!
