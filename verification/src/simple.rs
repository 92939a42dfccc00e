//! Helper types for dealing with CBOR simple values.

use vstd::prelude::*;

verus! {

/// A CBOR simple value.
///
/// The reserved identifiers 20 to 23 encode false, true, null and undefined;
/// the remaining single-byte and two-byte identifiers are opaque.
#[derive(Copy, Clone, Debug, PartialEq, Eq, Hash, Structural)]
pub struct SimpleType(pub u8);

impl SimpleType {
    /// The identifier held.
    pub fn get(&self) -> (r: u8)
        ensures
            r == self.0,
    {
        self.0
    }
}

/// The walk through a decoded simple value: the variant marker, then the
/// identifier itself.
pub struct SimpleTypeAccess<D> {
    /// The parent decoder.
    pub parent: Option<D>,
    /// How many elements have been handed out.
    pub state: usize,
    /// The identifier.
    pub typ: u8,
}

impl<D> SimpleTypeAccess<D> {
    /// Starts the walk at the variant marker.
    pub fn new(parent: D, typ: u8) -> (r: SimpleTypeAccess<D>)
        ensures
            r.parent == Some(parent),
            r.state == 0,
            r.typ == typ,
    {
        SimpleTypeAccess { parent: Some(parent), state: 0, typ }
    }
}

} // verus!
