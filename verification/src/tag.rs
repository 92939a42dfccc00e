//! A typed CBOR tag wrapper, and the access state machine that feeds a tag
//! number and its inner value to a data-model visitor one element at a time.

use vstd::prelude::*;

verus! {

/// A CBOR tag: the tag number, and the value it annotates.
#[derive(Copy, Clone, Debug, Hash, PartialEq, Eq)]
pub struct Tag<V>(pub u64, pub V);

impl<V> Tag<V> {
    /// The tag number.
    pub fn number(&self) -> (r: u64)
        ensures
            r == self.0,
    {
        self.0
    }

    /// The tagged value.
    pub fn inner(&self) -> (r: &V)
        ensures
            r == &self.1,
    {
        &self.1
    }
}

/// The walk through a decoded tag: the variant marker, then the tag number,
/// then the inner item read from the parent decoder.
pub struct TagAccess<D> {
    /// The parent decoder, consumed by the inner item.
    pub parent: Option<D>,
    /// The tag number, consumed after the marker.
    pub tagval: Option<u64>,
    /// Whether the variant marker is still to be handed out.
    pub marker: bool,
}

impl<D> TagAccess<D> {
    /// Starts the walk at the variant marker.
    pub fn new(parent: D, tagval: u64) -> (r: TagAccess<D>)
        ensures
            r.parent == Some(parent),
            r.tagval == Some(tagval),
            r.marker,
    {
        TagAccess { parent: Some(parent), tagval: Some(tagval), marker: true }
    }
}

} // verus!
