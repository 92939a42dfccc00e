//! The prefix: the single first byte of a CBOR item.

use vstd::prelude::*;
use crate::tit::Title;

verus! {

/// An opaque type representing the first byte of a CBOR item.
#[derive(Copy, Clone, Debug, Default, PartialEq, Eq, Structural)]
pub struct Prefix(pub u8);

impl Prefix {
    /// Builds the prefix byte of a title.
    pub fn of_title(title: &Title) -> (r: Prefix)
        requires
            title.wf(),
        ensures
            r.0 == title.spec_prefix_byte(),
    {
        Prefix(title.0.bits() * 32 + title.1.bits())
    }

    /// Returns the byte itself.
    pub fn byte(&self) -> (r: u8)
        ensures
            r == self.0,
    {
        self.0
    }
}

} // verus!
