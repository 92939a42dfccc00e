//! The title of a CBOR item: its major type and minor field, which together
//! determine the prefix byte and the affix bytes.

use vstd::prelude::*;
use crate::maj::Major;
use crate::min::Minor;

verus! {

/// The wire-level header of one CBOR item, before semantic interpretation.
#[derive(Copy, Clone, Debug, PartialEq, Eq)]
pub struct Title(pub Major, pub Minor);

impl Title {
    /// A structurally valid title.
    pub open spec fn wf(self) -> bool {
        self.1.wf()
    }

    /// The prefix byte: the major type in the top three bits, the minor
    /// selector in the bottom five.
    pub open spec fn spec_prefix_byte(self) -> u8 {
        (self.0.spec_bits() * 32 + self.1.spec_bits()) as u8
    }

    /// The full wire encoding: prefix byte, then affix bytes.
    pub open spec fn spec_bytes(self) -> Seq<u8> {
        seq![self.spec_prefix_byte()] + self.1.spec_affix()
    }

    /// Appends the wire encoding of this title to `out`.
    pub fn write(&self, out: &mut Vec<u8>)
        requires
            self.wf(),
        ensures
            final(out)@ == old(out)@ + self.spec_bytes(),
    {
        let b: u8 = self.0.bits() * 32 + self.1.bits();
        out.push(b);
        self.1.push_affix(out);
        assert(out@ =~= old(out)@ + self.spec_bytes());
    }
}

} // verus!
