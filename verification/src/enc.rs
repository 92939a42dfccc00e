//! The encoder: writes item headers and raw payload bytes into a growing
//! byte vector.

use vstd::prelude::*;
use crate::hdr::Header;

verus! {

/// An encoder of CBOR items, backed by a byte vector that cannot fail.
///
/// `encode` writes one header. For byte and text strings it writes only the
/// header: the caller follows up with `write_all` for the payload. For
/// indefinite-length containers the caller later encodes `Header::Break`.
#[derive(Debug)]
pub struct Encoder {
    /// The bytes written so far.
    pub bytes: Vec<u8>,
}

impl View for Encoder {
    type V = Seq<u8>;

    open spec fn view(&self) -> Seq<u8> {
        self.bytes@
    }
}

impl Encoder {
    /// Creates an empty encoder.
    pub fn new() -> (r: Encoder)
        ensures
            r@ == Seq::<u8>::empty(),
    {
        Encoder { bytes: Vec::new() }
    }

    /// Writes the wire form of one header.
    pub fn encode(&mut self, header: &Header)
        ensures
            final(self)@ == old(self)@ + header.spec_bytes(),
    {
        let title = header.title();
        title.write(&mut self.bytes);
    }

    /// Writes raw payload bytes.
    pub fn write_all(&mut self, data: &[u8])
        ensures
            final(self)@ == old(self)@ + data@,
    {
        let mut i: usize = 0;
        while i < data.len()
            invariant
                i <= data@.len(),
                self.bytes@ == old(self).bytes@ + data@.take(i as int),
            decreases data@.len() - i,
        {
            self.bytes.push(data[i]);
            assert(self.bytes@ =~= old(self).bytes@ + data@.take(i + 1 as int));
            i = i + 1;
        }
        assert(self.bytes@ =~= old(self).bytes@ + data@);
    }

    /// Hands out the bytes written.
    pub fn into_vec(self) -> (r: Vec<u8>)
        ensures
            r@ == self@,
    {
        self.bytes
    }
}

} // verus!
