//! The major type of a CBOR item: the top three bits of its first byte.

use vstd::prelude::*;

verus! {

/// The eight major categories of a CBOR item.
#[derive(Copy, Clone, Debug, PartialEq, Eq, Structural)]
pub enum Major {
    /// An unsigned integer.
    Positive,
    /// A negative integer, stored as `-1 - x`.
    Negative,
    /// A byte string.
    Bytes,
    /// A UTF-8 text string.
    Text,
    /// An array of items.
    Array,
    /// A map of item pairs.
    Mapping,
    /// A tag annotating the next item.
    Tag,
    /// Simple values, floats and the `break` marker.
    Other,
}

impl Major {
    /// The three-bit encoding of this major type.
    pub open spec fn spec_bits(self) -> u8 {
        match self {
            Major::Positive => 0,
            Major::Negative => 1,
            Major::Bytes => 2,
            Major::Text => 3,
            Major::Array => 4,
            Major::Mapping => 5,
            Major::Tag => 6,
            Major::Other => 7,
        }
    }

    /// The major type selected by the top three bits of a prefix byte.
    pub open spec fn spec_of_byte(byte: u8) -> Major {
        match byte / 32 {
            0 => Major::Positive,
            1 => Major::Negative,
            2 => Major::Bytes,
            3 => Major::Text,
            4 => Major::Array,
            5 => Major::Mapping,
            6 => Major::Tag,
            _ => Major::Other,
        }
    }

    /// Reads the major type out of the top three bits of a prefix byte.
    pub fn of_byte(byte: u8) -> (r: Major)
        ensures
            r == Major::spec_of_byte(byte),
    {
        match byte / 32 {
            0 => Major::Positive,
            1 => Major::Negative,
            2 => Major::Bytes,
            3 => Major::Text,
            4 => Major::Array,
            5 => Major::Mapping,
            6 => Major::Tag,
            _ => Major::Other,
        }
    }

    /// Returns the three-bit encoding of this major type.
    pub fn bits(self) -> (r: u8)
        ensures
            r == self.spec_bits(),
    {
        match self {
            Major::Positive => 0,
            Major::Negative => 1,
            Major::Bytes => 2,
            Major::Text => 3,
            Major::Array => 4,
            Major::Mapping => 5,
            Major::Tag => 6,
            Major::Other => 7,
        }
    }
}

} // verus!
