//! Immediate values: arguments small enough to live in the five-bit minor
//! field itself.

use vstd::prelude::*;

verus! {

/// An argument in the immediate range 0 to 23.
#[derive(Copy, Clone, Debug, PartialEq, Eq, Structural)]
pub struct Immediate(pub u8);

impl Immediate {
    /// The immediate range never reaches the width selectors.
    pub open spec fn wf(self) -> bool {
        self.0 < 24
    }

    /// The value held.
    pub open spec fn spec_value(self) -> u8 {
        self.0
    }

    /// Wraps a value if it lies in the immediate range.
    pub fn new(value: u64) -> (r: Option<Immediate>)
        ensures
            value < 24 ==> r == Some(Immediate { 0: value as u8 }),
            value >= 24 ==> r is None,
    {
        if value < 24 {
            Some(Immediate(value as u8))
        } else {
            None
        }
    }

    /// Returns the value held.
    pub fn get(&self) -> (r: u8)
        ensures
            r == self.0,
    {
        self.0
    }
}

} // verus!
