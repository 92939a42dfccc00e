//! An abstract floating point value, carried as its bit pattern.

use vstd::prelude::*;
use crate::flt::{f64_to_f32, spec_f64_to_f32};

verus! {

/// An error that occurred while converting between floating point widths.
#[derive(Copy, Clone, Debug, PartialEq, Eq, Structural)]
pub struct TryFromFloatError;

/// A floating point value, as the bits of its IEEE 754 binary64 form.
///
/// Equality is defined on the bit pattern: every NaN equals itself, and the
/// two signed zeros differ.
#[derive(Copy, Clone, Debug, Hash, PartialEq, Eq, Structural)]
pub struct Float(pub u64);

/// Whether a binary64 bit pattern denotes a NaN.
pub open spec fn spec_is_nan(bits: u64) -> bool {
    ((bits as int) / 0x10000000000000) % 0x800 == 0x7ff && (bits as int) % 0x10000000000000 != 0
}

/// The order on floats: NaN is greatest and equal to every NaN; the two
/// zeros are equal; otherwise the numeric order of the denoted values.
pub open spec fn spec_float_cmp(a: u64, b: u64) -> core::cmp::Ordering {
    if spec_is_nan(a) && spec_is_nan(b) {
        core::cmp::Ordering::Equal
    } else if spec_is_nan(a) {
        core::cmp::Ordering::Greater
    } else if spec_is_nan(b) {
        core::cmp::Ordering::Less
    } else {
        let za = (a as int) % 0x8000000000000000 == 0;
        let zb = (b as int) % 0x8000000000000000 == 0;
        let sa = (a as int) / 0x8000000000000000;
        let sb = (b as int) / 0x8000000000000000;
        if za && zb {
            core::cmp::Ordering::Equal
        } else if sa != sb {
            if sa > sb {
                core::cmp::Ordering::Less
            } else {
                core::cmp::Ordering::Greater
            }
        } else if sa == 0 {
            if (a as int) < b {
                core::cmp::Ordering::Less
            } else if a == b {
                core::cmp::Ordering::Equal
            } else {
                core::cmp::Ordering::Greater
            }
        } else {
            if (a as int) < b {
                core::cmp::Ordering::Greater
            } else if a == b {
                core::cmp::Ordering::Equal
            } else {
                core::cmp::Ordering::Less
            }
        }
    }
}

impl Float {
    /// Wraps the bits of a binary64 float.
    pub fn from_bits(bits: u64) -> (r: Float)
        ensures
            r.0 == bits,
    {
        Float(bits)
    }

    /// The bits of the binary64 form.
    pub fn bits(&self) -> (r: u64)
        ensures
            r == self.0,
    {
        self.0
    }

    /// Narrows to the bits of a binary32 float, when that loses nothing.
    pub fn try_to_f32_bits(&self) -> (r: Result<u32, TryFromFloatError>)
        ensures
            match spec_f64_to_f32(self.0) {
                Some(w) => r == Ok::<u32, TryFromFloatError>(w),
                None => r == Err::<u32, TryFromFloatError>(TryFromFloatError),
            },
    {
        match f64_to_f32(self.0) {
            Some(w) => Ok(w),
            None => Err(TryFromFloatError),
        }
    }

    /// Whether the value is a NaN.
    pub fn is_nan(&self) -> (r: bool)
        ensures
            r == spec_is_nan(self.0),
    {
        (self.0 / 0x10000000000000) % 0x800 == 0x7ff && self.0 % 0x10000000000000 != 0
    }

    /// Compares two floats, with every NaN equal to every NaN and greater
    /// than every number, and the two zeros equal.
    pub fn cmp(&self, rhs: &Float) -> (r: core::cmp::Ordering)
        ensures
            r == spec_float_cmp(self.0, rhs.0),
    {
        let an = self.is_nan();
        let bn = rhs.is_nan();
        if an && bn {
            core::cmp::Ordering::Equal
        } else if an {
            core::cmp::Ordering::Greater
        } else if bn {
            core::cmp::Ordering::Less
        } else {
            let za = self.0 % 0x8000000000000000 == 0;
            let zb = rhs.0 % 0x8000000000000000 == 0;
            let sa = self.0 / 0x8000000000000000;
            let sb = rhs.0 / 0x8000000000000000;
            if za && zb {
                core::cmp::Ordering::Equal
            } else if sa != sb {
                if sa > sb {
                    core::cmp::Ordering::Less
                } else {
                    core::cmp::Ordering::Greater
                }
            } else if sa == 0 {
                if self.0 < rhs.0 {
                    core::cmp::Ordering::Less
                } else if self.0 == rhs.0 {
                    core::cmp::Ordering::Equal
                } else {
                    core::cmp::Ordering::Greater
                }
            } else {
                if self.0 < rhs.0 {
                    core::cmp::Ordering::Greater
                } else if self.0 == rhs.0 {
                    core::cmp::Ordering::Equal
                } else {
                    core::cmp::Ordering::Less
                }
            }
        }
    }
}

} // verus!
