//! An abstract integer value.

use vstd::prelude::*;

verus! {

/// An integer expressible as a plain CBOR integer item, without resort to
/// the big-integer tags: a value in `[-2^64, 2^64 - 1]`.
#[derive(Copy, Clone, Debug, Hash, PartialEq, Eq)]
pub struct Integer(pub(crate) i128);

/// The raw field a CBOR integer item carries for `v`: the value itself when
/// non-negative, `-1 - v` otherwise.
pub open spec fn spec_int_field(v: int) -> int {
    if v >= 0 {
        v
    } else {
        -1 - v
    }
}

impl Integer {
    /// The value held, as a mathematical integer.
    pub closed spec fn spec_value(self) -> int {
        self.0 as int
    }

    /// The value lies in the range CBOR integer items cover.
    pub open spec fn wf(self) -> bool {
        -0x10000000000000000 <= self.spec_value() < 0x10000000000000000
    }

    /// Wraps an unsigned 64-bit value.
    pub fn from_u64(value: u64) -> (r: Integer)
        ensures
            r.spec_value() == value,
            r.wf(),
    {
        Integer(value as i128)
    }

    /// Wraps a signed 64-bit value.
    pub fn from_i64(value: i64) -> (r: Integer)
        ensures
            r.spec_value() == value,
            r.wf(),
    {
        Integer(value as i128)
    }

    /// Wraps a 128-bit value when it lies in the range CBOR integer items
    /// cover, and refuses it otherwise.
    pub fn try_from_i128(value: i128) -> (r: Option<Integer>)
        ensures
            if -0x10000000000000000 <= value < 0x10000000000000000 {
                r matches Some(i) && i.spec_value() == value && i.wf()
            } else {
                r is None
            },
    {
        if -0x10000000000000000 <= value && value < 0x10000000000000000 {
            Some(Integer(value))
        } else {
            None
        }
    }

    /// Wraps an unsigned 128-bit value when it fits in 64 bits, and refuses
    /// it otherwise.
    pub fn try_from_u128(value: u128) -> (r: Option<Integer>)
        ensures
            if value < 0x10000000000000000 {
                r matches Some(i) && i.spec_value() == value && i.wf()
            } else {
                r is None
            },
    {
        if value < 0x10000000000000000 {
            Some(Integer(value as i128))
        } else {
            None
        }
    }

    /// The value held.
    pub fn value(&self) -> (r: i128)
        ensures
            r == self.spec_value(),
    {
        self.0
    }

    /// The value held, as unsigned, when non-negative.
    pub fn try_to_u128(&self) -> (r: Option<u128>)
        ensures
            if self.spec_value() >= 0 {
                r matches Some(u) && u == self.spec_value()
            } else {
                r is None
            },
    {
        if self.0 >= 0 {
            Some(self.0 as u128)
        } else {
            None
        }
    }

    /// Compares two integers in the canonical key order of RFC 7049: first
    /// by the length of their encodings, then bytewise. Since the first
    /// encoded byte holds the major type, all positive integers of a given
    /// width sort before the negative integers of that width.
    pub fn canonical_cmp(&self, other: &Integer) -> (r: core::cmp::Ordering)
        requires
            self.wf(),
            other.wf(),
        ensures
            r == spec_integer_canonical_cmp(self.spec_value(), other.spec_value()),
    {
        let la = encoded_len_of_field(field_of(self.0));
        let lb = encoded_len_of_field(field_of(other.0));
        if la != lb {
            if la < lb {
                core::cmp::Ordering::Less
            } else {
                core::cmp::Ordering::Greater
            }
        } else {
            let sa: u8 = if self.0 >= 0 {
                0
            } else {
                1
            };
            let sb: u8 = if other.0 >= 0 {
                0
            } else {
                1
            };
            if sa != sb {
                if sa < sb {
                    core::cmp::Ordering::Less
                } else {
                    core::cmp::Ordering::Greater
                }
            } else {
                let fa = field_of(self.0);
                let fb = field_of(other.0);
                if fa < fb {
                    core::cmp::Ordering::Less
                } else if fa == fb {
                    core::cmp::Ordering::Equal
                } else {
                    core::cmp::Ordering::Greater
                }
            }
        }
    }
}

/// The raw field of an integer, as a 64-bit value.
fn field_of(v: i128) -> (r: u64)
    requires
        -0x10000000000000000 <= v < 0x10000000000000000,
    ensures
        r == spec_int_field(v as int),
{
    if v >= 0 {
        v as u64
    } else {
        (-1 - v) as u64
    }
}

/// How many bytes the integer item with raw field `f` occupies.
pub open spec fn spec_encoded_len_of_field(f: int) -> int {
    if f < 24 {
        1
    } else if f < 0x100 {
        2
    } else if f < 0x10000 {
        3
    } else if f < 0x100000000 {
        5
    } else {
        9
    }
}

/// Returns how many bytes the integer item with raw field `f` occupies.
fn encoded_len_of_field(f: u64) -> (r: usize)
    ensures
        r == spec_encoded_len_of_field(f as int),
{
    if f < 24 {
        1
    } else if f < 0x100 {
        2
    } else if f < 0x10000 {
        3
    } else if f < 0x100000000 {
        5
    } else {
        9
    }
}

/// The canonical key order on integers: by encoded length, then by the
/// major type (non-negative first), then by the raw field.
pub open spec fn spec_integer_canonical_cmp(a: int, b: int) -> core::cmp::Ordering {
    let la = spec_encoded_len_of_field(spec_int_field(a));
    let lb = spec_encoded_len_of_field(spec_int_field(b));
    if la < lb {
        core::cmp::Ordering::Less
    } else if la > lb {
        core::cmp::Ordering::Greater
    } else if a >= 0 && b < 0 {
        core::cmp::Ordering::Less
    } else if a < 0 && b >= 0 {
        core::cmp::Ordering::Greater
    } else if spec_int_field(a) < spec_int_field(b) {
        core::cmp::Ordering::Less
    } else if spec_int_field(a) == spec_int_field(b) {
        core::cmp::Ordering::Equal
    } else {
        core::cmp::Ordering::Greater
    }
}

} // verus!
