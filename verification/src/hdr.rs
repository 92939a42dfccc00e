//! The semantic header of a CBOR item, and its conversions to and from the
//! wire-level title.

use vstd::prelude::*;
use crate::maj::Major;
use crate::min::{be_val, lemma_be_val_2, lemma_be_val_4, lemma_be_val_8, lemma_minor_for_u64_value,
    Minor};
use crate::tit::Title;
use crate::flt::{f16_to_f64, f32_to_f64, f64_to_f16, f64_to_f32, spec_f16_to_f64, spec_f32_to_f64,
    spec_f64_to_f16, spec_f64_to_f32};

verus! {

/// The semantic view of one CBOR item header.
///
/// A float is carried as the bit pattern of its IEEE 754 binary64 form; the
/// width written on the wire is chosen at encode time. A length of `None`
/// means an indefinite-length item, terminated by `Break`.
#[derive(Copy, Clone, Debug, PartialEq, Eq)]
pub enum Header {
    /// An unsigned integer.
    Positive(u64),
    /// A negative integer holding the raw field `x`; the value is `-1 - x`.
    Negative(u64),
    /// A float, as the bits of its binary64 form.
    Float(u64),
    /// A simple value.
    Simple(u8),
    /// A tag annotating the next item.
    Tag(u64),
    /// The terminator of an indefinite-length container.
    Break,
    /// A byte string of the given length, or indefinite.
    Bytes(Option<usize>),
    /// A text string of the given length, or indefinite.
    Text(Option<usize>),
    /// An array of the given number of items, or indefinite.
    Array(Option<usize>),
    /// A map of the given number of pairs, or indefinite.
    Mapping(Option<usize>),
}

/// The big-endian bytes of a 16-bit value.
pub open spec fn spec_be2(v: u16) -> [u8; 2] {
    [(((v as int) / 0x100) % 0x100) as u8, ((v as int) % 0x100) as u8]
}

/// The big-endian bytes of a 32-bit value.
pub open spec fn spec_be4(v: u32) -> [u8; 4] {
    [
        (((v as int) / 0x1000000) % 0x100) as u8,
        (((v as int) / 0x10000) % 0x100) as u8,
        (((v as int) / 0x100) % 0x100) as u8,
        ((v as int) % 0x100) as u8,
    ]
}

/// The big-endian bytes of a 64-bit value.
pub open spec fn spec_be8(v: u64) -> [u8; 8] {
    [
        (((v as int) / 0x100000000000000) % 0x100) as u8,
        (((v as int) / 0x1000000000000) % 0x100) as u8,
        (((v as int) / 0x10000000000) % 0x100) as u8,
        (((v as int) / 0x100000000) % 0x100) as u8,
        (((v as int) / 0x1000000) % 0x100) as u8,
        (((v as int) / 0x10000) % 0x100) as u8,
        (((v as int) / 0x100) % 0x100) as u8,
        ((v as int) % 0x100) as u8,
    ]
}

/// The minor encoding a float: the narrowest width whose bit pattern
/// promotes back to `bits` exactly.
pub open spec fn spec_float_minor(bits: u64) -> Minor {
    match spec_f64_to_f16(bits) {
        Some(h) => Minor::Subsequent2(spec_be2(h)),
        None => match spec_f64_to_f32(bits) {
            Some(w) => Minor::Subsequent4(spec_be4(w)),
            None => Minor::Subsequent8(spec_be8(bits)),
        },
    }
}

impl Header {
    /// The title this header encodes to.
    pub open spec fn spec_title(self) -> Title {
        match self {
            Header::Positive(x) => Title(Major::Positive, Minor::spec_for_u64(x)),
            Header::Negative(x) => Title(Major::Negative, Minor::spec_for_u64(x)),
            Header::Bytes(l) => Title(Major::Bytes, Minor::spec_for_length(l)),
            Header::Text(l) => Title(Major::Text, Minor::spec_for_length(l)),
            Header::Array(l) => Title(Major::Array, Minor::spec_for_length(l)),
            Header::Mapping(l) => Title(Major::Mapping, Minor::spec_for_length(l)),
            Header::Tag(x) => Title(Major::Tag, Minor::spec_for_u64(x)),
            Header::Break => Title(Major::Other, Minor::Indeterminate),
            Header::Simple(x) => if x < 24 {
                Title(Major::Other, Minor::Immediate(x))
            } else {
                Title(Major::Other, Minor::Subsequent1([x]))
            },
            Header::Float(bits) => Title(Major::Other, spec_float_minor(bits)),
        }
    }

    /// The wire bytes this header encodes to.
    pub open spec fn spec_bytes(self) -> Seq<u8> {
        self.spec_title().spec_bytes()
    }

    /// Converts this header to the title it encodes to.
    pub fn title(&self) -> (r: Title)
        ensures
            r == self.spec_title(),
            r.wf(),
    {
        proof {
            lemma_title_wf(*self);
        }
        match self {
            Header::Positive(x) => Title(Major::Positive, Minor::for_u64(*x)),
            Header::Negative(x) => Title(Major::Negative, Minor::for_u64(*x)),
            Header::Bytes(l) => Title(Major::Bytes, Minor::for_length(*l)),
            Header::Text(l) => Title(Major::Text, Minor::for_length(*l)),
            Header::Array(l) => Title(Major::Array, Minor::for_length(*l)),
            Header::Mapping(l) => Title(Major::Mapping, Minor::for_length(*l)),
            Header::Tag(x) => Title(Major::Tag, Minor::for_u64(*x)),
            Header::Break => Title(Major::Other, Minor::Indeterminate),
            Header::Simple(x) => if *x < 24 {
                Title(Major::Other, Minor::Immediate(*x))
            } else {
                Title(Major::Other, Minor::Subsequent1([*x]))
            },
            Header::Float(bits) => Title(Major::Other, float_minor(*bits)),
        }
    }

    /// The header a title decodes to, or nothing when the title is
    /// malformed: an indefinite integer or tag, or a reserved two-byte
    /// simple value.
    pub open spec fn spec_of_title(t: Title) -> Option<Header> {
        match t {
            Title(Major::Positive, minor) => match minor.spec_value() {
                Some(x) => Some(Header::Positive(x)),
                None => None,
            },
            Title(Major::Negative, minor) => match minor.spec_value() {
                Some(x) => Some(Header::Negative(x)),
                None => None,
            },
            Title(Major::Tag, minor) => match minor.spec_value() {
                Some(x) => Some(Header::Tag(x)),
                None => None,
            },
            Title(Major::Bytes, minor) => match spec_len_of_minor(minor) {
                Ok(l) => Some(Header::Bytes(l)),
                Err(e) => None,
            },
            Title(Major::Text, minor) => match spec_len_of_minor(minor) {
                Ok(l) => Some(Header::Text(l)),
                Err(e) => None,
            },
            Title(Major::Array, minor) => match spec_len_of_minor(minor) {
                Ok(l) => Some(Header::Array(l)),
                Err(e) => None,
            },
            Title(Major::Mapping, minor) => match spec_len_of_minor(minor) {
                Ok(l) => Some(Header::Mapping(l)),
                Err(e) => None,
            },
            Title(Major::Other, Minor::Indeterminate) => Some(Header::Break),
            Title(Major::Other, Minor::Immediate(x)) => Some(Header::Simple(x)),
            Title(Major::Other, Minor::Subsequent1(a)) => if a[0] < 24 || (28 <= a[0] && a[0]
                <= 31) {
                None
            } else {
                Some(Header::Simple(a[0]))
            },
            Title(Major::Other, Minor::Subsequent2(a)) => Some(
                Header::Float(spec_f16_to_f64(be_val(a@) as u16)),
            ),
            Title(Major::Other, Minor::Subsequent4(a)) => Some(
                Header::Float(spec_f32_to_f64(be_val(a@) as u32)),
            ),
            Title(Major::Other, Minor::Subsequent8(a)) => Some(Header::Float(be_val(a@) as u64)),
        }
    }

    /// Converts a title to the header it decodes to, rejecting malformed
    /// titles.
    pub fn from_title(t: &Title) -> (r: Option<Header>)
        ensures
            r == Header::spec_of_title(*t),
    {
        match t {
            Title(Major::Positive, minor) => match minor.value() {
                Some(x) => Some(Header::Positive(x)),
                None => None,
            },
            Title(Major::Negative, minor) => match minor.value() {
                Some(x) => Some(Header::Negative(x)),
                None => None,
            },
            Title(Major::Tag, minor) => match minor.value() {
                Some(x) => Some(Header::Tag(x)),
                None => None,
            },
            Title(Major::Bytes, minor) => match len_of_minor(minor) {
                Ok(l) => Some(Header::Bytes(l)),
                Err(()) => None,
            },
            Title(Major::Text, minor) => match len_of_minor(minor) {
                Ok(l) => Some(Header::Text(l)),
                Err(()) => None,
            },
            Title(Major::Array, minor) => match len_of_minor(minor) {
                Ok(l) => Some(Header::Array(l)),
                Err(()) => None,
            },
            Title(Major::Mapping, minor) => match len_of_minor(minor) {
                Ok(l) => Some(Header::Mapping(l)),
                Err(()) => None,
            },
            Title(Major::Other, Minor::Indeterminate) => Some(Header::Break),
            Title(Major::Other, Minor::Immediate(x)) => Some(Header::Simple(*x)),
            Title(Major::Other, Minor::Subsequent1(a)) => if a[0] < 24 || (28 <= a[0] && a[0]
                <= 31) {
                None
            } else {
                Some(Header::Simple(a[0]))
            },
            Title(Major::Other, Minor::Subsequent2(a)) => {
                let h: u16 = (a[0] as u16) * 0x100 + (a[1] as u16);
                proof {
                    lemma_be_val_2(a@);
                }
                Some(Header::Float(f16_to_f64(h)))
            },
            Title(Major::Other, Minor::Subsequent4(a)) => {
                let w: u32 = (a[0] as u32) * 0x1000000 + (a[1] as u32) * 0x10000 + (a[2] as u32)
                    * 0x100 + (a[3] as u32);
                proof {
                    lemma_be_val_4(a@);
                }
                Some(Header::Float(f32_to_f64(w)))
            },
            Title(Major::Other, Minor::Subsequent8(a)) => {
                let hi: u64 = (a[0] as u64) * 0x1000000 + (a[1] as u64) * 0x10000 + (a[2] as u64)
                    * 0x100 + (a[3] as u64);
                let lo: u64 = (a[4] as u64) * 0x1000000 + (a[5] as u64) * 0x10000 + (a[6] as u64)
                    * 0x100 + (a[7] as u64);
                proof {
                    lemma_be_val_8(a@);
                }
                Some(Header::Float(hi * 0x100000000 + lo))
            },
        }
    }
}

/// The length carried by a minor: `None` for indefinite, an error when the
/// argument does not fit the platform's `usize`.
pub open spec fn spec_len_of_minor(minor: Minor) -> Result<Option<usize>, ()> {
    match minor.spec_value() {
        None => Ok(None),
        Some(x) => if x <= usize::MAX {
            Ok(Some(x as usize))
        } else {
            Err(())
        },
    }
}

/// Reads a length out of a minor: `None` for indefinite, an error when the
/// argument does not fit `usize`.
fn len_of_minor(minor: &Minor) -> (r: Result<Option<usize>, ()>)
    ensures
        r == spec_len_of_minor(*minor),
{
    match minor.value() {
        None => Ok(None),
        Some(x) => if x <= usize::MAX as u64 {
            Ok(Some(x as usize))
        } else {
            Err(())
        },
    }
}

/// The float minor: the narrowest lossless width.
pub fn float_minor(bits: u64) -> (r: Minor)
    ensures
        r == spec_float_minor(bits),
{
    match f64_to_f16(bits) {
        Some(h) => Minor::Subsequent2([((h / 0x100) % 0x100) as u8, (h % 0x100) as u8]),
        None => match f64_to_f32(bits) {
            Some(w) => Minor::Subsequent4(
                [
                    ((w / 0x1000000) % 0x100) as u8,
                    ((w / 0x10000) % 0x100) as u8,
                    ((w / 0x100) % 0x100) as u8,
                    (w % 0x100) as u8,
                ],
            ),
            None => Minor::Subsequent8(
                [
                    ((bits / 0x100000000000000) % 0x100) as u8,
                    ((bits / 0x1000000000000) % 0x100) as u8,
                    ((bits / 0x10000000000) % 0x100) as u8,
                    ((bits / 0x100000000) % 0x100) as u8,
                    ((bits / 0x1000000) % 0x100) as u8,
                    ((bits / 0x10000) % 0x100) as u8,
                    ((bits / 0x100) % 0x100) as u8,
                    (bits % 0x100) as u8,
                ],
            ),
        },
    }
}

/// Every header encodes to a structurally valid title.
pub proof fn lemma_title_wf(h: Header)
    ensures
        h.spec_title().wf(),
{
    match h {
        Header::Positive(x) => lemma_minor_for_u64_value(x),
        Header::Negative(x) => lemma_minor_for_u64_value(x),
        Header::Tag(x) => lemma_minor_for_u64_value(x),
        Header::Bytes(l) => lemma_length_wf(l),
        Header::Text(l) => lemma_length_wf(l),
        Header::Array(l) => lemma_length_wf(l),
        Header::Mapping(l) => lemma_length_wf(l),
        _ => {},
    }
}

/// The minor of a length is structurally valid.
proof fn lemma_length_wf(l: Option<usize>)
    ensures
        Minor::spec_for_length(l).wf(),
{
    match l {
        None => {},
        Some(x) => lemma_minor_for_u64_value(x as u64),
    }
}

/// Encoding a header and reading the title back yields the same header,
/// for every header that has a wire form: simple values 28 to 31 are the
/// one reserved family.
pub proof fn lemma_header_roundtrip(h: Header)
    requires
        h matches Header::Simple(x) ==> !(28 <= x <= 31),
    ensures
        Header::spec_of_title(h.spec_title()) == Some(h),
{
    match h {
        Header::Positive(x) => lemma_minor_for_u64_value(x),
        Header::Negative(x) => lemma_minor_for_u64_value(x),
        Header::Tag(x) => lemma_minor_for_u64_value(x),
        Header::Bytes(l) => lemma_length_roundtrip(l),
        Header::Text(l) => lemma_length_roundtrip(l),
        Header::Array(l) => lemma_length_roundtrip(l),
        Header::Mapping(l) => lemma_length_roundtrip(l),
        Header::Simple(x) => {},
        Header::Break => {},
        Header::Float(bits) => lemma_float_roundtrip_title(bits),
    }
}

/// A length survives the trip through its minor.
proof fn lemma_length_roundtrip(l: Option<usize>)
    ensures
        spec_len_of_minor(Minor::spec_for_length(l)) == Ok::<Option<usize>, ()>(l),
{
    match l {
        None => {},
        Some(x) => lemma_minor_for_u64_value(x as u64),
    }
}

/// The float minor decodes back to the same bit pattern: narrowing is
/// lossless.
proof fn lemma_float_roundtrip_title(bits: u64)
    ensures
        Header::spec_of_title(Title(Major::Other, spec_float_minor(bits))) == Some(
            Header::Float(bits),
        ),
{
    match spec_f64_to_f16(bits) {
        Some(w) => {
            let a = spec_be2(w);
            lemma_be_val_2(a@);
            assert(((w as int) / 0x100) % 0x100 * 0x100 + (w as int) % 0x100 == w);
            assert(be_val(a@) == w);
            assert(spec_f16_to_f64(w) == bits);
        },
        None => match spec_f64_to_f32(bits) {
            Some(w) => {
                let a = spec_be4(w);
                lemma_be_val_4(a@);
                assert((((w as int) / 0x1000000) % 0x100) * 0x1000000 + (((w as int) / 0x10000)
                    % 0x100) * 0x10000 + (((w as int) / 0x100) % 0x100) * 0x100 + ((w as int)
                    % 0x100) == w) by (bit_vector);
                assert(be_val(a@) == w);
                assert(spec_f32_to_f64(w) == bits);
            },
            None => {
                let a = spec_be8(bits);
                lemma_be_val_8(a@);
                assert((((bits as int) / 0x100000000000000) % 0x100) * 0x1000000 + (((bits as int)
                    / 0x1000000000000) % 0x100) * 0x10000 + (((bits as int) / 0x10000000000)
                    % 0x100) * 0x100 + (((bits as int) / 0x100000000) % 0x100) == (bits as int)
                    / 0x100000000) by (bit_vector);
                assert((((bits as int) / 0x1000000) % 0x100) * 0x1000000 + (((bits as int)
                    / 0x10000) % 0x100) * 0x10000 + (((bits as int) / 0x100) % 0x100) * 0x100 + ((
                bits as int) % 0x100) == (bits as int) % 0x100000000) by (bit_vector);
                assert(be_val(a@) == bits);
            },
        },
    }
}

/// An integer item takes 1, 2, 3, 5 or 9 bytes: the shortest width that
/// holds its raw field.
pub proof fn lemma_shortest_form(v: u64)
    ensures
        Header::Positive(v).spec_bytes().len() == (if v < 24 {
            1int
        } else if v < 0x100 {
            2int
        } else if v < 0x10000 {
            3int
        } else if v < 0x100000000 {
            5int
        } else {
            9int
        }),
        Header::Negative(v).spec_bytes().len() == Header::Positive(v).spec_bytes().len(),
{
}

} // verus!
