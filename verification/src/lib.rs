//! Low-level and dynamic-value utilities for working with CBOR (RFC 8949).
//!
//! The crate is organised in three layers:
//!
//!   * the wire codec (`maj`, `min`, `tit`, `hdr`, `enc`, `dec`, `seg`):
//!     encoding and decoding of single CBOR item headers and chunked
//!     byte/text payloads;
//!   * the dynamic value model (`value`): a tagged union mirroring the CBOR
//!     data model, with conversions to and from item streams;
//!   * deterministic encoding (`canonical`, `ser`): map-key sorting per
//!     RFC 7049 or RFC 8949.
//!
//! Decoding materializes a whole item tree as a `Value` before any of it is
//! handed out, so its memory use is proportional to the decoded item rather
//! than to a fixed scratch buffer.

use vstd::prelude::*;

pub mod canonical;
pub mod de;
mod dec;
mod enc;
mod flt;
mod hdr;
mod imm;
mod io;
mod maj;
mod min;
mod pre;
mod seg;
pub mod ser;
pub mod simple;
pub mod tag;
mod tit;
pub mod value;

pub use dec::{Decoder, Error};
pub use enc::Encoder;
pub use flt::{f16_to_f64, f32_to_f64, f64_to_f16, f64_to_f32};
pub use io::{EndOfFile, Infallible, OutOfSpace};
pub use simple::{SimpleType, SimpleTypeAccess};
pub use tag::{Tag, TagAccess};
pub use value::Value;
pub use value::bytes::Bytes;
pub use value::float::{Float, TryFromFloatError};
pub use value::integer::Integer;
pub use canonical::{Canonicalization, CanonicalizationScheme, NoCanonicalization, Rfc7049, Rfc8949};
pub use hdr::Header;
pub use imm::Immediate;
pub use maj::Major;
pub use min::Minor;
pub use pre::Prefix;
pub use seg::{SegState, Segment, Segments};
pub use tit::Title;

verus! {

/// The simple value encoding the boolean `false`.
pub const SIMPLE_FALSE: u8 = 20;

/// The simple value encoding the boolean `true`.
pub const SIMPLE_TRUE: u8 = 21;

/// The simple value encoding `null`.
pub const SIMPLE_NULL: u8 = 22;

/// The simple value encoding `undefined`.
pub const SIMPLE_UNDEFINED: u8 = 23;

/// The tag marking a positive big integer (a byte string holding the
/// big-endian magnitude).
pub const TAG_BIGPOS: u64 = 2;

/// The tag marking a negative big integer (a byte string holding the
/// big-endian magnitude of `-1 - value`).
pub const TAG_BIGNEG: u64 = 3;

} // verus!
