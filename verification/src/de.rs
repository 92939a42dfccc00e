//! Deserialization of dynamic values: reading one CBOR item tree from a
//! byte stream.
//!
//! Tags other than the two big-integer tags are skipped, so that dynamic
//! decoding sees through application-level annotations; the big-integer tags
//! fuse with their byte-string payload into an integer. A host that wants to
//! observe a tag opts in through `tagged_from_reader`. Nesting of arrays
//! and maps is bounded by an explicit recursion limit, so that deeply nested
//! input fails cleanly instead of exhausting the stack.

use vstd::prelude::*;

pub mod error;

pub use error::Error;

use crate::dec::{spec_pull, Decoder, PullSpec};
use crate::hdr::Header;
use crate::maj::Major;
use crate::min::be_val;
use crate::tit::Title;
use crate::value::{Value, ValueView};
use crate::value::integer::Integer;
use crate::value::float::Float;
use vstd::string::StringExecFns;
use crate::io::EndOfFile;

verus! {

/// How many levels of arrays and maps a single decode may enter.
pub const RECURSION_LIMIT: usize = 256;

/// The outcome of parsing a piece of a stream at a position: a result and
/// the position just after it, or one of the failure modes.
pub enum Parsed<T> {
    /// Parsed successfully; holds the result and the next position.
    Got(T, int),
    /// The stream ended too early.
    Io,
    /// A malformed item began at the given offset.
    Syntax(int),
    /// A well-formed but unacceptable item; the offset locates it.
    Semantic(int),
    /// More than the allowed number of nested containers.
    TooDeep,
}

/// Reads one header from `data` at `p`: the wire title, promoted.
pub open spec fn spec_pull_header(data: Seq<u8>, p: int) -> Parsed<Header> {
    match spec_pull(data, p) {
        PullSpec::EofPrefix => Parsed::Io,
        PullSpec::EofAffix => Parsed::Io,
        PullSpec::Reserved => Parsed::Syntax(p),
        PullSpec::Got(t, p2) => match Header::spec_of_title(t) {
            Some(h) => Parsed::Got(h, p2 as int),
            None => Parsed::Syntax(p),
        },
    }
}

/// Drops the leading zero bytes of a big-integer magnitude.
pub open spec fn strip_zeros(s: Seq<u8>) -> Seq<u8>
    decreases s.len(),
{
    if s.len() > 0 && s[0] == 0 {
        strip_zeros(s.drop_first())
    } else {
        s
    }
}

/// Whether `k` is the length of the longest prefix of `s` that is valid
/// UTF-8.
pub open spec fn utf8_prefix_spec(s: Seq<u8>, k: int) -> bool {
    &&& 0 <= k <= s.len()
    &&& vstd::utf8::valid_utf8(s.take(k))
    &&& forall|j: int| k < j <= s.len() ==> !vstd::utf8::valid_utf8(s.take(j))
}

/// The length of the longest prefix of `s` that is valid UTF-8.
pub open spec fn utf8_valid_up_to(s: Seq<u8>) -> int {
    choose|k: int| utf8_prefix_spec(s, k)
}

/// The stream offset of payload byte `k` of a string whose payload begins
/// at `p` and whose header carried the length `len`: for a definite length
/// the payload is contiguous; for an indefinite one the byte lies in some
/// chunk.
pub open spec fn spec_chunk_offset(data: Seq<u8>, p: int, len: Option<usize>, k: int) -> int {
    match len {
        Some(_) => p + k,
        None => spec_chunk_offset_indef(data, p, k),
    }
}

/// The stream offset of payload byte `k` of an indefinite-length string
/// whose first chunk header begins at `p`.
pub open spec fn spec_chunk_offset_indef(data: Seq<u8>, p: int, k: int) -> int
    decreases data.len() - p,
{
    match spec_pull_header(data, p) {
        Parsed::Got(h, p2) => if p < p2 <= data.len() {
            match h {
                Header::Bytes(Some(n)) => if k < n {
                    p2 + k
                } else if p2 + n <= data.len() {
                    spec_chunk_offset_indef(data, p2 + n, k - n)
                } else {
                    0
                },
                Header::Text(Some(n)) => if k < n {
                    p2 + k
                } else if p2 + n <= data.len() {
                    spec_chunk_offset_indef(data, p2 + n, k - n)
                } else {
                    0
                },
                _ => 0,
            }
        } else {
            0
        },
        _ => 0,
    }
}

/// The stream offset of payload byte `k`, read off a chunk layout: each
/// layout entry holds the payload index at which a chunk starts and the
/// stream offset of that chunk's payload.
pub open spec fn spec_layout_offset(starts: Seq<(usize, usize)>, k: int) -> int
    decreases starts.len(),
{
    if starts.len() == 0 {
        0
    } else if starts.last().0 <= k {
        starts.last().1 + (k - starts.last().0)
    } else {
        spec_layout_offset(starts.drop_last(), k)
    }
}

/// Parses one item at `p`.
pub open spec fn spec_parse(data: Seq<u8>, p: int, depth: int) -> Parsed<ValueView>
    decreases data.len() - p, 0int, 0int,
{
    match spec_pull_header(data, p) {
        Parsed::Got(h, p2) => if p < p2 <= data.len() {
            spec_parse_with_header(data, h, p, p2, depth)
        } else {
            Parsed::Io
        },
        Parsed::Io => Parsed::Io,
        Parsed::Syntax(o) => Parsed::Syntax(o),
        Parsed::Semantic(o) => Parsed::Semantic(o),
        Parsed::TooDeep => Parsed::TooDeep,
    }
}

/// Parses the body of one item whose header `h` began at `off` and whose
/// payload begins at `p`.
pub open spec fn spec_parse_with_header(
    data: Seq<u8>,
    h: Header,
    off: int,
    p: int,
    depth: int,
) -> Parsed<ValueView>
    decreases data.len() - p, 3int, 0int,
{
    match h {
        Header::Positive(x) => Parsed::Got(ValueView::Integer(x as int), p),
        Header::Negative(x) => Parsed::Got(ValueView::Integer(-1 - x), p),
        Header::Float(bits) => Parsed::Got(ValueView::Float(bits), p),
        Header::Simple(x) => if x == crate::SIMPLE_FALSE {
            Parsed::Got(ValueView::Bool(false), p)
        } else if x == crate::SIMPLE_TRUE {
            Parsed::Got(ValueView::Bool(true), p)
        } else if x == crate::SIMPLE_NULL || x == crate::SIMPLE_UNDEFINED {
            Parsed::Got(ValueView::Null, p)
        } else {
            Parsed::Semantic(off)
        },
        Header::Break => Parsed::Semantic(off),
        Header::Bytes(len) => match spec_chunks(data, p, Major::Bytes, len) {
            Parsed::Got(payload, p2) => Parsed::Got(ValueView::Bytes(payload), p2),
            Parsed::Io => Parsed::Io,
            Parsed::Syntax(o) => Parsed::Syntax(o),
            Parsed::Semantic(o) => Parsed::Semantic(o),
            Parsed::TooDeep => Parsed::TooDeep,
        },
        Header::Text(len) => match spec_chunks(data, p, Major::Text, len) {
            Parsed::Got(payload, p2) => if vstd::utf8::valid_utf8(payload) {
                Parsed::Got(ValueView::Text(vstd::utf8::decode_utf8(payload)), p2)
            } else {
                Parsed::Syntax(spec_chunk_offset(data, p, len, utf8_valid_up_to(payload)))
            },
            Parsed::Io => Parsed::Io,
            Parsed::Syntax(o) => Parsed::Syntax(o),
            Parsed::Semantic(o) => Parsed::Semantic(o),
            Parsed::TooDeep => Parsed::TooDeep,
        },
        Header::Array(len) => if depth <= 0 {
            Parsed::TooDeep
        } else {
            match len {
                Some(n) => spec_parse_items(data, p, depth - 1, n as int, Seq::empty()),
                None => spec_parse_items_indef(data, p, depth - 1, Seq::empty()),
            }
        },
        Header::Mapping(len) => if depth <= 0 {
            Parsed::TooDeep
        } else {
            match len {
                Some(n) => spec_parse_entries(data, p, depth - 1, n as int, Seq::empty()),
                None => spec_parse_entries_indef(data, p, depth - 1, Seq::empty()),
            }
        },
        Header::Tag(t) => if t == crate::TAG_BIGPOS || t == crate::TAG_BIGNEG {
            spec_parse_bigint(data, p, t)
        } else {
            spec_parse(data, p, depth)
        },
    }
}

/// Parses `n` more items of a definite-length array whose earlier items are
/// `acc`.
pub open spec fn spec_parse_items(
    data: Seq<u8>,
    p: int,
    depth: int,
    n: int,
    acc: Seq<ValueView>,
) -> Parsed<ValueView>
    decreases data.len() - p, 2int, n,
{
    if n <= 0 {
        Parsed::Got(ValueView::Array(acc), p)
    } else {
        match spec_parse(data, p, depth) {
            Parsed::Got(v, p2) => if p < p2 <= data.len() {
                spec_parse_items(data, p2, depth, n - 1, acc.push(v))
            } else {
                Parsed::Io
            },
            Parsed::Io => Parsed::Io,
            Parsed::Syntax(o) => Parsed::Syntax(o),
            Parsed::Semantic(o) => Parsed::Semantic(o),
            Parsed::TooDeep => Parsed::TooDeep,
        }
    }
}

/// Parses the rest of an indefinite-length array whose earlier items are
/// `acc`, up to and including the break.
pub open spec fn spec_parse_items_indef(
    data: Seq<u8>,
    p: int,
    depth: int,
    acc: Seq<ValueView>,
) -> Parsed<ValueView>
    decreases data.len() - p, 2int, 0int,
{
    match spec_pull_header(data, p) {
        Parsed::Got(h, p2) => if h == Header::Break {
            Parsed::Got(ValueView::Array(acc), p2)
        } else {
            match spec_parse(data, p, depth) {
                Parsed::Got(v, p3) => if p < p3 <= data.len() {
                    spec_parse_items_indef(data, p3, depth, acc.push(v))
                } else {
                    Parsed::Io
                },
                Parsed::Io => Parsed::Io,
                Parsed::Syntax(o) => Parsed::Syntax(o),
                Parsed::Semantic(o) => Parsed::Semantic(o),
                Parsed::TooDeep => Parsed::TooDeep,
            }
        },
        Parsed::Io => Parsed::Io,
        Parsed::Syntax(o) => Parsed::Syntax(o),
        Parsed::Semantic(o) => Parsed::Semantic(o),
        Parsed::TooDeep => Parsed::TooDeep,
    }
}

/// Parses `n` more entries of a definite-length map whose earlier entries
/// are `acc`.
pub open spec fn spec_parse_entries(
    data: Seq<u8>,
    p: int,
    depth: int,
    n: int,
    acc: Seq<(ValueView, ValueView)>,
) -> Parsed<ValueView>
    decreases data.len() - p, 2int, n,
{
    if n <= 0 {
        Parsed::Got(ValueView::Mapping(acc), p)
    } else {
        match spec_parse(data, p, depth) {
            Parsed::Got(k, p2) => if p < p2 <= data.len() {
                match spec_parse(data, p2, depth) {
                    Parsed::Got(v, p3) => if p2 < p3 <= data.len() {
                        spec_parse_entries(data, p3, depth, n - 1, acc.push((k, v)))
                    } else {
                        Parsed::Io
                    },
                    Parsed::Io => Parsed::Io,
                    Parsed::Syntax(o) => Parsed::Syntax(o),
                    Parsed::Semantic(o) => Parsed::Semantic(o),
                    Parsed::TooDeep => Parsed::TooDeep,
                }
            } else {
                Parsed::Io
            },
            Parsed::Io => Parsed::Io,
            Parsed::Syntax(o) => Parsed::Syntax(o),
            Parsed::Semantic(o) => Parsed::Semantic(o),
            Parsed::TooDeep => Parsed::TooDeep,
        }
    }
}

/// Parses the rest of an indefinite-length map whose earlier entries are
/// `acc`, up to and including the break.
pub open spec fn spec_parse_entries_indef(
    data: Seq<u8>,
    p: int,
    depth: int,
    acc: Seq<(ValueView, ValueView)>,
) -> Parsed<ValueView>
    decreases data.len() - p, 2int, 0int,
{
    match spec_pull_header(data, p) {
        Parsed::Got(h, p2) => if h == Header::Break {
            Parsed::Got(ValueView::Mapping(acc), p2)
        } else {
            match spec_parse(data, p, depth) {
                Parsed::Got(k, p3) => if p < p3 <= data.len() {
                    match spec_parse(data, p3, depth) {
                        Parsed::Got(v, p4) => if p3 < p4 <= data.len() {
                            spec_parse_entries_indef(data, p4, depth, acc.push((k, v)))
                        } else {
                            Parsed::Io
                        },
                        Parsed::Io => Parsed::Io,
                        Parsed::Syntax(o) => Parsed::Syntax(o),
                        Parsed::Semantic(o) => Parsed::Semantic(o),
                        Parsed::TooDeep => Parsed::TooDeep,
                    }
                } else {
                    Parsed::Io
                },
                Parsed::Io => Parsed::Io,
                Parsed::Syntax(o) => Parsed::Syntax(o),
                Parsed::Semantic(o) => Parsed::Semantic(o),
                Parsed::TooDeep => Parsed::TooDeep,
            }
        },
        Parsed::Io => Parsed::Io,
        Parsed::Syntax(o) => Parsed::Syntax(o),
        Parsed::Semantic(o) => Parsed::Semantic(o),
        Parsed::TooDeep => Parsed::TooDeep,
    }
}

/// The payload of a byte or text string whose header named the length
/// `len`: the `len` bytes that follow for a definite length, the
/// concatenation of the definite chunks up to the break for an indefinite
/// one. Chunks must have the major type `maj` and must be definite.
pub open spec fn spec_chunks(
    data: Seq<u8>,
    p: int,
    maj: Major,
    len: Option<usize>,
) -> Parsed<Seq<u8>>
    decreases data.len() - p, 2int, 0int,
{
    match len {
        Some(n) => if p + n <= data.len() {
            Parsed::Got(data.subrange(p, p + n), p + n)
        } else {
            Parsed::Io
        },
        None => spec_chunks_indef(data, p, maj, Seq::empty()),
    }
}

/// The remaining chunks of an indefinite-length string, concatenated onto
/// `acc`.
pub open spec fn spec_chunks_indef(
    data: Seq<u8>,
    p: int,
    maj: Major,
    acc: Seq<u8>,
) -> Parsed<Seq<u8>>
    decreases data.len() - p, 1int, 0int,
{
    match spec_pull_header(data, p) {
        Parsed::Got(h, p2) => if p < p2 <= data.len() {
            match h {
                Header::Break => Parsed::Got(acc, p2),
                Header::Bytes(Some(n)) => if maj == Major::Bytes {
                    if p2 + n <= data.len() {
                        spec_chunks_indef(data, p2 + n, maj, acc + data.subrange(p2, p2 + n))
                    } else {
                        Parsed::Io
                    }
                } else {
                    Parsed::Syntax(p)
                },
                Header::Text(Some(n)) => if maj == Major::Text {
                    if p2 + n <= data.len() {
                        spec_chunks_indef(data, p2 + n, maj, acc + data.subrange(p2, p2 + n))
                    } else {
                        Parsed::Io
                    }
                } else {
                    Parsed::Syntax(p)
                },
                _ => Parsed::Syntax(p),
            }
        } else {
            Parsed::Io
        },
        Parsed::Io => Parsed::Io,
        Parsed::Syntax(o) => Parsed::Syntax(o),
        Parsed::Semantic(o) => Parsed::Semantic(o),
        Parsed::TooDeep => Parsed::TooDeep,
    }
}

/// Parses the byte-string payload of a big-integer tag (`t` is 2 or 3)
/// whose payload item begins at `p`, and fuses it into a value: an integer
/// when the magnitude fits, the canonical tagged form otherwise, and a
/// semantic error when the magnitude passes 16 bytes, or, for the negative
/// tag, would not fit a 128-bit signed integer.
pub open spec fn spec_parse_bigint(data: Seq<u8>, p: int, t: u64) -> Parsed<ValueView>
    decreases data.len() - p, 2int, 0int,
{
    match spec_pull_header(data, p) {
        Parsed::Got(h, p2) => if p < p2 <= data.len() {
            match h {
                Header::Bytes(len) => match spec_chunks(data, p2, Major::Bytes, len) {
                    Parsed::Got(payload, p3) => spec_bigint_value(strip_zeros(payload), t, p, p3),
                    Parsed::Io => Parsed::Io,
                    Parsed::Syntax(o) => Parsed::Syntax(o),
                    Parsed::Semantic(o) => Parsed::Semantic(o),
                    Parsed::TooDeep => Parsed::TooDeep,
                },
                _ => Parsed::Semantic(p),
            }
        } else {
            Parsed::Io
        },
        Parsed::Io => Parsed::Io,
        Parsed::Syntax(o) => Parsed::Syntax(o),
        Parsed::Semantic(o) => Parsed::Semantic(o),
        Parsed::TooDeep => Parsed::TooDeep,
    }
}

/// The value that a big-integer payload with significant bytes `sig` fuses
/// into: an integer when the magnitude fits 64 bits, the canonical tagged
/// form up to 128 bits, and a semantic error at `off` beyond that, or, for
/// the negative tag, when the value would not fit a 128-bit signed integer.
pub open spec fn spec_bigint_value(sig: Seq<u8>, t: u64, off: int, pos: int) -> Parsed<ValueView> {
    if sig.len() > 16 {
        Parsed::Semantic(off)
    } else {
        let raw = be_val(sig);
        if t == crate::TAG_BIGPOS {
            if raw < 0x10000000000000000 {
                Parsed::Got(ValueView::Integer(raw as int), pos)
            } else {
                Parsed::Got(ValueView::Tag(2, Box::new(ValueView::Bytes(sig))), pos)
            }
        } else {
            if raw >= 0x80000000000000000000000000000000 {
                Parsed::Semantic(off)
            } else if raw < 0x10000000000000000 {
                Parsed::Got(ValueView::Integer(-1 - raw), pos)
            } else {
                Parsed::Got(ValueView::Tag(3, Box::new(ValueView::Bytes(sig))), pos)
            }
        }
    }
}

/// What a decoding function must return for a parse outcome: the parsed
/// value on success, the error of the same kind and place otherwise.
pub open spec fn outcome(pr: Parsed<ValueView>, r: Result<Value, Error<EndOfFile>>) -> bool {
    match pr {
        Parsed::Got(view, p) => r matches Ok(v) && v@ == view && v.wf(),
        Parsed::Io => r == Err::<Value, Error<EndOfFile>>(Error::Io(crate::io::EndOfFile)),
        Parsed::Syntax(o) => r matches Err(e) && e matches Error::Syntax(o2) && o2 == o,
        Parsed::Semantic(o) => r matches Err(e) && e matches Error::Semantic(oo, _) && oo matches
            Some(o2) && o2 == o,
        Parsed::TooDeep => r == Err::<Value, Error<EndOfFile>>(Error::RecursionLimitExceeded),
    }
}

/// Relies on `String::from_utf8`: it succeeds exactly on UTF-8 input, and
/// the characters of the result are the decoding of the bytes. On failure
/// it reports, through `Utf8Error::valid_up_to`, the maximum index up to
/// which the input is valid UTF-8; the first invalid byte sits right after
/// that prefix.
#[verifier::external_body]
fn string_from_utf8(v: Vec<u8>) -> (r: Result<String, usize>)
    ensures
        r is Ok <==> vstd::utf8::valid_utf8(v@),
        r matches Ok(s) ==> s@ == vstd::utf8::decode_utf8(v@),
        r matches Err(k) ==> utf8_prefix_spec(v@, k as int),
{
    match String::from_utf8(v) {
        Ok(s) => Ok(s),
        Err(e) => Err(e.utf8_error().valid_up_to()),
    }
}

/// Maps a wire-layer error into a deserialization error.
fn lift_error(e: crate::dec::Error<crate::io::EndOfFile>) -> (r: Error<crate::io::EndOfFile>)
    ensures
        match e {
            crate::dec::Error::Io(x) => r == Error::<crate::io::EndOfFile>::Io(x),
            crate::dec::Error::Syntax(o) => r == Error::<crate::io::EndOfFile>::Syntax(o),
        },
{
    match e {
        crate::dec::Error::Io(x) => Error::Io(x),
        crate::dec::Error::Syntax(o) => Error::Syntax(o),
    }
}

/// Deserializes one CBOR item into a dynamic value.
///
/// The result is exactly what the parsing function `spec_parse` yields on
/// the stream, with the recursion limit applied to nested containers; on
/// success the value is structurally valid.
pub fn from_reader(data: &[u8]) -> (r: Result<Value, Error<crate::io::EndOfFile>>)
    ensures
        outcome(spec_parse(data@, 0, RECURSION_LIMIT as int), r),
{
    let mut dec = Decoder::from(data);
    decode_item(&mut dec, RECURSION_LIMIT)
}

/// Decodes one item at the decoder's position.
fn decode_item(dec: &mut Decoder, depth: usize) -> (r: Result<Value, Error<crate::io::EndOfFile>>)
    requires
        old(dec).wf(),
        old(dec).buffer is None,
    ensures
        final(dec).wf(),
        final(dec).buffer is None,
        final(dec).data@ == old(dec).data@,
        final(dec).offset >= old(dec).offset,
        r is Ok ==> final(dec).offset > old(dec).offset,
        outcome(spec_parse(old(dec).data@, old(dec).offset as int, depth as int), r),
        spec_parse(old(dec).data@, old(dec).offset as int, depth as int) matches Parsed::Got(_, p)
            ==> final(dec).offset == p,
    decreases old(dec).data@.len() - old(dec).offset, 0int,
{
    let off = dec.offset();
    match dec.pull() {
        Err(e) => Err(lift_error(e)),
        Ok(h) => {
            decode_with_header(dec, h, off, depth)
        },
    }
}

/// Decodes the body of one item whose header `h` began at `off` and whose
/// payload starts at the decoder's position.
fn decode_with_header(dec: &mut Decoder, h: Header, off: usize, depth: usize) -> (r: Result<
    Value,
    Error<crate::io::EndOfFile>,
>)
    requires
        old(dec).wf(),
        old(dec).buffer is None,
    ensures
        final(dec).wf(),
        final(dec).buffer is None,
        final(dec).data@ == old(dec).data@,
        final(dec).offset >= old(dec).offset,
        outcome(
            spec_parse_with_header(
                old(dec).data@,
                h,
                off as int,
                old(dec).offset as int,
                depth as int,
            ),
            r,
        ),
        spec_parse_with_header(
            old(dec).data@,
            h,
            off as int,
            old(dec).offset as int,
            depth as int,
        ) matches Parsed::Got(_, p) ==> final(dec).offset == p,
    decreases old(dec).data@.len() - old(dec).offset, 3int,
{
    match h {
        Header::Positive(x) => Ok(Value::Integer(Integer::from_u64(x))),
        Header::Negative(x) => Ok(Value::Integer(Integer::try_from_i128(-1 - (x as i128)).unwrap())),
        Header::Float(bits) => Ok(Value::Float(Float(bits))),
        Header::Simple(x) => {
            if x == crate::SIMPLE_FALSE {
                Ok(Value::Bool(false))
            } else if x == crate::SIMPLE_TRUE {
                Ok(Value::Bool(true))
            } else if x == crate::SIMPLE_NULL || x == crate::SIMPLE_UNDEFINED {
                Ok(Value::Null)
            } else {
                Err(Error::Semantic(Some(off), msg_unknown_simple()))
            }
        },
        Header::Break => Err(Error::Semantic(Some(off), msg_unexpected_break())),
        Header::Bytes(len) => {
            match read_chunks(dec, Major::Bytes, len) {
                Ok((payload, _)) => Ok(Value::Bytes(payload)),
                Err(e) => Err(e),
            }
        },
        Header::Text(len) => {
            let ghost data = dec.data@;
            let ghost p = dec.offset as int;
            match read_chunks(dec, Major::Text, len) {
                Ok((payload, starts)) => {
                    let ghost pv = payload@;
                    match string_from_utf8(payload) {
                        Ok(s) => Ok(Value::Text(s)),
                        Err(k) => {
                            proof {
                                assert(!vstd::utf8::valid_utf8(pv));
                                assert(utf8_prefix_spec(pv, k as int));
                                assert(exists|k2: int| utf8_prefix_spec(pv, k2));
                                let k2 = utf8_valid_up_to(pv);
                                assert(utf8_prefix_spec(pv, k2));
                                if (k as int) < k2 {
                                    assert(!vstd::utf8::valid_utf8(pv.take(k2)));
                                    assert(false);
                                }
                                if k2 < k as int {
                                    assert(!vstd::utf8::valid_utf8(pv.take(k as int)));
                                    assert(false);
                                }
                                assert(k as int == utf8_valid_up_to(pv));
                                assert(k < pv.len()) by {
                                    if k == pv.len() {
                                        assert(pv.take(k as int) =~= pv);
                                    }
                                }
                            }
                            let stream_len = dec.data.len();
                            proof {
                                assert(data.len() == stream_len);
                                assert(spec_layout_offset(starts@, k as int) == spec_chunk_offset(
                                    data,
                                    p,
                                    len,
                                    k as int,
                                ) && 0 <= spec_layout_offset(starts@, k as int) <= data.len());
                            }
                            let off_err = layout_offset(&starts, k);
                            Err(Error::Syntax(off_err))
                        },
                    }
                },
                Err(e) => Err(e),
            }
        },
        Header::Array(len) => {
            if depth == 0 {
                Err(Error::RecursionLimitExceeded)
            } else {
                match len {
                    Some(n) => decode_items(dec, depth - 1, n),
                    None => decode_items_indef(dec, depth - 1),
                }
            }
        },
        Header::Mapping(len) => {
            if depth == 0 {
                Err(Error::RecursionLimitExceeded)
            } else {
                match len {
                    Some(n) => decode_entries(dec, depth - 1, n),
                    None => decode_entries_indef(dec, depth - 1),
                }
            }
        },
        Header::Tag(t) => {
            if t == crate::TAG_BIGPOS || t == crate::TAG_BIGNEG {
                decode_bigint(dec, t)
            } else {
                decode_item(dec, depth)
            }
        },
    }
}

/// Decodes the items of a definite-length array.
#[verifier::loop_isolation(false)]
fn decode_items(dec: &mut Decoder, depth: usize, n: usize) -> (r: Result<
    Value,
    Error<crate::io::EndOfFile>,
>)
    requires
        old(dec).wf(),
        old(dec).buffer is None,
    ensures
        final(dec).wf(),
        final(dec).buffer is None,
        final(dec).data@ == old(dec).data@,
        final(dec).offset >= old(dec).offset,
        outcome(
            spec_parse_items(
                old(dec).data@,
                old(dec).offset as int,
                depth as int,
                n as int,
                Seq::empty(),
            ),
            r,
        ),
        spec_parse_items(
            old(dec).data@,
            old(dec).offset as int,
            depth as int,
            n as int,
            Seq::empty(),
        ) matches Parsed::Got(_, p) ==> final(dec).offset == p,
    decreases old(dec).data@.len() - old(dec).offset, 2int,
{
    let ghost data = dec.data@;
    let ghost p0 = dec.offset as int;
    let mut out: Vec<Value> = Vec::new();
    proof {
        assert(crate::value::views_of(out@) =~= Seq::<ValueView>::empty());
    }
    let mut i: usize = 0;
    while i < n
        invariant
            dec.wf(),
            dec.buffer is None,
            dec.data@ == data,
            i <= n,
            p0 <= dec.offset as int,
            out@.len() == i,
            forall|j: int| 0 <= j < i ==> (#[trigger] out@[j]).wf(),
            spec_parse_items(data, p0, depth as int, n as int, Seq::empty()) == spec_parse_items(
                data,
                dec.offset as int,
                depth as int,
                n - i,
                crate::value::views_of(out@),
            ),
        decreases n - i,
    {
        let ghost pre = dec.offset as int;
        let ghost accv = crate::value::views_of(out@);
        match decode_item(dec, depth) {
            Err(e) => {
                proof {
                    assert(!(spec_parse(data, pre, depth as int) is Got));
                    assert(outcome(spec_parse_items(data, pre, depth as int, n - i, accv), Err(e)));
                }
                return Err(e);
            },
            Ok(v) => {
                proof {
                    assert(crate::value::views_of(out@.push(v)) =~= accv.push(v@));
                    assert(spec_parse(data, pre, depth as int) matches Parsed::Got(vv, pp) && vv
                        == v@ && pp == dec.offset as int);
                    assert(spec_parse_items(data, pre, depth as int, n - i, accv)
                        == spec_parse_items(
                        data,
                        dec.offset as int,
                        depth as int,
                        n - i - 1,
                        accv.push(v@),
                    ));
                }
                out.push(v);
                i = i + 1;
            },
        }
    }
    let ghost ov = out@;
    let r = Value::Array(out);
    proof {
        assert(r@ matches ValueView::Array(s) && s =~= crate::value::views_of(ov));
        assert(r.wf());
    }
    Ok(r)
}

/// Decodes the items of an indefinite-length array, up to the break.
#[verifier::loop_isolation(false)]
fn decode_items_indef(dec: &mut Decoder, depth: usize) -> (r: Result<
    Value,
    Error<crate::io::EndOfFile>,
>)
    requires
        old(dec).wf(),
        old(dec).buffer is None,
    ensures
        final(dec).wf(),
        final(dec).buffer is None,
        final(dec).data@ == old(dec).data@,
        final(dec).offset >= old(dec).offset,
        outcome(
            spec_parse_items_indef(
                old(dec).data@,
                old(dec).offset as int,
                depth as int,
                Seq::empty(),
            ),
            r,
        ),
        spec_parse_items_indef(
            old(dec).data@,
            old(dec).offset as int,
            depth as int,
            Seq::empty(),
        ) matches Parsed::Got(_, p) ==> final(dec).offset == p,
    decreases old(dec).data@.len() - old(dec).offset, 2int,
{
    let ghost data = dec.data@;
    let ghost p0 = dec.offset as int;
    let mut out: Vec<Value> = Vec::new();
    proof {
        assert(crate::value::views_of(out@) =~= Seq::<ValueView>::empty());
    }
    loop
        invariant
            dec.wf(),
            dec.buffer is None,
            dec.data@ == data,
            p0 <= dec.offset as int,
            forall|j: int| 0 <= j < out@.len() ==> (#[trigger] out@[j]).wf(),
            spec_parse_items_indef(data, p0, depth as int, Seq::empty())
                == spec_parse_items_indef(
                data,
                dec.offset as int,
                depth as int,
                crate::value::views_of(out@),
            ),
        decreases data.len() - dec.offset,
    {
        let off1 = dec.offset();
        let ghost accv = crate::value::views_of(out@);
        match dec.pull() {
            Err(e) => {
                return Err(lift_error(e));
            },
            Ok(h) => {
                let ghost p2 = dec.offset as int;
                proof {
                    assert(spec_pull_header(data, off1 as int) == Parsed::<Header>::Got(h, p2));
                }
                if let Header::Break = h {
                    let ghost ov = out@;
                    let r = Value::Array(out);
                    proof {
                        assert(r@ matches ValueView::Array(s) && s =~= crate::value::views_of(ov));
                        assert(r.wf());
                    }
                    return Ok(r);
                }
                proof {
                    assert(h != Header::Break);
                    assert(spec_parse(data, off1 as int, depth as int)
                        == spec_parse_with_header(data, h, off1 as int, p2, depth as int));
                }
                match decode_with_header(dec, h, off1, depth) {
                    Err(e) => {
                        proof {
                            assert(!(spec_parse(data, off1 as int, depth as int) is Got));
                            assert(outcome(
                                spec_parse_items_indef(data, off1 as int, depth as int, accv),
                                Err(e),
                            ));
                        }
                        return Err(e);
                    },
                    Ok(v) => {
                        proof {
                            assert(crate::value::views_of(out@.push(v)) =~= accv.push(v@));
                            assert(spec_parse(data, off1 as int, depth as int) matches Parsed::Got(
                                vv,
                                pp,
                            ) && vv == v@ && pp == dec.offset as int);
                            assert(spec_parse_items_indef(data, off1 as int, depth as int, accv)
                                == spec_parse_items_indef(
                                data,
                                dec.offset as int,
                                depth as int,
                                accv.push(v@),
                            ));
                        }
                        out.push(v);
                    },
                }
            },
        }
    }
}

/// Decodes the entries of a definite-length map.
#[verifier::loop_isolation(false)]
fn decode_entries(dec: &mut Decoder, depth: usize, n: usize) -> (r: Result<
    Value,
    Error<crate::io::EndOfFile>,
>)
    requires
        old(dec).wf(),
        old(dec).buffer is None,
    ensures
        final(dec).wf(),
        final(dec).buffer is None,
        final(dec).data@ == old(dec).data@,
        final(dec).offset >= old(dec).offset,
        outcome(
            spec_parse_entries(
                old(dec).data@,
                old(dec).offset as int,
                depth as int,
                n as int,
                Seq::empty(),
            ),
            r,
        ),
        spec_parse_entries(
            old(dec).data@,
            old(dec).offset as int,
            depth as int,
            n as int,
            Seq::empty(),
        ) matches Parsed::Got(_, p) ==> final(dec).offset == p,
    decreases old(dec).data@.len() - old(dec).offset, 2int,
{
    let ghost data = dec.data@;
    let ghost p0 = dec.offset as int;
    let mut out: Vec<(Value, Value)> = Vec::new();
    proof {
        assert(crate::value::entry_views_of(out@) =~= Seq::<(ValueView, ValueView)>::empty());
    }
    let mut i: usize = 0;
    while i < n
        invariant
            dec.wf(),
            dec.buffer is None,
            dec.data@ == data,
            i <= n,
            p0 <= dec.offset as int,
            out@.len() == i,
            forall|j: int| 0 <= j < i ==> ((#[trigger] out@[j]).0.wf() && out@[j].1.wf()),
            spec_parse_entries(data, p0, depth as int, n as int, Seq::empty())
                == spec_parse_entries(
                data,
                dec.offset as int,
                depth as int,
                n - i,
                crate::value::entry_views_of(out@),
            ),
        decreases n - i,
    {
        let ghost pre = dec.offset as int;
        let ghost accv = crate::value::entry_views_of(out@);
        let k = match decode_item(dec, depth) {
            Err(e) => {
                proof {
                    assert(!(spec_parse(data, pre, depth as int) is Got));
                    assert(outcome(
                        spec_parse_entries(data, pre, depth as int, n - i, accv),
                        Err(e),
                    ));
                }
                return Err(e);
            },
            Ok(k) => k,
        };
        let ghost pk = dec.offset as int;
        proof {
            assert(spec_parse(data, pre, depth as int) matches Parsed::Got(kk, pp) && kk == k@
                && pp == pk);
        }
        let v = match decode_item(dec, depth) {
            Err(e) => {
                proof {
                    assert(!(spec_parse(data, pk, depth as int) is Got));
                    assert(outcome(
                        spec_parse_entries(data, pre, depth as int, n - i, accv),
                        Err(e),
                    ));
                }
                return Err(e);
            },
            Ok(v) => v,
        };
        proof {
            assert(spec_parse(data, pk, depth as int) matches Parsed::Got(vv, pp) && vv == v@ && pp
                == dec.offset as int);
            assert(crate::value::entry_views_of(out@.push((k, v))) =~= accv.push((k@, v@)));
            assert(spec_parse_entries(data, pre, depth as int, n - i, accv) == spec_parse_entries(
                data,
                dec.offset as int,
                depth as int,
                n - i - 1,
                accv.push((k@, v@)),
            ));
        }
        out.push((k, v));
        i = i + 1;
    }
    let ghost ov = out@;
    let r = Value::Mapping(out);
    proof {
        assert(r@ matches ValueView::Mapping(s) && s =~= crate::value::entry_views_of(ov));
        assert(r.wf());
    }
    Ok(r)
}

/// Decodes the entries of an indefinite-length map, up to the break.
#[verifier::loop_isolation(false)]
fn decode_entries_indef(dec: &mut Decoder, depth: usize) -> (r: Result<
    Value,
    Error<crate::io::EndOfFile>,
>)
    requires
        old(dec).wf(),
        old(dec).buffer is None,
    ensures
        final(dec).wf(),
        final(dec).buffer is None,
        final(dec).data@ == old(dec).data@,
        final(dec).offset >= old(dec).offset,
        outcome(
            spec_parse_entries_indef(
                old(dec).data@,
                old(dec).offset as int,
                depth as int,
                Seq::empty(),
            ),
            r,
        ),
        spec_parse_entries_indef(
            old(dec).data@,
            old(dec).offset as int,
            depth as int,
            Seq::empty(),
        ) matches Parsed::Got(_, p) ==> final(dec).offset == p,
    decreases old(dec).data@.len() - old(dec).offset, 2int,
{
    let ghost data = dec.data@;
    let ghost p0 = dec.offset as int;
    let mut out: Vec<(Value, Value)> = Vec::new();
    proof {
        assert(crate::value::entry_views_of(out@) =~= Seq::<(ValueView, ValueView)>::empty());
    }
    loop
        invariant
            dec.wf(),
            dec.buffer is None,
            dec.data@ == data,
            p0 <= dec.offset as int,
            forall|j: int| 0 <= j < out@.len() ==> ((#[trigger] out@[j]).0.wf() && out@[j].1.wf()),
            spec_parse_entries_indef(data, p0, depth as int, Seq::empty())
                == spec_parse_entries_indef(
                data,
                dec.offset as int,
                depth as int,
                crate::value::entry_views_of(out@),
            ),
        decreases data.len() - dec.offset,
    {
        let off1 = dec.offset();
        let ghost accv = crate::value::entry_views_of(out@);
        match dec.pull() {
            Err(e) => {
                return Err(lift_error(e));
            },
            Ok(h) => {
                let ghost p2 = dec.offset as int;
                proof {
                    assert(spec_pull_header(data, off1 as int) == Parsed::<Header>::Got(h, p2));
                }
                if let Header::Break = h {
                    let ghost ov = out@;
                    let r = Value::Mapping(out);
                    proof {
                        assert(r@ matches ValueView::Mapping(s) && s
                            =~= crate::value::entry_views_of(ov));
                        assert(r.wf());
                    }
                    return Ok(r);
                }
                proof {
                    assert(h != Header::Break);
                    assert(spec_parse(data, off1 as int, depth as int)
                        == spec_parse_with_header(data, h, off1 as int, p2, depth as int));
                }
                let k = match decode_with_header(dec, h, off1, depth) {
                    Err(e) => {
                        proof {
                            assert(!(spec_parse(data, off1 as int, depth as int) is Got));
                            assert(outcome(
                                spec_parse_entries_indef(data, off1 as int, depth as int, accv),
                                Err(e),
                            ));
                        }
                        return Err(e);
                    },
                    Ok(k) => k,
                };
                let ghost pk = dec.offset as int;
                proof {
                    assert(spec_parse(data, off1 as int, depth as int) matches Parsed::Got(kk, pp)
                        && kk == k@ && pp == pk);
                }
                let v = match decode_item(dec, depth) {
                    Err(e) => {
                        proof {
                            assert(!(spec_parse(data, pk, depth as int) is Got));
                            assert(outcome(
                                spec_parse_entries_indef(data, off1 as int, depth as int, accv),
                                Err(e),
                            ));
                        }
                        return Err(e);
                    },
                    Ok(v) => v,
                };
                proof {
                    assert(spec_parse(data, pk, depth as int) matches Parsed::Got(vv, pp) && vv
                        == v@ && pp == dec.offset as int);
                    assert(crate::value::entry_views_of(out@.push((k, v))) =~= accv.push(
                        (k@, v@),
                    ));
                    assert(spec_parse_entries_indef(data, off1 as int, depth as int, accv)
                        == spec_parse_entries_indef(
                        data,
                        dec.offset as int,
                        depth as int,
                        accv.push((k@, v@)),
                    ));
                }
                out.push((k, v));
            },
        }
    }
}

/// Reads the payload of a byte or text string: the following bytes for a
/// definite length, the concatenated definite chunks up to the break for an
/// indefinite one.
#[verifier::loop_isolation(false)]
fn read_chunks(dec: &mut Decoder, maj: Major, len: Option<usize>) -> (r: Result<
    (Vec<u8>, Vec<(usize, usize)>),
    Error<crate::io::EndOfFile>,
>)
    requires
        old(dec).wf(),
        old(dec).buffer is None,
    ensures
        final(dec).wf(),
        final(dec).buffer is None,
        final(dec).data@ == old(dec).data@,
        final(dec).offset >= old(dec).offset,
        match spec_chunks(old(dec).data@, old(dec).offset as int, maj, len) {
            Parsed::Got(payload, p) => r matches Ok(v) && v.0@ == payload && final(dec).offset == p
                && (forall|k: int|
                0 <= k < payload.len() ==> #[trigger] spec_layout_offset(v.1@, k)
                    == spec_chunk_offset(old(dec).data@, old(dec).offset as int, len, k) && 0
                    <= spec_layout_offset(v.1@, k) <= old(dec).data@.len()),
            Parsed::Io => r matches Err(e) && e == Error::<crate::io::EndOfFile>::Io(
                crate::io::EndOfFile,
            ),
            Parsed::Syntax(o) => r matches Err(e) && e matches Error::Syntax(o2) && o2 == o,
            Parsed::Semantic(o) => r matches Err(e) && e matches Error::Semantic(oo, _) && oo
                matches Some(o2) && o2 == o,
            Parsed::TooDeep => r matches Err(e) && e == Error::<
                crate::io::EndOfFile,
            >::RecursionLimitExceeded,
        },
    decreases old(dec).data@.len() - old(dec).offset, 1int,
{
    let ghost data = dec.data@;
    let ghost p0 = dec.offset as int;
    match len {
        Some(n) => {
            let start = dec.offset();
            match dec.read_bytes(n) {
                Ok(v) => {
                    let starts: Vec<(usize, usize)> = vec![(0, start)];
                    proof {
                        assert forall|k: int| 0 <= k < v@.len() implies #[trigger] spec_layout_offset(
                            starts@,
                            k,
                        ) == spec_chunk_offset(data, p0, len, k) && 0 <= spec_layout_offset(
                            starts@,
                            k,
                        ) <= data.len() by {
                            assert(starts@.last() == (0usize, start));
                        }
                    }
                    Ok((v, starts))
                },
                Err(e) => Err(lift_error(e)),
            }
        },
        None => {
            let mut acc: Vec<u8> = Vec::new();
            let mut starts: Vec<(usize, usize)> = Vec::new();
            loop
                invariant
                    dec.wf(),
                    dec.buffer is None,
                    dec.data@ == data,
                    p0 <= dec.offset as int,
                    spec_chunks_indef(data, p0, maj, Seq::empty()) == spec_chunks_indef(
                        data,
                        dec.offset as int,
                        maj,
                        acc@,
                    ),
                    forall|k: int|
                        0 <= k < acc@.len() ==> #[trigger] spec_layout_offset(starts@, k)
                            == spec_chunk_offset_indef(data, p0, k) && 0 <= spec_layout_offset(
                            starts@,
                            k,
                        ) <= data.len(),
                    forall|k: int|
                        k >= acc@.len() ==> #[trigger] spec_chunk_offset_indef(data, p0, k)
                            == spec_chunk_offset_indef(data, dec.offset as int, k - acc@.len()),
                decreases data.len() - dec.offset,
            {
                let off1 = dec.offset();
                let ghost acc0 = acc@;
                let ghost starts0 = starts@;
                match dec.pull() {
                    Err(e) => {
                        return Err(lift_error(e));
                    },
                    Ok(h) => {
                        let ghost p2 = dec.offset as int;
                        proof {
                            assert(spec_pull_header(data, off1 as int) == Parsed::<Header>::Got(
                                h,
                                p2,
                            ));
                        }
                        match h {
                            Header::Break => {
                                return Ok((acc, starts));
                            },
                            Header::Bytes(Some(n)) => {
                                if !matches!(maj, Major::Bytes) {
                                    return Err(Error::Syntax(off1));
                                }
                                let cstart = dec.offset();
                                let mut chunk = match dec.read_bytes(n) {
                                    Ok(v) => v,
                                    Err(e) => {
                                        return Err(lift_error(e));
                                    },
                                };
                                starts.push((acc.len(), cstart));
                                acc.append(&mut chunk);
                                proof {
                                    lemma_chunk_layout_step(
                                        data,
                                        p0,
                                        off1 as int,
                                        cstart as int,
                                        n,
                                        acc0,
                                        starts0,
                                        starts@,
                                    );
                                    assert(acc@ =~= acc0 + data.subrange(
                                        cstart as int,
                                        cstart + n,
                                    ));
                                }
                            },
                            Header::Text(Some(n)) => {
                                if !matches!(maj, Major::Text) {
                                    return Err(Error::Syntax(off1));
                                }
                                let cstart = dec.offset();
                                let mut chunk = match dec.read_bytes(n) {
                                    Ok(v) => v,
                                    Err(e) => {
                                        return Err(lift_error(e));
                                    },
                                };
                                starts.push((acc.len(), cstart));
                                acc.append(&mut chunk);
                                proof {
                                    lemma_chunk_layout_step(
                                        data,
                                        p0,
                                        off1 as int,
                                        cstart as int,
                                        n,
                                        acc0,
                                        starts0,
                                        starts@,
                                    );
                                    assert(acc@ =~= acc0 + data.subrange(
                                        cstart as int,
                                        cstart + n,
                                    ));
                                }
                            },
                            _ => {
                                return Err(Error::Syntax(off1));
                            },
                        }
                    },
                }
            }
        },
    }
}

/// Appending one chunk to the layout keeps the payload-to-stream offset map
/// in step: the layout lemma the chunk-reading loop leans on.
proof fn lemma_chunk_layout_step(
    data: Seq<u8>,
    p0: int,
    off1: int,
    cstart: int,
    n: usize,
    acc0: Seq<u8>,
    starts0: Seq<(usize, usize)>,
    starts1: Seq<(usize, usize)>,
)
    requires
        0 <= off1 < cstart,
        cstart + n <= data.len(),
        spec_pull_header(data, off1) == Parsed::<Header>::Got(Header::Bytes(Some(n)), cstart)
            || spec_pull_header(data, off1) == Parsed::<Header>::Got(
            Header::Text(Some(n)),
            cstart,
        ),
        acc0.len() <= usize::MAX,
        cstart <= usize::MAX,
        starts1 == starts0.push((acc0.len() as usize, cstart as usize)),
        forall|k: int|
            0 <= k < acc0.len() ==> #[trigger] spec_layout_offset(starts0, k)
                == spec_chunk_offset_indef(data, p0, k) && 0 <= spec_layout_offset(starts0, k)
                <= data.len(),
        forall|k: int|
            k >= acc0.len() ==> #[trigger] spec_chunk_offset_indef(data, p0, k)
                == spec_chunk_offset_indef(data, off1, k - acc0.len()),
    ensures
        forall|k: int|
            0 <= k < acc0.len() + n ==> #[trigger] spec_layout_offset(starts1, k)
                == spec_chunk_offset_indef(data, p0, k) && 0 <= spec_layout_offset(starts1, k)
                <= data.len(),
        forall|k: int|
            k >= acc0.len() + n ==> #[trigger] spec_chunk_offset_indef(data, p0, k)
                == spec_chunk_offset_indef(data, cstart + n, k - acc0.len() - n),
{
    assert forall|k: int|
        k >= 0 implies #[trigger] spec_chunk_offset_indef(data, off1, k) == (if k < n {
        cstart + k
    } else {
        spec_chunk_offset_indef(data, cstart + n, k - n)
    }) by {
        assert(cstart + n <= data.len());
    }
    assert forall|k: int|
        0 <= k < acc0.len() + n implies #[trigger] spec_layout_offset(starts1, k)
        == spec_chunk_offset_indef(data, p0, k) && 0 <= spec_layout_offset(starts1, k)
        <= data.len() by {
        assert(starts1.last() == (acc0.len() as usize, cstart as usize));
        assert(starts1.drop_last() =~= starts0);
        if k < acc0.len() {
            assert(spec_layout_offset(starts1, k) == spec_layout_offset(starts0, k));
        } else {
            assert(spec_layout_offset(starts1, k) == cstart + (k - acc0.len()));
            assert(spec_chunk_offset_indef(data, p0, k) == spec_chunk_offset_indef(
                data,
                off1,
                k - acc0.len(),
            ));
            assert(spec_chunk_offset_indef(data, off1, k - acc0.len()) == cstart + (k
                - acc0.len()));
        }
    }
    assert forall|k: int|
        k >= acc0.len() + n implies #[trigger] spec_chunk_offset_indef(data, p0, k)
        == spec_chunk_offset_indef(data, cstart + n, k - acc0.len() - n) by {
        assert(spec_chunk_offset_indef(data, p0, k) == spec_chunk_offset_indef(
            data,
            off1,
            k - acc0.len(),
        ));
        assert(spec_chunk_offset_indef(data, off1, k - acc0.len()) == spec_chunk_offset_indef(
            data,
            cstart + n,
            k - acc0.len() - n,
        ));
    }
}

/// Looks a payload index up in a chunk layout: the stream offset of that
/// payload byte.
#[verifier::loop_isolation(false)]
fn layout_offset(starts: &Vec<(usize, usize)>, k: usize) -> (r: usize)
    requires
        0 <= spec_layout_offset(starts@, k as int) <= usize::MAX,
    ensures
        r == spec_layout_offset(starts@, k as int),
{
    let mut i: usize = starts.len();
    proof {
        assert(starts@.take(starts@.len() as int) =~= starts@);
    }
    while i > 0
        invariant
            i <= starts@.len(),
            spec_layout_offset(starts@, k as int) == spec_layout_offset(
                starts@.take(i as int),
                k as int,
            ),
        decreases i,
    {
        let (pstart, soff) = starts[i - 1];
        proof {
            assert(starts@.take(i as int).last() == starts@[i - 1]);
            assert(starts@.take(i as int).drop_last() =~= starts@.take(i - 1));
        }
        if pstart <= k {
            return soff + (k - pstart);
        }
        i = i - 1;
    }
    proof {
        assert(starts@.take(0) =~= Seq::<(usize, usize)>::empty());
    }
    0
}

/// 256 raised to the `n`th power: the number of values of `n` bytes.
pub open spec fn pow256(n: nat) -> nat
    decreases n,
{
    if n == 0 {
        1
    } else {
        256 * pow256((n - 1) as nat)
    }
}

/// A big-endian number is bounded by the count of its bytes.
proof fn lemma_be_val_bound(s: Seq<u8>)
    ensures
        be_val(s) < pow256(s.len()),
    decreases s.len(),
{
    if s.len() == 0 {
    } else {
        lemma_be_val_bound(s.drop_last());
    }
}

/// Stripping leading zeros takes the suffix after them.
proof fn lemma_strip_zeros_at(s: Seq<u8>, k: int)
    requires
        0 <= k <= s.len(),
        forall|j: int| 0 <= j < k ==> s[j] == 0,
        k == s.len() || s[k] != 0,
    ensures
        strip_zeros(s) == s.subrange(k, s.len() as int),
    decreases k,
{
    if k == 0 {
        if s.len() > 0 {
            assert(strip_zeros(s) == s);
        }
        assert(s.subrange(0, s.len() as int) =~= s);
    } else {
        assert(s[0] == 0);
        lemma_strip_zeros_at(s.drop_first(), k - 1);
        assert(s.drop_first().subrange(k - 1, s.drop_first().len() as int) =~= s.subrange(
            k,
            s.len() as int,
        ));
    }
}

/// Decodes the byte-string payload of a big-integer tag and fuses it into a
/// value.
#[verifier::loop_isolation(false)]
fn decode_bigint(dec: &mut Decoder, t: u64) -> (r: Result<Value, Error<crate::io::EndOfFile>>)
    requires
        old(dec).wf(),
        old(dec).buffer is None,
        t == crate::TAG_BIGPOS || t == crate::TAG_BIGNEG,
    ensures
        final(dec).wf(),
        final(dec).buffer is None,
        final(dec).data@ == old(dec).data@,
        final(dec).offset >= old(dec).offset,
        outcome(spec_parse_bigint(old(dec).data@, old(dec).offset as int, t), r),
        spec_parse_bigint(old(dec).data@, old(dec).offset as int, t) matches Parsed::Got(_, p)
            ==> final(dec).offset == p,
    decreases old(dec).data@.len() - old(dec).offset, 2int,
{
    let ghost data = dec.data@;
    let p = dec.offset();
    let payload = match dec.pull() {
        Err(e) => {
            return Err(lift_error(e));
        },
        Ok(h) => {
            let ghost p2 = dec.offset as int;
            proof {
                assert(spec_pull_header(data, p as int) == Parsed::<Header>::Got(h, p2));
            }
            match h {
                Header::Bytes(len) => match read_chunks(dec, Major::Bytes, len) {
                    Ok((v, _)) => v,
                    Err(e) => {
                        return Err(e);
                    },
                },
                _ => {
                    return Err(Error::Semantic(Some(p), msg_bigint_too_large()));
                },
            }
        },
    };
    let ghost spayload = payload@;
    let ghost p3 = dec.offset as int;
    bigint_value(payload, t, p, Ghost(p3))
}

/// Fuses the payload of a big-integer tag, whose item began at `p`, into a
/// value.
#[verifier::loop_isolation(false)]
#[verifier::rlimit(50)]
fn bigint_value(payload: Vec<u8>, t: u64, p: usize, Ghost(pos): Ghost<int>) -> (r: Result<
    Value,
    Error<crate::io::EndOfFile>,
>)
    requires
        t == crate::TAG_BIGPOS || t == crate::TAG_BIGNEG,
    ensures
        outcome(spec_bigint_value(strip_zeros(payload@), t, p as int, pos), r),
{
    let ghost spayload = payload@;
    let mut k: usize = 0;
    while k < payload.len() && payload[k] == 0
        invariant
            k <= payload@.len(),
            forall|j: int| 0 <= j < k ==> payload@[j] == 0,
        decreases payload@.len() - k,
    {
        k = k + 1;
    }
    let mut sig: Vec<u8> = Vec::new();
    let mut j: usize = k;
    while j < payload.len()
        invariant
            k <= j <= payload@.len(),
            sig@ == payload@.subrange(k as int, j as int),
        decreases payload@.len() - j,
    {
        sig.push(payload[j]);
        assert(sig@ =~= payload@.subrange(k as int, j + 1 as int));
        j = j + 1;
    }
    proof {
        lemma_strip_zeros_at(payload@, k as int);
        assert(sig@ == strip_zeros(payload@));
    }
    if sig.len() > 16 {
        return Err(Error::Semantic(Some(p), msg_bigint_too_large()));
    }
    let mut raw: u128 = 0;
    let mut i: usize = 0;
    proof {
        assert(raw == be_val(sig@.take(0)));
    }
    while i < sig.len()
        invariant
            i <= sig@.len() <= 16,
            raw == be_val(sig@.take(i as int)),
            raw < pow256(i as nat),
        decreases sig@.len() - i,
    {
        proof {
            lemma_pow256_le_16((i + 1) as nat);
            assert(pow256((i + 1) as nat) == 256 * pow256(i as nat));
            assert(256 * raw + sig@[i as int] < 256 * pow256(i as nat)) by {
                assert(raw <= pow256(i as nat) - 1);
                assert(256 * raw <= 256 * (pow256(i as nat) - 1)) by (nonlinear_arith)
                    requires
                        raw <= pow256(i as nat) - 1,
                ;
            }
        }
        raw = raw * 256 + (sig[i] as u128);
        proof {
            assert(sig@.take(i + 1 as int).drop_last() =~= sig@.take(i as int));
            assert(be_val(sig@.take(i + 1 as int)) == be_val(sig@.take(i as int)) * 256 + sig@[i
                as int]);
        }
        i = i + 1;
    }
    proof {
        assert(sig@.take(sig@.len() as int) =~= sig@);
        assert(raw == be_val(sig@));
    }
    if t == crate::TAG_BIGPOS {
        if raw < 0x10000000000000000 {
            Ok(Value::Integer(Integer::try_from_u128(raw).unwrap()))
        } else {
            let ghost ssig = sig@;
            let bx = Box::new(Value::Bytes(sig));
            proof {
                assert((*bx)@ == ValueView::Bytes(ssig));
                assert((*bx).wf());
            }
            let r = Value::Tag(2, bx);
            proof {
                assert(ssig == strip_zeros(spayload));
                assert(r@ == ValueView::Tag(2, Box::new(ValueView::Bytes(ssig))));
                assert(r.wf());
            }
            Ok(r)
        }
    } else {
        if raw >= 0x80000000000000000000000000000000 {
            Err(Error::Semantic(Some(p), msg_bigint_too_large()))
        } else if raw < 0x10000000000000000 {
            Ok(Value::Integer(Integer::try_from_i128(-1 - (raw as i128)).unwrap()))
        } else {
            let ghost ssig = sig@;
            let bx = Box::new(Value::Bytes(sig));
            proof {
                assert((*bx)@ == ValueView::Bytes(ssig));
                assert((*bx).wf());
            }
            let r = Value::Tag(3, bx);
            proof {
                assert(ssig == strip_zeros(spayload));
                assert(r@ == ValueView::Tag(3, Box::new(ValueView::Bytes(ssig))));
                assert(r.wf());
            }
            Ok(r)
        }
    }
}

/// The powers of 256 up to the 16th fit a 128-bit number.
proof fn lemma_pow256_le_16(n: nat)
    requires
        n <= 16,
    ensures
        pow256(n) <= 0x100000000000000000000000000000000,
    decreases 16 - n,
{
    if n == 16 {
        assert(pow256(0) == 1);
        assert(pow256(1) == 0x100);
        assert(pow256(2) == 0x10000);
        assert(pow256(3) == 0x1000000);
        assert(pow256(4) == 0x100000000);
        assert(pow256(5) == 0x10000000000);
        assert(pow256(6) == 0x1000000000000);
        assert(pow256(7) == 0x100000000000000);
        assert(pow256(8) == 0x10000000000000000);
        assert(pow256(9) == 0x1000000000000000000);
        assert(pow256(10) == 0x100000000000000000000);
        assert(pow256(11) == 0x10000000000000000000000);
        assert(pow256(12) == 0x1000000000000000000000000);
        assert(pow256(13) == 0x100000000000000000000000000);
        assert(pow256(14) == 0x10000000000000000000000000000);
        assert(pow256(15) == 0x1000000000000000000000000000000);
        assert(pow256(16) == 0x100000000000000000000000000000000);
    } else {
        lemma_pow256_le_16(n + 1);
        assert(pow256((n + 1) as nat) == 256 * pow256(n));
    }
}

/// The description of an unknown simple value.
fn msg_unknown_simple() -> String {
    String::from_str("unknown simple value")
}

/// The description of a break with no open indefinite container.
fn msg_unexpected_break() -> String {
    String::from_str("unexpected break")
}

/// The description of a big integer beyond 128 bits.
fn msg_bigint_too_large() -> String {
    String::from_str("bigint too large")
}

/// Reads a big-integer magnitude: the big-endian value of the payload with
/// leading zeros dropped, or nothing when more than 16 significant bytes
/// remain, which is the bound the big-integer tags accept.
#[verifier::loop_isolation(false)]
pub fn bigint_magnitude_to_u128(payload: &[u8]) -> (r: Option<u128>)
    ensures
        strip_zeros(payload@).len() <= 16 ==> (r matches Some(x) && x == be_val(
            strip_zeros(payload@),
        )),
        strip_zeros(payload@).len() > 16 ==> r is None,
{
    let mut k: usize = 0;
    while k < payload.len() && payload[k] == 0
        invariant
            k <= payload@.len(),
            forall|j: int| 0 <= j < k ==> payload@[j] == 0,
        decreases payload@.len() - k,
    {
        k = k + 1;
    }
    proof {
        lemma_strip_zeros_at(payload@, k as int);
    }
    let ghost sig = strip_zeros(payload@);
    if payload.len() - k > 16 {
        return None;
    }
    let mut raw: u128 = 0;
    let mut i: usize = k;
    proof {
        assert(sig.take(0) =~= payload@.subrange(k as int, k as int));
        assert(raw == be_val(sig.take(0)));
    }
    while i < payload.len()
        invariant
            k <= i <= payload@.len(),
            payload@.len() - k <= 16,
            sig == payload@.subrange(k as int, payload@.len() as int),
            raw == be_val(sig.take(i - k)),
            raw < pow256((i - k) as nat),
        decreases payload@.len() - i,
    {
        proof {
            lemma_pow256_le_16((i - k + 1) as nat);
            assert(pow256((i - k + 1) as nat) == 256 * pow256((i - k) as nat));
            assert(256 * raw + payload@[i as int] < 256 * pow256((i - k) as nat)) by {
                assert(raw <= pow256((i - k) as nat) - 1);
                assert(256 * raw <= 256 * (pow256((i - k) as nat) - 1)) by (nonlinear_arith)
                    requires
                        raw <= pow256((i - k) as nat) - 1,
                ;
            }
        }
        raw = raw * 256 + (payload[i] as u128);
        proof {
            assert(sig.take(i - k + 1).drop_last() =~= sig.take(i - k));
            assert(sig.take(i - k + 1).last() == payload@[i as int]);
            assert(be_val(sig.take(i - k + 1)) == be_val(sig.take(i - k)) * 256 + payload@[i
                as int]);
        }
        i = i + 1;
    }
    proof {
        assert(sig.take(payload@.len() - k) =~= sig);
    }
    Some(raw)
}

/// Parses one explicitly tagged item at the start of the stream: the tag
/// number of its header, and the item the tag annotates, which is parsed as
/// `spec_parse` parses any item.
pub open spec fn spec_parse_tagged(data: Seq<u8>, depth: int) -> Parsed<(u64, ValueView)> {
    match spec_pull_header(data, 0) {
        Parsed::Got(h, p2) => if 0 < p2 <= data.len() {
            match h {
                Header::Tag(n) => match spec_parse(data, p2, depth) {
                    Parsed::Got(v, p3) => Parsed::Got((n, v), p3),
                    Parsed::Io => Parsed::Io,
                    Parsed::Syntax(o) => Parsed::Syntax(o),
                    Parsed::Semantic(o) => Parsed::Semantic(o),
                    Parsed::TooDeep => Parsed::TooDeep,
                },
                _ => Parsed::Semantic(0),
            }
        } else {
            Parsed::Io
        },
        Parsed::Io => Parsed::Io,
        Parsed::Syntax(o) => Parsed::Syntax(o),
        Parsed::Semantic(o) => Parsed::Semantic(o),
        Parsed::TooDeep => Parsed::TooDeep,
    }
}

/// Deserializes one explicitly tagged CBOR item: the item must carry a tag,
/// whose number is observed rather than skipped, and the tagged value
/// follows.
///
/// This is the opt-in path for hosts that want to see a tag; `from_reader`
/// stays tag-agnostic.
pub fn tagged_from_reader(data: &[u8]) -> (r: Result<(u64, Value), Error<crate::io::EndOfFile>>)
    ensures
        match spec_parse_tagged(data@, RECURSION_LIMIT as int) {
            Parsed::Got(nv, p) => r matches Ok(p2) && p2.0 == nv.0 && p2.1@ == nv.1 && p2.1.wf(),
            Parsed::Io => r matches Err(e) && e == Error::<crate::io::EndOfFile>::Io(
                crate::io::EndOfFile,
            ),
            Parsed::Syntax(o) => r matches Err(e) && e matches Error::Syntax(o2) && o2 == o,
            Parsed::Semantic(o) => r matches Err(e) && e matches Error::Semantic(oo, _) && oo
                matches Some(o2) && o2 == o,
            Parsed::TooDeep => r matches Err(e) && e == Error::<
                crate::io::EndOfFile,
            >::RecursionLimitExceeded,
        },
{
    let mut dec = Decoder::from(data);
    match dec.pull() {
        Err(e) => Err(lift_error(e)),
        Ok(Header::Tag(n)) => {
            match decode_item(&mut dec, RECURSION_LIMIT) {
                Ok(v) => Ok((n, v)),
                Err(e) => Err(e),
            }
        },
        Ok(_) => Err(Error::Semantic(Some(0), msg_expected_tag())),
    }
}

/// The description of an item that should have carried a tag but did not.
fn msg_expected_tag() -> String {
    String::from_str("expected tag")
}

/// Tag transparency: dynamic decoding sees through any tag other than the
/// two big-integer tags, so the value after the tag header is the value of
/// the whole tagged item.
pub proof fn lemma_tag_transparent(data: Seq<u8>, p: int, p2: int, n: u64, depth: int)
    requires
        spec_pull_header(data, p) == Parsed::<Header>::Got(Header::Tag(n), p2),
        p < p2 <= data.len(),
        n != crate::TAG_BIGPOS,
        n != crate::TAG_BIGNEG,
    ensures
        spec_parse(data, p, depth) == spec_parse(data, p2, depth),
{
}

/// The reserved minor selectors 28, 29 and 30 are rejected at the offset of
/// the item that holds them.
pub proof fn lemma_reject_reserved(data: Seq<u8>, depth: int)
    requires
        data.len() > 0,
        28 <= data[0] % 32 <= 30,
    ensures
        spec_parse(data, 0, depth) == Parsed::<ValueView>::Syntax(0),
{
    assert(crate::dec::spec_pull(data, 0) == crate::dec::PullSpec::Reserved);
}

/// Deep nesting is rejected: a stream of nothing but indefinite array
/// openers exceeds any recursion bound instead of recursing without end.
pub proof fn lemma_recursion_limit(data: Seq<u8>, p: int, depth: int)
    requires
        0 <= p,
        p + 1 <= data.len(),
        data.len() <= usize::MAX,
        data[p] == 0x9f,
        depth <= 0,
    ensures
        spec_parse(data, p, depth) == Parsed::<ValueView>::TooDeep,
{
    assert(crate::dec::spec_pull(data, p) == crate::dec::PullSpec::Got(
        Title(Major::Array, crate::min::Minor::Indeterminate),
        (p + 1) as usize,
    ));
}

/// Encoding a scalar value and decoding the bytes yields the value back:
/// the wire round trip at the value level, for every integer in the CBOR
/// integer range, every float bit pattern, both booleans and null.
pub proof fn lemma_scalar_roundtrip(v: ValueView, depth: int)
    requires
        v.wf(),
        v is Integer || v is Float || v is Bool || v is Null,
    ensures
        spec_parse(crate::ser::spec_encode(v), 0, depth) == Parsed::<ValueView>::Got(
            v,
            crate::ser::spec_encode(v).len() as int,
        ),
{
    reveal(crate::ser::spec_encode);
    let h: Header = match v {
        ValueView::Integer(x) => if x >= 0 {
            Header::Positive(x as u64)
        } else {
            Header::Negative((-1 - x) as u64)
        },
        ValueView::Float(bits) => Header::Float(bits),
        ValueView::Bool(b) => if b {
            Header::Simple(crate::SIMPLE_TRUE)
        } else {
            Header::Simple(crate::SIMPLE_FALSE)
        },
        _ => Header::Simple(crate::SIMPLE_NULL),
    };
    let bytes = crate::ser::spec_encode(v);
    assert(bytes == h.spec_bytes());
    crate::hdr::lemma_title_wf(h);
    assert(bytes.subrange(0, bytes.len() as int) =~= bytes);
    crate::dec::lemma_title_roundtrip(bytes, 0, h.spec_title());
    crate::hdr::lemma_header_roundtrip(h);
    assert(spec_pull_header(bytes, 0) == Parsed::<Header>::Got(h, bytes.len() as int));
}

} // verus!
