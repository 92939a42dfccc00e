//! The decoder: reads item headers from a byte slice, with a one-slot
//! lookahead buffer and a running stream offset.

use vstd::prelude::*;
use crate::maj::Major;
use crate::min::Minor;
use crate::tit::Title;
use crate::hdr::Header;
use crate::io::EndOfFile;

verus! {

broadcast use vstd::array::group_array_axioms;

/// An error of the wire layer.
#[derive(Copy, Clone, Debug, PartialEq, Eq)]
pub enum Error<T> {
    /// An error occurred while reading bytes.
    Io(T),
    /// A malformed item began at the given offset into the stream.
    Syntax(usize),
}

/// What reading one title from `data` at position `p` yields.
pub enum PullSpec {
    /// The stream ends before the prefix byte.
    EofPrefix,
    /// The stream ends inside the affix bytes.
    EofAffix,
    /// The prefix byte holds a reserved minor selector (28, 29 or 30).
    Reserved,
    /// A title, and the position just after it.
    Got(Title, usize),
}

/// Reads one title from `data` at position `p`.
pub open spec fn spec_pull(data: Seq<u8>, p: int) -> PullSpec {
    if p + 1 > data.len() {
        PullSpec::EofPrefix
    } else {
        let b = data[p];
        let maj = Major::spec_of_byte(b);
        let sel = b % 32;
        if sel < 24 {
            PullSpec::Got(Title(maj, Minor::Immediate(sel)), (p + 1) as usize)
        } else if sel == 24 {
            if p + 2 <= data.len() {
                PullSpec::Got(Title(maj, Minor::Subsequent1([data[p + 1]])), (p + 2) as usize)
            } else {
                PullSpec::EofAffix
            }
        } else if sel == 25 {
            if p + 3 <= data.len() {
                PullSpec::Got(
                    Title(maj, Minor::Subsequent2([data[p + 1], data[p + 2]])),
                    (p + 3) as usize,
                )
            } else {
                PullSpec::EofAffix
            }
        } else if sel == 26 {
            if p + 5 <= data.len() {
                PullSpec::Got(
                    Title(
                        maj,
                        Minor::Subsequent4([data[p + 1], data[p + 2], data[p + 3], data[p + 4]]),
                    ),
                    (p + 5) as usize,
                )
            } else {
                PullSpec::EofAffix
            }
        } else if sel == 27 {
            if p + 9 <= data.len() {
                PullSpec::Got(
                    Title(
                        maj,
                        Minor::Subsequent8(
                            [
                                data[p + 1],
                                data[p + 2],
                                data[p + 3],
                                data[p + 4],
                                data[p + 5],
                                data[p + 6],
                                data[p + 7],
                                data[p + 8],
                            ],
                        ),
                    ),
                    (p + 9) as usize,
                )
            } else {
                PullSpec::EofAffix
            }
        } else if sel == 31 {
            PullSpec::Got(Title(maj, Minor::Indeterminate), (p + 1) as usize)
        } else {
            PullSpec::Reserved
        }
    }
}

/// The header that a title yields, or the syntax error naming the offset
/// where the title began.
pub open spec fn spec_title_to_header(t: Title, off: usize) -> Result<Header, Error<EndOfFile>> {
    match Header::spec_of_title(t) {
        Some(h) => Ok(h),
        None => Err(Error::Syntax(off)),
    }
}

/// A decoder of CBOR items with one-item lookahead.
///
/// `offset` is the logical position of the next header: bytes consumed from
/// `data`, minus the buffered title when one has been pushed back.
pub struct Decoder<'a> {
    /// The stream.
    pub data: &'a [u8],
    /// The logical offset of the next header.
    pub offset: usize,
    /// The one-slot lookahead buffer.
    pub buffer: Option<Title>,
}

impl<'a> Decoder<'a> {
    /// The bytes that the buffered title would occupy.
    pub open spec fn buffered_len(self) -> int {
        match self.buffer {
            Some(t) => t.spec_bytes().len() as int,
            None => 0,
        }
    }

    /// The reading position: the logical offset plus the buffered title.
    pub open spec fn pos(self) -> int {
        self.offset + self.buffered_len()
    }

    /// The reading position never passes the end of the stream.
    pub open spec fn wf(self) -> bool {
        self.pos() <= self.data@.len()
    }

    /// Starts decoding at the beginning of `data`.
    pub fn from(data: &'a [u8]) -> (r: Decoder<'a>)
        ensures
            r.data@ == data@,
            r.offset == 0,
            r.buffer is None,
            r.wf(),
    {
        Decoder { data, offset: 0, buffer: None }
    }

    /// The byte offset at which the next header starts.
    pub fn offset(&self) -> (r: usize)
        ensures
            r == self.offset,
    {
        self.offset
    }

    /// Pulls one header: the buffered one if an item was pushed back,
    /// otherwise the next one read from the stream.
    pub fn pull(&mut self) -> (r: Result<Header, Error<EndOfFile>>)
        requires
            old(self).wf(),
        ensures
            final(self).wf(),
            final(self).data@ == old(self).data@,
            final(self).buffer is None,
            match old(self).buffer {
                Some(t) => final(self).offset == old(self).offset + t.spec_bytes().len() && r
                    == spec_title_to_header(t, old(self).offset),
                None => match spec_pull(old(self).data@, old(self).offset as int) {
                    PullSpec::EofPrefix => r == Err::<Header, Error<EndOfFile>>(
                        Error::Io(EndOfFile),
                    ) && final(self).offset == old(self).offset,
                    PullSpec::EofAffix => r == Err::<Header, Error<EndOfFile>>(
                        Error::Io(EndOfFile),
                    ) && final(self).offset == old(self).offset + 1,
                    PullSpec::Reserved => r == Err::<Header, Error<EndOfFile>>(
                        Error::Syntax(old(self).offset),
                    ) && final(self).offset == old(self).offset + 1,
                    PullSpec::Got(t, p2) => final(self).offset == p2 && old(self).offset < p2
                        && r == spec_title_to_header(t, old(self).offset),
                },
            },
    {
        let off0 = self.offset;
        // Reading the length here teaches the verifier that the stream fits
        // the address space, which bounds the offset arithmetic below.
        let stream_len = self.data.len();
        proof {
            assert(self.data@.len() == stream_len);
        }
        if let Some(t) = self.buffer {
            self.buffer = None;
            self.offset = self.offset + 1 + t.1.affix_len();
            return match Header::from_title(&t) {
                Some(h) => Ok(h),
                None => Err(Error::Syntax(off0)),
            };
        }
        if self.offset >= self.data.len() {
            return Err(Error::Io(EndOfFile));
        }
        let b = self.data[self.offset];
        self.offset = self.offset + 1;
        let maj = Major::of_byte(b);
        let sel = b % 32;
        let minor: Minor = if sel < 24 {
            Minor::Immediate(sel)
        } else if sel == 24 {
            if self.data.len() - self.offset >= 1 {
                let a0 = self.data[self.offset];
                self.offset = self.offset + 1;
                Minor::Subsequent1([a0])
            } else {
                return Err(Error::Io(EndOfFile));
            }
        } else if sel == 25 {
            if self.data.len() - self.offset >= 2 {
                let a0 = self.data[self.offset];
                let a1 = self.data[self.offset + 1];
                self.offset = self.offset + 2;
                Minor::Subsequent2([a0, a1])
            } else {
                return Err(Error::Io(EndOfFile));
            }
        } else if sel == 26 {
            if self.data.len() - self.offset >= 4 {
                let a0 = self.data[self.offset];
                let a1 = self.data[self.offset + 1];
                let a2 = self.data[self.offset + 2];
                let a3 = self.data[self.offset + 3];
                self.offset = self.offset + 4;
                Minor::Subsequent4([a0, a1, a2, a3])
            } else {
                return Err(Error::Io(EndOfFile));
            }
        } else if sel == 27 {
            if self.data.len() - self.offset >= 8 {
                let a0 = self.data[self.offset];
                let a1 = self.data[self.offset + 1];
                let a2 = self.data[self.offset + 2];
                let a3 = self.data[self.offset + 3];
                let a4 = self.data[self.offset + 4];
                let a5 = self.data[self.offset + 5];
                let a6 = self.data[self.offset + 6];
                let a7 = self.data[self.offset + 7];
                self.offset = self.offset + 8;
                Minor::Subsequent8([a0, a1, a2, a3, a4, a5, a6, a7])
            } else {
                return Err(Error::Io(EndOfFile));
            }
        } else if sel == 31 {
            Minor::Indeterminate
        } else {
            return Err(Error::Syntax(off0));
        };
        let t = Title(maj, minor);
        match Header::from_title(&t) {
            Some(h) => Ok(h),
            None => Err(Error::Syntax(off0)),
        }
    }

    /// Returns one header to the lookahead slot.
    pub fn push(&mut self, item: Header)
        requires
            old(self).buffer is None,
            old(self).offset >= item.spec_title().spec_bytes().len(),
            old(self).wf(),
        ensures
            final(self).data@ == old(self).data@,
            final(self).buffer == Some(item.spec_title()),
            final(self).offset == old(self).offset - item.spec_title().spec_bytes().len(),
            final(self).wf(),
    {
        let t = item.title();
        self.offset = self.offset - (1 + t.1.affix_len());
        self.buffer = Some(t);
    }

    /// Starts reading the chunked payload of a byte string whose header,
    /// just consumed, carried the length `len`.
    pub fn bytes(&self, len: Option<usize>) -> (r: crate::seg::Segments)
        ensures
            r.major == Major::Bytes,
            r.state == crate::seg::SegState::Fresh(len),
    {
        crate::seg::Segments::new(Major::Bytes, len)
    }

    /// Starts reading the chunked payload of a text string whose header,
    /// just consumed, carried the length `len`.
    pub fn text(&self, len: Option<usize>) -> (r: crate::seg::Segments)
        ensures
            r.major == Major::Text,
            r.state == crate::seg::SegState::Fresh(len),
    {
        crate::seg::Segments::new(Major::Text, len)
    }

    /// Reads exactly `n` payload bytes, or fails without consuming anything.
    pub fn read_bytes(&mut self, n: usize) -> (r: Result<Vec<u8>, Error<EndOfFile>>)
        requires
            old(self).buffer is None,
            old(self).wf(),
        ensures
            final(self).data@ == old(self).data@,
            final(self).buffer is None,
            final(self).wf(),
            if old(self).offset + n <= old(self).data@.len() {
                &&& final(self).offset == old(self).offset + n
                &&& r matches Ok(v) && v@ == old(self).data@.subrange(
                    old(self).offset as int,
                    old(self).offset + n,
                )
            } else {
                &&& final(self).offset == old(self).offset
                &&& r == Err::<Vec<u8>, Error<EndOfFile>>(Error::Io(EndOfFile))
            },
    {
        if n > self.data.len() - self.offset {
            return Err(Error::Io(EndOfFile));
        }
        let mut v: Vec<u8> = Vec::new();
        let mut i: usize = 0;
        while i < n
            invariant
                i <= n,
                self.offset + n <= self.data@.len(),
                self.data@.len() <= usize::MAX,
                v@ == self.data@.subrange(self.offset as int, self.offset + i),
            decreases n - i,
        {
            v.push(self.data[self.offset + i]);
            assert(v@ =~= self.data@.subrange(self.offset as int, self.offset + i + 1));
            i = i + 1;
        }
        self.offset = self.offset + n;
        Ok(v)
    }
}

/// Reading back the bytes of a well-formed title yields that title: the
/// wire round trip at the title level.
pub proof fn lemma_title_roundtrip(data: Seq<u8>, p: int, t: Title)
    requires
        t.wf(),
        0 <= p,
        p + t.spec_bytes().len() <= data.len(),
        data.subrange(p, p + t.spec_bytes().len() as int) == t.spec_bytes(),
    ensures
        spec_pull(data, p) == PullSpec::Got(t, (p + t.spec_bytes().len()) as usize),
{
    let bs = t.spec_bytes();
    let n = bs.len() as int;
    let sub = data.subrange(p, p + n);
    assert(sub[0] == data[p + 0]);
    if n > 1 {
        assert(sub[1] == data[p + 1]);
    }
    if n > 2 {
        assert(sub[2] == data[p + 2]);
    }
    if n > 4 {
        assert(sub[3] == data[p + 3] && sub[4] == data[p + 4]);
    }
    if n > 8 {
        assert(sub[5] == data[p + 5] && sub[6] == data[p + 6] && sub[7] == data[p + 7] && sub[8]
            == data[p + 8]);
    }
    let b = data[p];
    assert(b == t.spec_prefix_byte());
    let mb = t.0.spec_bits();
    let sb = t.1.spec_bits();
    assert(sb < 32) by {
        match t.1 {
            Minor::Immediate(x) => assert(x < 24),
            _ => {},
        }
    }
    assert(mb <= 7);
    assert(b == mb * 32 + sb);
    assert(b / 32 == mb);
    assert(b % 32 == sb);
    assert(Major::spec_of_byte(b) == t.0);
    match t.1 {
        Minor::Immediate(x) => {},
        Minor::Subsequent1(a) => {
            assert(a@.len() == 1);
            assert(data[p + 1] == a@[0]);
            assert([data[p + 1]]@ =~= a@);
            assert([data[p + 1]] == a);
        },
        Minor::Subsequent2(a) => {
            assert(a@.len() == 2);
            assert(data[p + 1] == a@[0] && data[p + 2] == a@[1]);
            assert([data[p + 1], data[p + 2]]@ =~= a@);
            assert([data[p + 1], data[p + 2]] == a);
        },
        Minor::Subsequent4(a) => {
            assert(a@.len() == 4);
            assert(data[p + 1] == a@[0] && data[p + 2] == a@[1] && data[p + 3] == a@[2] && data[p
                + 4] == a@[3]);
            assert([data[p + 1], data[p + 2], data[p + 3], data[p + 4]]@ =~= a@);
            assert([data[p + 1], data[p + 2], data[p + 3], data[p + 4]] == a);
        },
        Minor::Subsequent8(a) => {
            assert(a@.len() == 8);
            assert(data[p + 1] == a@[0] && data[p + 2] == a@[1] && data[p + 3] == a@[2] && data[p
                + 4] == a@[3] && data[p + 5] == a@[4] && data[p + 6] == a@[5] && data[p + 7]
                == a@[6] && data[p + 8] == a@[7]);
            assert([
                data[p + 1],
                data[p + 2],
                data[p + 3],
                data[p + 4],
                data[p + 5],
                data[p + 6],
                data[p + 7],
                data[p + 8],
            ]@ =~= a@);
            assert([
                data[p + 1],
                data[p + 2],
                data[p + 3],
                data[p + 4],
                data[p + 5],
                data[p + 6],
                data[p + 7],
                data[p + 8],
            ] == a);
        },
        Minor::Indeterminate => {},
    }
}

} // verus!
