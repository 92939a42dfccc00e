//! Chunked reading of byte and text string payloads: one segment per
//! definite-length string, or one segment per chunk of an indefinite-length
//! one, each segment handed out in pieces of a caller-chosen size.

use vstd::prelude::*;
use crate::dec::{spec_pull, Decoder, Error, PullSpec};
use crate::hdr::Header;
use crate::io::EndOfFile;
use crate::maj::Major;

verus! {

/// One segment: a run of payload bytes at a known position in the stream.
pub struct Segment {
    /// How many payload bytes remain to be read.
    pub unread: usize,
    /// The offset at which the segment's header began.
    pub offset: usize,
}

impl Segment {
    /// Reads the next piece of the segment, at most `max` bytes, directly
    /// from the stream; returns nothing once the segment is exhausted.
    pub fn next(&mut self, dec: &mut Decoder, max: usize) -> (r: Result<
        Option<Vec<u8>>,
        Error<EndOfFile>,
    >)
        requires
            old(dec).wf(),
            old(dec).buffer is None,
            max > 0,
        ensures
            final(dec).wf(),
            final(dec).buffer is None,
            final(dec).data@ == old(dec).data@,
            old(self).unread == 0 ==> r == Ok::<Option<Vec<u8>>, Error<EndOfFile>>(None)
                && *final(self) == *old(self) && *final(dec) == *old(dec),
            old(self).unread > 0 ==> {
                let n = if max < old(self).unread {
                    max as int
                } else {
                    old(self).unread as int
                };
                if old(dec).offset + n <= old(dec).data@.len() {
                    &&& r matches Ok(c) && c matches Some(v) && v@ == old(dec).data@.subrange(
                        old(dec).offset as int,
                        old(dec).offset + n,
                    )
                    &&& final(dec).offset == old(dec).offset + n
                    &&& final(self).unread == old(self).unread - n
                    &&& final(self).offset == old(self).offset
                } else {
                    r == Err::<Option<Vec<u8>>, Error<EndOfFile>>(Error::Io(EndOfFile))
                }
            },
    {
        if self.unread == 0 {
            return Ok(None);
        }
        let n = if max < self.unread {
            max
        } else {
            self.unread
        };
        match dec.read_bytes(n) {
            Ok(v) => {
                self.unread = self.unread - n;
                Ok(Some(v))
            },
            Err(e) => Err(e),
        }
    }
}

/// Where a segment stream stands.
pub enum SegState {
    /// The string's own header is still to be interpreted; holds its length.
    Fresh(Option<usize>),
    /// Inside an indefinite-length string, between chunks.
    Streaming,
    /// All segments have been handed out.
    Done,
}

/// The segments of one byte or text string: a single segment for a definite
/// length, one segment per definite chunk up to the break for an indefinite
/// one. A chunk must have the string's own major type and must itself be
/// definite.
pub struct Segments {
    /// The major type the chunks must carry.
    pub major: Major,
    /// Where the stream stands.
    pub state: SegState,
}

impl Segments {
    /// Starts reading the payload of a string whose header carried the
    /// length `len`.
    pub fn new(major: Major, len: Option<usize>) -> (r: Segments)
        ensures
            r.major == major,
            r.state == SegState::Fresh(len),
    {
        Segments { major, state: SegState::Fresh(len) }
    }

    /// Hands out the next segment, or nothing when the string is finished.
    pub fn next(&mut self, dec: &mut Decoder) -> (r: Result<Option<Segment>, Error<EndOfFile>>)
        requires
            old(dec).wf(),
            old(dec).buffer is None,
        ensures
            final(dec).wf(),
            final(dec).buffer is None,
            final(dec).data@ == old(dec).data@,
            final(self).major == old(self).major,
            match old(self).state {
                SegState::Done => r == Ok::<Option<Segment>, Error<EndOfFile>>(None) && *final(dec)
                    == *old(dec) && final(self).state == SegState::Done,
                SegState::Fresh(Some(n)) => r matches Ok(s) && s matches Some(seg) && seg.unread
                    == n && seg.offset == old(dec).offset && *final(dec) == *old(dec)
                    && final(self).state == SegState::Done,
                SegState::Fresh(None) => final(self).state is Streaming || final(self).state
                    is Done,
                SegState::Streaming => final(self).state is Streaming || final(self).state is Done,
            },
            (old(self).state == SegState::Fresh(None::<usize>) || old(self).state
                == SegState::Streaming) ==> match spec_pull(
                old(dec).data@,
                old(dec).offset as int,
            ) {
                PullSpec::EofPrefix => r == Err::<Option<Segment>, Error<EndOfFile>>(
                    Error::Io(EndOfFile),
                ),
                PullSpec::EofAffix => r == Err::<Option<Segment>, Error<EndOfFile>>(
                    Error::Io(EndOfFile),
                ),
                PullSpec::Reserved => r == Err::<Option<Segment>, Error<EndOfFile>>(
                    Error::Syntax(old(dec).offset),
                ),
                PullSpec::Got(t, p2) => match Header::spec_of_title(t) {
                    None => r == Err::<Option<Segment>, Error<EndOfFile>>(
                        Error::Syntax(old(dec).offset),
                    ),
                    Some(h) => match h {
                        Header::Break => r == Ok::<Option<Segment>, Error<EndOfFile>>(None)
                            && final(self).state == SegState::Done && final(dec).offset == p2,
                        Header::Bytes(Some(n)) => if old(self).major == Major::Bytes {
                            r matches Ok(s) && s matches Some(seg) && seg.unread == n && seg.offset
                                == old(dec).offset && final(dec).offset == p2 && final(self).state
                                == SegState::Streaming
                        } else {
                            r == Err::<Option<Segment>, Error<EndOfFile>>(
                                Error::Syntax(old(dec).offset),
                            )
                        },
                        Header::Text(Some(n)) => if old(self).major == Major::Text {
                            r matches Ok(s) && s matches Some(seg) && seg.unread == n && seg.offset
                                == old(dec).offset && final(dec).offset == p2 && final(self).state
                                == SegState::Streaming
                        } else {
                            r == Err::<Option<Segment>, Error<EndOfFile>>(
                                Error::Syntax(old(dec).offset),
                            )
                        },
                        _ => r == Err::<Option<Segment>, Error<EndOfFile>>(
                            Error::Syntax(old(dec).offset),
                        ),
                    },
                },
            },
    {
        match self.state {
            SegState::Done => Ok(None),
            SegState::Fresh(Some(n)) => {
                let offset = dec.offset();
                self.state = SegState::Done;
                Ok(Some(Segment { unread: n, offset }))
            },
            SegState::Fresh(None) => {
                self.state = SegState::Streaming;
                self.step(dec)
            },
            SegState::Streaming => self.step(dec),
        }
    }

    /// Reads one chunk header of an indefinite-length string.
    fn step(&mut self, dec: &mut Decoder) -> (r: Result<Option<Segment>, Error<EndOfFile>>)
        requires
            old(dec).wf(),
            old(dec).buffer is None,
            old(self).state == SegState::Streaming,
        ensures
            final(dec).wf(),
            final(dec).buffer is None,
            final(dec).data@ == old(dec).data@,
            final(self).major == old(self).major,
            final(self).state is Streaming || final(self).state is Done,
            match spec_pull(old(dec).data@, old(dec).offset as int) {
                PullSpec::EofPrefix => r == Err::<Option<Segment>, Error<EndOfFile>>(
                    Error::Io(EndOfFile),
                ),
                PullSpec::EofAffix => r == Err::<Option<Segment>, Error<EndOfFile>>(
                    Error::Io(EndOfFile),
                ),
                PullSpec::Reserved => r == Err::<Option<Segment>, Error<EndOfFile>>(
                    Error::Syntax(old(dec).offset),
                ),
                PullSpec::Got(t, p2) => match Header::spec_of_title(t) {
                    None => r == Err::<Option<Segment>, Error<EndOfFile>>(
                        Error::Syntax(old(dec).offset),
                    ),
                    Some(h) => match h {
                        Header::Break => r == Ok::<Option<Segment>, Error<EndOfFile>>(None)
                            && final(self).state == SegState::Done && final(dec).offset == p2,
                        Header::Bytes(Some(n)) => if old(self).major == Major::Bytes {
                            r matches Ok(s) && s matches Some(seg) && seg.unread == n && seg.offset
                                == old(dec).offset && final(dec).offset == p2 && final(self).state
                                == SegState::Streaming
                        } else {
                            r == Err::<Option<Segment>, Error<EndOfFile>>(
                                Error::Syntax(old(dec).offset),
                            )
                        },
                        Header::Text(Some(n)) => if old(self).major == Major::Text {
                            r matches Ok(s) && s matches Some(seg) && seg.unread == n && seg.offset
                                == old(dec).offset && final(dec).offset == p2 && final(self).state
                                == SegState::Streaming
                        } else {
                            r == Err::<Option<Segment>, Error<EndOfFile>>(
                                Error::Syntax(old(dec).offset),
                            )
                        },
                        _ => r == Err::<Option<Segment>, Error<EndOfFile>>(
                            Error::Syntax(old(dec).offset),
                        ),
                    },
                },
            },
    {
        let offset = dec.offset();
        match dec.pull() {
            Err(e) => Err(e),
            Ok(Header::Break) => {
                self.state = SegState::Done;
                Ok(None)
            },
            Ok(Header::Bytes(Some(n))) => {
                if matches!(self.major, Major::Bytes) {
                    Ok(Some(Segment { unread: n, offset }))
                } else {
                    Err(Error::Syntax(offset))
                }
            },
            Ok(Header::Text(Some(n))) => {
                if matches!(self.major, Major::Text) {
                    Ok(Some(Segment { unread: n, offset }))
                } else {
                    Err(Error::Syntax(offset))
                }
            },
            Ok(_) => Err(Error::Syntax(offset)),
        }
    }
}

} // verus!
