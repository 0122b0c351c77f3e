//! Fetching one range: where each chunk of the answer is written.
//!
//! The body of a ranged reply arrives in chunks whose sizes the network
//! chooses.  A `SegmentCursor` turns their lengths into positions of the
//! destination file: the first chunk goes to the start of the range, each
//! later one directly behind its predecessor, and none past the end of the
//! range, so that no segment ever writes into the bytes of another.

use crate::error::Error;
use vstd::prelude::*;

verus! {

/// What a cursor stands for: the range it serves and the position at which
/// the next chunk will be written.
pub struct SegmentView {
    /// The first byte of the range.
    pub start: u64,
    /// The last byte of the range.
    pub end: u64,
    /// Where the next chunk goes.  Everything from `start` up to here has
    /// been handed out.
    pub offset: u64,
}

impl SegmentView {
    /// The number of bytes of the range that no chunk has claimed yet.
    pub open spec fn remaining(self) -> int {
        self.end + 1 - self.offset
    }

    /// The cursor lies inside its range or directly behind it.
    pub open spec fn wf(self) -> bool {
        self.start <= self.offset <= self.end + 1 && self.end < u64::MAX
    }
}

/// The write position of one segment of a download.
pub struct SegmentCursor {
    start: u64,
    end: u64,
    offset: u64,
}

impl View for SegmentCursor {
    type V = SegmentView;

    closed spec fn view(&self) -> SegmentView {
        SegmentView { start: self.start, end: self.end, offset: self.offset }
    }
}

impl SegmentCursor {
    #[verifier::type_invariant]
    spec fn inv(self) -> bool {
        self@.wf()
    }

    /// A cursor at the start of the range `start` to `end`.  A range must
    /// hold at least one byte and end before the largest position there is;
    /// any other pair of numbers is refused.
    pub fn new(start: u64, end: u64) -> (cursor: Result<SegmentCursor, Error>)
        ensures
            match cursor {
                Ok(c) => start <= end < u64::MAX && c@ == (SegmentView { start, end, offset: start }),
                Err(e) => !(start <= end < u64::MAX) && e == Error::ConfigError,
            },
    {
        if start <= end && end < u64::MAX {
            Ok(SegmentCursor { start, end, offset: start })
        } else {
            Err(Error::ConfigError)
        }
    }

    /// The first byte of the range.
    pub fn start(&self) -> (start: u64)
        ensures
            start == self@.start,
    {
        self.start
    }

    /// The last byte of the range.
    pub fn end(&self) -> (end: u64)
        ensures
            end == self@.end,
    {
        self.end
    }

    /// The position at which the next chunk will be written.
    pub fn offset(&self) -> (offset: u64)
        ensures
            offset == self@.offset,
            self@.wf(),
    {
        proof {
            use_type_invariant(self);
        }
        self.offset
    }

    /// The number of bytes that the range still waits for.
    pub fn remaining(&self) -> (left: u64)
        ensures
            left == self@.remaining(),
            self@.wf(),
    {
        proof {
            use_type_invariant(self);
        }
        self.end + 1 - self.offset
    }

    /// Whether every byte of the range has been handed out.
    pub fn is_complete(&self) -> (complete: bool)
        ensures
            complete == (self@.remaining() == 0),
    {
        proof {
            use_type_invariant(self);
        }
        self.offset > self.end
    }

    /// Claims room for a chunk of `chunk_len` bytes and says where to write
    /// it: at the position the cursor held, which then moves behind the
    /// chunk.  The chunk so placed lies inside the range.  A chunk that would
    /// reach past the end of the range is refused and leaves the cursor
    /// where it was: the reply holds more than was asked for, and writing it
    /// would damage a neighbouring segment.
    pub fn advance(&mut self, chunk_len: usize) -> (placed: Result<u64, Error>)
        ensures
            old(self)@.wf(),
            final(self)@.wf(),
            final(self)@.start == old(self)@.start,
            final(self)@.end == old(self)@.end,
            match placed {
                Ok(at) => {
                    &&& chunk_len <= old(self)@.remaining()
                    &&& at == old(self)@.offset
                    &&& final(self)@.offset == old(self)@.offset + chunk_len
                    &&& final(self)@.start <= at
                    &&& at + chunk_len <= final(self)@.end + 1
                },
                Err(e) => {
                    &&& chunk_len > old(self)@.remaining()
                    &&& e == Error::ProtocolError
                    &&& final(self)@ == old(self)@
                },
            },
    {
        proof {
            use_type_invariant(&*self);
        }
        let left: u64 = self.end + 1 - self.offset;
        if chunk_len as u64 <= left {
            let at: u64 = self.offset;
            self.offset = self.offset + chunk_len as u64;
            Ok(at)
        } else {
            Err(Error::ProtocolError)
        }
    }
}

} // verus!
