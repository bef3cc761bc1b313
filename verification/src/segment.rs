//! A segment: one byte range of the file, its receipt status and its bytes.

use vstd::prelude::*;
use std::ops::Range;
use crate::messages::{ByteRange, Request};

verus! {

#[derive(Debug, Clone, Copy, PartialEq, Eq, Structural)]
pub enum Status {
    Received,
    NotReceived,
}

impl Default for Status {
    fn default() -> (status: Self)
        ensures
            status == Status::NotReceived,
    {
        Status::NotReceived
    }
}

/// What a segment is: where it belongs in the file, whether its bytes have
/// arrived, and the bytes it holds.
pub struct SegmentView {
    pub range: Range<usize>,
    pub received: bool,
    pub data: Seq<u8>,
}

impl SegmentView {
    /// The length of the range, `end - start`.
    pub open spec fn range_len(self) -> int {
        self.range.end - self.range.start
    }

    /// The buffer never holds more than a segment, holds nothing before
    /// receipt, and holds the whole range after it.
    pub open spec fn wf(self) -> bool {
        &&& self.data.len() <= Segment::SIZE
        &&& !self.received ==> self.data.len() == 0
        &&& self.received ==> self.data.len() == self.range_len()
    }

    /// A segment for `range` that waits for its bytes.
    pub open spec fn fresh(range: Range<usize>) -> SegmentView {
        SegmentView { range, received: false, data: Seq::empty() }
    }

    /// The segment after `bytes` arrived for it: the first arrival fills it
    /// with at most a segment's worth of bytes, a later one changes nothing.
    pub open spec fn with_data(self, bytes: Seq<u8>) -> SegmentView {
        if self.received {
            self
        } else {
            SegmentView {
                range: self.range,
                received: true,
                data: if bytes.len() <= Segment::SIZE {
                    bytes
                } else {
                    bytes.take(Segment::SIZE as int)
                },
            }
        }
    }
}

#[derive(Debug)]
pub struct Segment {
    byte_range: ByteRange,
    status: Status,
    data: Vec<u8>,
}

impl View for Segment {
    type V = SegmentView;

    closed spec fn view(&self) -> SegmentView {
        SegmentView {
            range: self.byte_range,
            received: self.status == Status::Received,
            data: self.data@,
        }
    }
}

impl Segment {
    pub const SIZE: usize = 500;

    pub fn new(byte_range: ByteRange) -> (segment: Self)
        ensures
            segment@ == SegmentView::fresh(byte_range),
    {
        Self::with_buffer(byte_range, Vec::with_capacity(Self::SIZE))
    }

    /// A segment for `byte_range` that reuses `data` as its buffer, emptied.
    pub fn with_buffer(byte_range: ByteRange, data: Vec<u8>) -> (segment: Self)
        ensures
            segment@ == SegmentView::fresh(byte_range),
    {
        let mut data = data;
        data.clear();
        Self { byte_range, status: Status::NotReceived, data }
    }

    /// Stores the bytes that arrived for this segment and marks it received.
    /// At most `SIZE` bytes are kept. A segment that is already received
    /// stays as it is.
    pub fn set_data(&mut self, data: &[u8])
        ensures
            final(self)@ == old(self)@.with_data(data@),
    {
        if self.is_received() {
            return ;
        }
        self.data.clear();
        self.status = Status::Received;
        let n: usize = if data.len() <= Self::SIZE {
            data.len()
        } else {
            Self::SIZE
        };
        let mut i: usize = 0;
        while i < n
            invariant
                i <= n <= data@.len(),
                self.data@ == data@.take(i as int),
                self.status == Status::Received,
                self.byte_range == old(self).byte_range,
            decreases n - i,
        {
            self.data.push(data[i]);
            assert(self.data@ =~= data@.take(i + 1));
            i += 1;
        }
        assert(data@.take(data@.len() as int) =~= data@);
    }

    pub fn is_received(&self) -> (received: bool)
        ensures
            received == self@.received,
    {
        self.status == Status::Received
    }

    /// The number of bytes held.
    pub fn len(&self) -> (n: usize)
        ensures
            n == self@.data.len(),
    {
        self.data.len()
    }

    /// Gives up the buffer, emptied, for reuse.
    pub fn yield_buffer(self) -> (buffer: Vec<u8>)
        ensures
            buffer@.len() == 0,
    {
        let mut data = self.data;
        data.clear();
        data
    }

    /// Takes the buffer out, emptied, and leaves a segment for the same
    /// range that waits for its bytes.
    pub fn take_buffer(&mut self) -> (buffer: Vec<u8>)
        ensures
            buffer@.len() == 0,
            final(self)@ == SegmentView::fresh(old(self)@.range),
    {
        let mut data: Vec<u8> = Vec::new();
        std::mem::swap(&mut self.data, &mut data);
        self.status = Status::NotReceived;
        data.clear();
        data
    }

    pub fn byte_range(&self) -> (range: &ByteRange)
        ensures
            *range == self@.range,
    {
        &self.byte_range
    }

    /// The request that asks the server for this segment's range.
    pub fn request(&self) -> (request: Request<'_>)
        ensures
            request.range() == self@.range,
    {
        Request::new(&self.byte_range)
    }

    /// The bytes held, in file order.
    pub fn as_bytes(&self) -> (bytes: &[u8])
        ensures
            bytes@ == self@.data,
    {
        self.data.as_slice()
    }
}

} // verus!
