//! The byte ranges of a file, cut into segments of one size and produced in
//! file order.

use vstd::prelude::*;
use std::ops::Range;
use crate::messages::ByteRange;

verus! {

/// The state of the producer: where the next range starts, where the file
/// ends, and how long a full range is.
pub struct RangesView {
    pub offset: usize,
    pub file_size: usize,
    pub seg_size: usize,
}

impl RangesView {
    /// No range is left once the offset has reached the end of the file.
    pub open spec fn exhausted(self) -> bool {
        self.offset >= self.file_size
    }

    /// The range produced next: a full one where the file has that much
    /// left, else what is left.
    pub open spec fn upcoming(self) -> Range<usize> {
        let left = self.file_size - self.offset;
        let len = if left < self.seg_size {
            left
        } else {
            self.seg_size as int
        };
        Range { start: self.offset, end: (self.offset + len) as usize }
    }

    /// The state after one range was produced.
    pub open spec fn advanced(self) -> RangesView {
        RangesView { offset: self.upcoming().end, ..self }
    }

    /// The state after `n` calls of `next`: each produces a range until
    /// none is left.
    pub open spec fn after(self, n: nat) -> RangesView
        decreases n,
    {
        if n == 0 {
            self
        } else if self.after((n - 1) as nat).exhausted() {
            self.after((n - 1) as nat)
        } else {
            self.after((n - 1) as nat).advanced()
        }
    }

    /// The state of a producer that has not produced anything yet.
    pub open spec fn fresh(file_size: usize, seg_size: usize) -> RangesView {
        RangesView { offset: 0, file_size, seg_size }
    }
}

/// The ranges cut the file into consecutive pieces of `seg_size` bytes:
/// after `n` calls the producer stands at `n * seg_size`, or at the end of
/// the file where that is less. So the call after the `n`-th produces the
/// range from `n * seg_size` to `(n + 1) * seg_size` or to the end of the
/// file, and with a positive `seg_size` at most `file_size` calls produce
/// a range.
pub proof fn lemma_ranges_cover_file(file_size: usize, seg_size: usize, n: nat)
    ensures
        RangesView::fresh(file_size, seg_size).after(n).file_size == file_size,
        RangesView::fresh(file_size, seg_size).after(n).seg_size == seg_size,
        RangesView::fresh(file_size, seg_size).after(n).offset == if n * seg_size <= file_size {
            n * seg_size
        } else {
            file_size as int
        },
        seg_size > 0 && n >= file_size ==> RangesView::fresh(file_size, seg_size).after(
            n,
        ).exhausted(),
    decreases n,
{
    let start = RangesView::fresh(file_size, seg_size);
    if n > 0 {
        lemma_ranges_cover_file(file_size, seg_size, (n - 1) as nat);
        assert(n * seg_size == (n - 1) * seg_size + seg_size) by (nonlinear_arith);
        assert((n - 1) * seg_size >= 0) by (nonlinear_arith)
            requires
                n >= 1,
                seg_size >= 0,
        ;
    }
    if seg_size > 0 && n >= file_size {
        assert(n * seg_size >= file_size) by (nonlinear_arith)
            requires
                seg_size >= 1,
                n >= file_size,
        ;
    }
}

#[derive(Debug)]
pub struct SegmentByteRangeIter {
    base_byte_offset: usize,
    file_size: usize,
    seg_size: usize,
}

impl View for SegmentByteRangeIter {
    type V = RangesView;

    closed spec fn view(&self) -> RangesView {
        RangesView {
            offset: self.base_byte_offset,
            file_size: self.file_size,
            seg_size: self.seg_size,
        }
    }
}

impl SegmentByteRangeIter {
    pub fn new(file_size: usize, seg_size: usize) -> (ranges: Self)
        ensures
            ranges@ == (RangesView { offset: 0, file_size, seg_size }),
    {
        Self { base_byte_offset: 0, file_size, seg_size }
    }

    /// Produces the next range, or `None` once the file is covered.
    pub fn next(&mut self) -> (range: Option<ByteRange>)
        ensures
            old(self)@.exhausted() ==> range is None && final(self)@ == old(self)@,
            !old(self)@.exhausted() ==> range == Some(old(self)@.upcoming()),
            !old(self)@.exhausted() ==> final(self)@ == old(self)@.advanced(),
    {
        if self.base_byte_offset < self.file_size {
            let diff = self.file_size - self.base_byte_offset;
            let start = self.base_byte_offset;
            let end = start + if diff < self.seg_size {
                diff
            } else {
                self.seg_size
            };
            self.base_byte_offset = end;
            Some(start..end)
        } else {
            None
        }
    }

    /// Whether a call of `next` would produce a range.
    pub fn has_next(&self) -> (more: bool)
        ensures
            more == !self@.exhausted(),
    {
        self.base_byte_offset < self.file_size
    }
}

} // verus!
