//! The sliding window: a bounded run of consecutive segments of the file,
//! addressed by byte offset.
//!
//! Segments enter at the tail, wait for their bytes, and leave at the head
//! once every segment before them has been received.

use vstd::prelude::*;
use std::collections::VecDeque;
use std::ops::Range;
use crate::messages::ByteRange;
use crate::ranges::{RangesView, SegmentByteRangeIter};
use crate::segment::{Segment, SegmentView};

verus! {

/// The views of a run of segments, in order.
pub open spec fn views(segments: Seq<Segment>) -> Seq<SegmentView> {
    segments.map_values(|s: Segment| s@)
}

/// The views of a run of borrowed segments, in order.
pub open spec fn views_of_refs(segments: Seq<&Segment>) -> Seq<SegmentView> {
    segments.map_values(|s: &Segment| s@)
}

/// The number of segments at the head of `queue` that have been received.
pub open spec fn received_prefix_len(queue: Seq<SegmentView>) -> nat
    decreases queue.len(),
{
    if queue.len() == 0 || !queue[0].received {
        0
    } else {
        1 + received_prefix_len(queue.skip(1))
    }
}

/// The range of the `i`-th segment of a file of `file_size` bytes.
pub open spec fn slot_range(file_size: usize, i: int) -> Range<usize> {
    Range {
        start: (i * 500) as usize,
        end: if i * 500 + 500 <= file_size {
            (i * 500 + 500) as usize
        } else {
            file_size
        },
    }
}

/// The number of segments that a file of `file_size` bytes is cut into.
pub open spec fn segment_count(file_size: usize) -> int {
    (file_size + 499) / 500
}

pub struct WindowView {
    /// The active segments, in file order.
    pub queue: Seq<SegmentView>,
    /// The segments that left the head of the queue at the last slide.
    pub recycled: Seq<SegmentView>,
    /// The number of segments that have left the queue so far.
    pub persisted: nat,
}

impl WindowView {
    /// The file offset of the head of the queue.
    pub open spec fn base_offset(self) -> int {
        self.persisted as int * 500
    }

    /// The file offset just past the last slot of the queue.
    pub open spec fn end_offset(self) -> int {
        (self.persisted as int + self.queue.len()) * 500
    }

    pub open spec fn contains(self, range: Range<usize>) -> bool {
        self.base_offset() <= range.start && range.start < self.end_offset()
    }

    /// The place in the queue of the segment that `range` starts in.
    pub open spec fn slot_of(self, range: Range<usize>) -> int {
        range.start as int / 500 - self.persisted
    }

    /// The queue and the pool together never hold more than the window's
    /// capacity, and the queue is a run of consecutive slots.
    pub open spec fn wf(self) -> bool {
        &&& self.queue.len() + self.recycled.len() <= Window::SIZE
        &&& self.queue_wf()
    }

    /// The queue is a run of consecutive slots: the `i`-th segment starts
    /// at slot `persisted + i`, is not empty and no longer than a segment,
    /// and ends where the next one starts.
    pub open spec fn queue_wf(self) -> bool {
        &&& self.persisted + self.queue.len() <= usize::MAX
        &&& forall|i: int|
            0 <= i < self.queue.len() ==> {
                let s = #[trigger] self.queue[i];
                &&& s.wf()
                &&& s.range.start == (self.persisted + i) * 500
                &&& s.range.start < s.range.end <= s.range.start + 500
            }
        &&& forall|i: int|
            0 <= i < self.queue.len() - 1 ==> (#[trigger] self.queue[i]).range.end == self.queue[i
                + 1].range.start
    }

    /// The producer continues where the queue ends.
    pub open spec fn fed_by(self, source: RangesView) -> bool {
        &&& source.seg_size == Segment::SIZE
        &&& source.offset <= source.file_size
        &&& self.queue.len() > 0 ==> self.queue.last().range.end == source.offset
        &&& !source.exhausted() ==> source.offset == self.end_offset()
        &&& source.exhausted() ==> self.end_offset() >= source.file_size
    }

    /// The number of segments that a refill appends: one for each segment
    /// in the pool, but no more than the file still has beyond the queue.
    pub open spec fn refill_count(self, file_size: usize) -> nat {
        let left = segment_count(file_size) - (self.persisted + self.queue.len());
        if left <= 0 {
            0
        } else if left <= self.recycled.len() {
            left as nat
        } else {
            self.recycled.len()
        }
    }

    /// The window after a refill from a file of `file_size` bytes.
    pub open spec fn refilled(self, file_size: usize) -> WindowView {
        self.extended(file_size, self.refill_count(file_size))
    }

    /// Whether a response for `range` with `payload` is stored: the range
    /// lies in the window, is exactly that of its slot, the slot still
    /// waits, and the payload has the length of the range, which is at
    /// most that of a segment.
    pub open spec fn accepts(self, range: Range<usize>, payload: Seq<u8>) -> bool {
        &&& self.contains(range)
        &&& self.queue[self.slot_of(range)].range == range
        &&& !self.queue[self.slot_of(range)].received
        &&& payload.len() == range.end - range.start
        &&& payload.len() <= Segment::SIZE
    }

    /// The window after a response for `range` with `payload` arrived.
    pub open spec fn record(self, range: Range<usize>, payload: Seq<u8>) -> WindowView {
        if self.accepts(range, payload) {
            WindowView {
                queue: self.queue.update(
                    self.slot_of(range),
                    SegmentView { range, received: true, data: payload },
                ),
                ..self
            }
        } else {
            self
        }
    }

    /// The number of segments a new window holds: all of the file's, or
    /// as many as fit.
    pub open spec fn initial_count(file_size: usize) -> nat {
        let all = segment_count(file_size);
        if all <= Window::SIZE {
            all as nat
        } else {
            Window::SIZE as nat
        }
    }

    /// The window at the start of a download of `file_size` bytes: the
    /// first segments of the file, all waiting.
    pub open spec fn initial(file_size: usize) -> WindowView {
        WindowView {
            queue: Seq::new(
                Self::initial_count(file_size),
                |i: int| SegmentView::fresh(slot_range(file_size, i)),
            ),
            recycled: Seq::empty(),
            persisted: 0,
        }
    }

    /// The window after `k` segments were appended from a file of
    /// `file_size` bytes, each reusing a buffer from the head of the pool.
    pub open spec fn extended(self, file_size: usize, k: nat) -> WindowView {
        WindowView {
            queue: self.queue + Seq::new(
                k,
                |j: int|
                    SegmentView::fresh(
                        slot_range(file_size, self.persisted + self.queue.len() + j),
                    ),
            ),
            recycled: self.recycled.skip(k as int),
            persisted: self.persisted,
        }
    }

    /// The segments of the queue that still wait for their bytes, in order.
    pub open spec fn unreceived(self) -> Seq<SegmentView> {
        self.queue.filter(|s: SegmentView| !s.received)
    }

    /// The window after a slide: the received head of the queue has moved
    /// to the recycled pool, replacing what the pool held.
    pub open spec fn slid(self) -> WindowView {
        let k = received_prefix_len(self.queue);
        WindowView {
            queue: self.queue.skip(k as int),
            recycled: self.queue.take(k as int),
            persisted: self.persisted + k,
        }
    }
}

/// The received head of a queue is the one run of received segments that
/// starts at the head and ends before a waiting segment or at the tail.
pub proof fn lemma_received_prefix_len(queue: Seq<SegmentView>, k: int)
    requires
        0 <= k <= queue.len(),
        forall|j: int| 0 <= j < k ==> (#[trigger] queue[j]).received,
        k < queue.len() ==> !queue[k].received,
    ensures
        received_prefix_len(queue) == k,
    decreases k,
{
    if k > 0 {
        let rest = queue.skip(1);
        assert forall|j: int| 0 <= j < k - 1 implies (#[trigger] rest[j]).received by {
            assert(rest[j] == queue[j + 1]);
        }
        lemma_received_prefix_len(rest, k - 1);
    }
}

/// The received head is no longer than the queue, holds received segments
/// only, and the segment after it, if there is one, still waits.
pub proof fn lemma_received_prefix_len_bounds(queue: Seq<SegmentView>)
    ensures
        received_prefix_len(queue) <= queue.len(),
        forall|j: int| 0 <= j < received_prefix_len(queue) ==> (#[trigger] queue[j]).received,
        received_prefix_len(queue) < queue.len() ==> !queue[received_prefix_len(
            queue,
        ) as int].received,
    decreases queue.len(),
{
    if queue.len() == 0 || !queue[0].received {
    } else {
        let rest = queue.skip(1);
        lemma_received_prefix_len_bounds(rest);
        assert forall|j: int| 0 <= j < received_prefix_len(queue) implies (
        #[trigger] queue[j]).received by {
            if j > 0 {
                assert(rest[j - 1] == queue[j]);
            }
        }
        if received_prefix_len(queue) < queue.len() {
            assert(rest[received_prefix_len(rest) as int] == queue[received_prefix_len(
                queue,
            ) as int]);
        }
    }
}

/// Storing a response keeps the window well formed and moves nothing.
pub proof fn lemma_record_wf(w: WindowView, range: Range<usize>, payload: Seq<u8>)
    requires
        w.wf(),
    ensures
        w.record(range, payload).wf(),
        w.record(range, payload).persisted == w.persisted,
        w.record(range, payload).recycled == w.recycled,
        w.record(range, payload).queue.len() == w.queue.len(),
        forall|i: int|
            0 <= i < w.queue.len() ==> (#[trigger] w.record(range, payload).queue[i]).range
                == w.queue[i].range,
{
    let after = w.record(range, payload);
    if w.accepts(range, payload) {
        let slot = w.slot_of(range);
        assert forall|i: int| 0 <= i < after.queue.len() implies {
            let s = #[trigger] after.queue[i];
            &&& s.wf()
            &&& s.range.start == (after.persisted + i) * 500
            &&& s.range.start < s.range.end <= s.range.start + 500
        } by {
            if i != slot {
                assert(after.queue[i] == w.queue[i]);
            } else {
                assert(w.queue[i].range == range);
            }
        }
        assert forall|i: int| 0 <= i < after.queue.len() - 1 implies (
        #[trigger] after.queue[i]).range.end == after.queue[i + 1].range.start by {
            assert(after.queue[i].range == w.queue[i].range);
            assert(after.queue[i + 1].range == w.queue[i + 1].range);
        }
        assert forall|i: int| 0 <= i < w.queue.len() implies (#[trigger] after.queue[i]).range
            == w.queue[i].range by {
            if i != slot {
                assert(after.queue[i] == w.queue[i]);
            }
        }
    }
}

/// A slide keeps the window well formed; what stays in the queue keeps
/// its place in the file.
pub proof fn lemma_slid_wf(w: WindowView)
    requires
        w.wf(),
    ensures
        w.slid().wf(),
        received_prefix_len(w.queue) <= w.queue.len(),
        w.slid().persisted + w.slid().queue.len() == w.persisted + w.queue.len(),
        forall|i: int|
            0 <= i < w.slid().queue.len() ==> #[trigger] w.slid().queue[i] == w.queue[i
                + received_prefix_len(w.queue)],
        forall|i: int|
            0 <= i < w.slid().recycled.len() ==> #[trigger] w.slid().recycled[i] == w.queue[i]
                && w.queue[i].received,
{
    lemma_received_prefix_len_bounds(w.queue);
    let k = received_prefix_len(w.queue) as int;
    let after = w.slid();
    assert forall|i: int| 0 <= i < after.queue.len() implies {
        let s = #[trigger] after.queue[i];
        &&& s.wf()
        &&& s.range.start == (after.persisted + i) * 500
        &&& s.range.start < s.range.end <= s.range.start + 500
    } by {
        assert(after.queue[i] == w.queue[i + k]);
    }
    assert forall|i: int| 0 <= i < after.queue.len() - 1 implies (
    #[trigger] after.queue[i]).range.end == after.queue[i + 1].range.start by {
        assert(after.queue[i] == w.queue[i + k]);
        assert(after.queue[i + 1] == w.queue[i + k + 1]);
    }
}

/// The producer that continues where `window` ends in a file of
/// `file_size` bytes.
pub open spec fn source_after(window: WindowView, file_size: usize) -> RangesView {
    RangesView {
        offset: if window.end_offset() <= file_size {
            window.end_offset() as usize
        } else {
            file_size
        },
        file_size,
        seg_size: Segment::SIZE,
    }
}

/// A refill keeps the window well formed and the producer in step.
pub proof fn lemma_refilled_wf(w: WindowView, source: RangesView)
    requires
        w.wf(),
        w.fed_by(source),
    ensures
        w.refilled(source.file_size).wf(),
        w.refilled(source.file_size).fed_by(
            source_after(w.refilled(source.file_size), source.file_size),
        ),
        source == source_after(w, source.file_size),
        forall|i: int|
            0 <= i < w.queue.len() ==> #[trigger] w.refilled(source.file_size).queue[i]
                == w.queue[i],
        forall|i: int|
            w.queue.len() <= i < w.refilled(source.file_size).queue.len() ==> #[trigger] w.refilled(
                source.file_size,
            ).queue[i] == SegmentView::fresh(slot_range(source.file_size, w.persisted + i)),
{
    let fs = source.file_size;
    let k = w.refill_count(fs) as int;
    let after = w.refilled(fs);
    let n = w.queue.len() as int;
    assert forall|i: int| 0 <= i < after.queue.len() implies {
        let s = #[trigger] after.queue[i];
        &&& s.wf()
        &&& s.range.start == (after.persisted + i) * 500
        &&& s.range.start < s.range.end <= s.range.start + 500
    } by {
        if i < n {
            assert(after.queue[i] == w.queue[i]);
        } else {
            assert(after.queue[i] == SegmentView::fresh(slot_range(fs, w.persisted + n + (i - n))));
        }
    }
    assert forall|i: int| 0 <= i < after.queue.len() - 1 implies (
    #[trigger] after.queue[i]).range.end == after.queue[i + 1].range.start by {
        if i + 1 < n {
            assert(after.queue[i] == w.queue[i]);
            assert(after.queue[i + 1] == w.queue[i + 1]);
        } else if i + 1 == n {
            assert(after.queue[i] == w.queue[i]);
            assert(w.queue[i] == w.queue.last());
            assert(after.queue[i + 1] == SegmentView::fresh(slot_range(fs, w.persisted + n + 0)));
        } else {
            assert(after.queue[i] == SegmentView::fresh(slot_range(fs, w.persisted + n + (i - n))));
            assert(after.queue[i + 1] == SegmentView::fresh(
                slot_range(fs, w.persisted + n + (i + 1 - n)),
            ));
        }
    }
    if after.queue.len() > 0 {
        let last = after.queue.len() - 1;
        if k > 0 {
            assert(after.queue[last] == SegmentView::fresh(
                slot_range(fs, w.persisted + n + (k - 1)),
            ));
        } else {
            assert(after.queue[last] == w.queue.last());
        }
    }
    assert forall|i: int| n <= i < after.queue.len() implies #[trigger] after.queue[i]
        == SegmentView::fresh(slot_range(fs, w.persisted + i)) by {
        assert(after.queue[i] == SegmentView::fresh(slot_range(fs, w.persisted + n + (i - n))));
    }
}

#[derive(Debug)]
pub struct Window {
    queue: VecDeque<Segment>,
    received_buffer: Vec<Segment>,
    read_seg_count: usize,
}

impl View for Window {
    type V = WindowView;

    closed spec fn view(&self) -> WindowView {
        WindowView {
            queue: views(self.queue@),
            recycled: views(self.received_buffer@),
            persisted: self.read_seg_count as nat,
        }
    }
}

/// `IndexMut` of `VecDeque`: a mutable borrow of the element at `i`. The
/// queue afterwards differs from the queue before in that one place only,
/// where it holds what the borrow was left with. Out of bounds the std
/// method panics, so `i` must be in bounds.
#[verifier::external_body]
fn slot_mut(queue: &mut VecDeque<Segment>, i: usize) -> (slot: &mut Segment)
    requires
        i < old(queue)@.len(),
    ensures
        *slot == old(queue)@[i as int],
        final(queue)@ == old(queue)@.update(i as int, *final(slot)),
{
    &mut queue[i]
}

impl Window {
    pub const SIZE: usize = 1000;

    /// A window over the first segments of a file: as many as the window
    /// holds, or all of them where the file has fewer.
    pub fn new(segment_byte_ranges: &mut SegmentByteRangeIter) -> (window: Self)
        requires
            old(segment_byte_ranges)@.offset == 0,
            old(segment_byte_ranges)@.seg_size == Segment::SIZE,
        ensures
            window@ == WindowView::initial(old(segment_byte_ranges)@.file_size),
            final(segment_byte_ranges)@ == source_after(
                window@,
                old(segment_byte_ranges)@.file_size,
            ),
            window@.wf(),
            window@.fed_by(final(segment_byte_ranges)@),
    {
        let ghost file_size = segment_byte_ranges@.file_size;
        let mut queue: VecDeque<Segment> = VecDeque::with_capacity(Self::SIZE);
        let mut n: usize = 0;
        let mut more = true;
        while more && n < Self::SIZE
            invariant
                n <= Self::SIZE,
                !more ==> segment_byte_ranges@.exhausted(),
                queue@.len() == n,
                segment_byte_ranges@.seg_size == Segment::SIZE,
                segment_byte_ranges@.file_size == file_size,
                segment_byte_ranges@.offset == if n * 500 <= file_size {
                    n * 500
                } else {
                    file_size as int
                },
                n > 0 ==> (n - 1) * 500 < file_size,
                forall|i: int|
                    0 <= i < n ==> (#[trigger] queue@[i])@ == SegmentView::fresh(
                        slot_range(file_size, i),
                    ),
            decreases Self::SIZE - n + if more { 1int } else { 0int },
        {
            match segment_byte_ranges.next() {
                Some(byte_range) => {
                    assert(byte_range == slot_range(file_size, n as int));
                    queue.push_back(Segment::new(byte_range));
                    n += 1;
                },
                None => {
                    more = false;
                },
            }
        }
        let window = Self { queue, received_buffer: Vec::new(), read_seg_count: 0 };
        proof {
            assert forall|i: int| 0 <= i < window@.queue.len() implies #[trigger] window@.queue[i]
                == SegmentView::fresh(slot_range(file_size, i)) by {
                assert(window@.queue[i] == window.queue@[i]@);
            }
            assert(window@.queue =~= WindowView::initial(file_size).queue);
            assert(window@.recycled =~= WindowView::initial(file_size).recycled);
        }
        window
    }

    /// The number of segments at the head of the queue that are received.
    pub fn slide_len(&self) -> (k: usize)
        ensures
            k == received_prefix_len(self@.queue),
    {
        let mut k: usize = 0;
        while k < self.queue.len() && self.queue[k].is_received()
            invariant
                k <= self.queue@.len(),
                forall|j: int| 0 <= j < k ==> (#[trigger] self@.queue[j]).received,
            decreases self.queue@.len() - k,
        {
            k += 1;
        }
        proof {
            lemma_received_prefix_len(self@.queue, k as int);
        }
        k
    }

    /// Slides the window: the received head of the queue moves to the
    /// recycled pool, which is emptied first, and is handed out in file
    /// order. What stays in the queue starts with a waiting segment.
    pub fn shrink(&mut self) -> (run: &[Segment])
        requires
            old(self)@.wf(),
        ensures
            final(self)@ == old(self)@.slid(),
            final(self)@.wf(),
            views(run@) == final(self)@.recycled,
    {
        self.received_buffer.clear();
        let ghost before = self@;
        let mut k: usize = 0;
        while self.queue.len() > 0 && self.queue[0].is_received()
            invariant
                before.wf(),
                before.queue == old(self)@.queue,
                before.persisted == old(self)@.persisted,
                k <= before.queue.len(),
                forall|j: int| 0 <= j < k ==> (#[trigger] before.queue[j]).received,
                self@.queue == before.queue.skip(k as int),
                self@.recycled == before.queue.take(k as int),
                self@.persisted == before.persisted + k,
                self.queue@.len() == before.queue.len() - k,
                self.read_seg_count == before.persisted + k,
                self.received_buffer@.len() == k,
            decreases self.queue@.len(),
        {
            let ghost queue_then = self.queue@;
            let ghost pool_then = self.received_buffer@;
            assert(views(queue_then) == before.queue.skip(k as int));
            assert(views(pool_then) == before.queue.take(k as int));
            assert(views(queue_then)[0] == before.queue.skip(k as int)[0]);
            match self.queue.pop_front() {
                Some(segment) => {
                    self.received_buffer.push(segment);
                    self.read_seg_count += 1;
                    proof {
                        assert(segment@ == before.queue[k as int]);
                        assert forall|j: int| 0 <= j < self.queue@.len() implies views(
                            self.queue@,
                        )[j] == before.queue.skip(k + 1)[j] by {
                            assert(self.queue@[j] == queue_then[j + 1]);
                            assert(views(queue_then)[j + 1] == queue_then[j + 1]@);
                            assert(before.queue.skip(k as int)[j + 1] == before.queue[k + j + 1]);
                        }
                        assert(views(self.queue@) =~= before.queue.skip(k + 1));
                        assert forall|j: int| 0 <= j < k + 1 implies views(
                            self.received_buffer@,
                        )[j] == before.queue.take(k + 1)[j] by {
                            if j < k {
                                assert(self.received_buffer@[j] == pool_then[j]);
                                assert(views(pool_then)[j] == pool_then[j]@);
                                assert(before.queue.take(k as int)[j] == before.queue[j]);
                            }
                        }
                        assert(views(self.received_buffer@) =~= before.queue.take(k + 1));
                    }
                    k += 1;
                },
                None => {},
            }
        }
        proof {
            if k < before.queue.len() {
                assert(self@.queue[0] == before.queue[k as int]);
            }
            lemma_received_prefix_len(before.queue, k as int);
            lemma_slid_wf(before);
        }
        self.received_buffer.as_slice()
    }

    pub fn len(&self) -> (n: usize)
        ensures
            n == self@.queue.len(),
    {
        self.queue.len()
    }

    /// The number of segments that have left the queue so far.
    pub fn persisted_segments(&self) -> (n: usize)
        ensures
            n == self@.persisted,
    {
        self.read_seg_count
    }

    pub fn contains(&self, other: &Range<usize>) -> (inside: bool)
        ensures
            inside == self@.contains(*other),
    {
        let slot = other.start / Segment::SIZE;
        self.read_seg_count <= slot && slot - self.read_seg_count < self.queue.len()
    }

    /// The segment whose slot `seg_byte_range` starts in.
    pub fn index(&self, seg_byte_range: &ByteRange) -> (segment: &Segment)
        requires
            self@.contains(*seg_byte_range),
        ensures
            segment@ == self@.queue[self@.slot_of(*seg_byte_range)],
    {
        let seg_index = seg_byte_range.start / Segment::SIZE;
        &self.queue[seg_index - self.read_seg_count]
    }

    /// The segment whose slot `seg_byte_range` starts in, for change. The
    /// window afterwards holds in that slot what the borrow was left with;
    /// it is for the caller to leave a segment there that keeps the
    /// window well formed.
    pub fn index_mut(&mut self, seg_byte_range: &ByteRange) -> (segment: &mut Segment)
        requires
            old(self)@.contains(*seg_byte_range),
        ensures
            segment@ == old(self)@.queue[old(self)@.slot_of(*seg_byte_range)],
            final(self)@ == (WindowView {
                queue: old(self)@.queue.update(
                    old(self)@.slot_of(*seg_byte_range),
                    final(segment)@,
                ),
                ..old(self)@
            }),
    {
        let seg_index = seg_byte_range.start / Segment::SIZE;
        let i = seg_index - self.read_seg_count;
        let ghost queue_then = self.queue@;
        let segment = slot_mut(&mut self.queue, i);
        proof {
            assert(views(queue_then.update(i as int, *final(segment))) =~= views(
                queue_then,
            ).update(i as int, final(segment)@));
        }
        segment
    }

    /// Stores the payload of a response in its slot. A response is stored
    /// only where the window accepts it; any other leaves the window as it
    /// is. Tells whether the payload was stored.
    pub fn record_received(&mut self, byte_range: &ByteRange, payload: &[u8]) -> (stored: bool)
        ensures
            stored == old(self)@.accepts(*byte_range, payload@),
            final(self)@ == old(self)@.record(*byte_range, payload@),
            old(self)@.wf() ==> final(self)@.wf(),
    {
        if !self.contains(byte_range) || byte_range.end < byte_range.start {
            return false;
        }
        let i = byte_range.start / Segment::SIZE - self.read_seg_count;
        let slot = &self.queue[i];
        assert(self@.queue[i as int] == self.queue@[i as int]@);
        if slot.is_received() || slot.byte_range().start != byte_range.start
            || slot.byte_range().end != byte_range.end || payload.len() != byte_range.end
            - byte_range.start || payload.len() > Segment::SIZE {
            return false;
        }
        let ghost before = self@;
        let slot = slot_mut(&mut self.queue, i);
        slot.set_data(payload);
        proof {
            assert(self@.queue =~= before.queue.update(
                i as int,
                SegmentView { range: *byte_range, received: true, data: payload@ },
            ));
            if before.wf() {
                lemma_record_wf(before, *byte_range, payload@);
            }
        }
        true
    }

    /// Tops the queue up: for each segment in the recycled pool, from its
    /// head, the next range of the file is appended to the queue in that
    /// segment's buffer, until the pool is empty or the file is covered.
    pub fn extend(&mut self, segment_byte_ranges: &mut SegmentByteRangeIter)
        requires
            old(self)@.wf(),
            old(self)@.fed_by(old(segment_byte_ranges)@),
        ensures
            final(self)@.wf(),
            final(self)@.fed_by(final(segment_byte_ranges)@),
            final(self)@ == old(self)@.refilled(old(segment_byte_ranges)@.file_size),
            final(segment_byte_ranges)@ == source_after(
                final(self)@,
                old(segment_byte_ranges)@.file_size,
            ),
    {
        let ghost before = self@;
        let ghost pool0 = self.received_buffer@;
        let ghost file_size = segment_byte_ranges@.file_size;
        let mut used: usize = 0;
        while used < self.received_buffer.len() && segment_byte_ranges.has_next()
            invariant
                before.wf(),
                before == old(self)@,
                used <= pool0.len(),
                pool0.len() == before.recycled.len(),
                self.received_buffer@.len() == pool0.len(),
                forall|j: int| used <= j < pool0.len() ==> self.received_buffer@[j] == pool0[j],
                self.read_seg_count == before.persisted,
                self.queue@.len() == before.queue.len() + used,
                self@.queue == before.extended(file_size, used as nat).queue,
                self@.queue_wf(),
                self@.fed_by(segment_byte_ranges@),
                segment_byte_ranges@.file_size == file_size,
                used > 0 ==> (before.persisted + before.queue.len() + used - 1) * 500 < file_size,
            decreases pool0.len() - used,
        {
            let ghost queue_then = self@.queue;
            match segment_byte_ranges.next() {
                Some(byte_range) => {
                    assert(byte_range == slot_range(
                        file_size,
                        before.persisted + before.queue.len() + used,
                    ));
                    let data = self.received_buffer[used].take_buffer();
                    self.queue.push_back(Segment::with_buffer(byte_range, data));
                    proof {
                        assert(self@.queue =~= queue_then.push(SegmentView::fresh(byte_range)));
                        assert(self@.queue =~= before.extended(file_size, (used + 1) as nat).queue);
                        assert forall|i: int| 0 <= i < self@.queue.len() implies {
                            let s = #[trigger] self@.queue[i];
                            &&& s.wf()
                            &&& s.range.start == (self@.persisted + i) * 500
                            &&& s.range.start < s.range.end <= s.range.start + 500
                        } by {
                            if i < queue_then.len() {
                                assert(self@.queue[i] == queue_then[i]);
                            }
                        }
                        assert forall|i: int| 0 <= i < self@.queue.len() - 1 implies (
                        #[trigger] self@.queue[i]).range.end == self@.queue[i + 1].range.start by {
                            assert(self@.queue[i] == queue_then[i]);
                            if i + 1 < queue_then.len() {
                                assert(self@.queue[i + 1] == queue_then[i + 1]);
                            }
                        }
                    }
                    used += 1;
                },
                None => {},
            }
        }
        if used == self.received_buffer.len() {
            self.received_buffer.clear();
        } else {
            let rest = self.received_buffer.split_off(used);
            self.received_buffer = rest;
        }
        proof {
            assert(self.received_buffer@ =~= pool0.skip(used as int));
            assert(views(pool0.skip(used as int)) =~= views(pool0).skip(used as int));
            assert(self@ == before.extended(file_size, used as nat));
            assert(used == before.refill_count(file_size));
        }
    }

    /// The segments of the queue that still wait for their bytes, in queue
    /// order: those a request is sent for.
    pub fn unacknowledged_segments(&self) -> (waiting: Vec<&Segment>)
        ensures
            views_of_refs(waiting@) == self@.unreceived(),
    {
        let mut waiting: Vec<&Segment> = Vec::new();
        let mut i: usize = 0;
        let ghost waits = |s: SegmentView| !s.received;
        assert(self@.queue.take(0).filter(waits) =~= Seq::<SegmentView>::empty()) by {
            reveal(Seq::filter);
        }
        while i < self.queue.len()
            invariant
                i <= self.queue@.len(),
                waits == |s: SegmentView| !s.received,
                views_of_refs(waiting@) == self@.queue.take(i as int).filter(waits),
            decreases self.queue@.len() - i,
        {
            let segment = &self.queue[i];
            let ghost waiting_then = waiting@;
            proof {
                reveal(Seq::filter);
                assert(self@.queue.take(i + 1).drop_last() =~= self@.queue.take(i as int));
                assert(self@.queue.take(i + 1).last() == segment@);
            }
            if !segment.is_received() {
                waiting.push(segment);
                assert(views_of_refs(waiting@) =~= views_of_refs(waiting_then).push(segment@));
            }
            i += 1;
        }
        assert(self@.queue.take(i as int) =~= self@.queue);
        waiting
    }
}

} // verus!
