//! The decisions of the download loop.
//!
//! The caller owns the socket, the output file and the readiness facility.
//! Each cycle it sends what `requests` lists, waits, reports the outcome
//! with `on_notification`, hands every datagram it drained to
//! `store_segment`, appends to the file what `slide` hands out, and calls
//! `refill`. The download is over once `is_complete` holds.

use vstd::prelude::*;
use std::ops::Range;
use crate::messages::{decode, payload_of, request_bytes, Response};
use crate::ranges::{RangesView, SegmentByteRangeIter};
use crate::segment::{Segment, SegmentView};
use crate::window::{
    lemma_record_wf, lemma_refilled_wf, lemma_slid_wf, received_prefix_len, slot_range,
    source_after, views, views_of_refs, Window, WindowView,
};

verus! {

/// An IPv4 address, most significant octet first, and a UDP port.
#[derive(Debug, Clone, Copy, PartialEq, Eq, Structural)]
pub struct ServerAddress {
    pub ip: u32,
    pub port: u16,
}

/// How a wait on the socket ended.
#[derive(Debug, Clone, Copy, PartialEq, Eq, Structural)]
pub enum Notification {
    /// The retransmission deadline passed.
    Timeout,
    /// The socket became readable after this many nanoseconds.
    ReadReady(u64),
}

impl Notification {
    /// Reads the outcome of a wait on the registry, on which only the
    /// socket is registered: any event means that the socket is readable.
    pub fn of_wait(outcome: crate::registry::Notification) -> (notification: Self)
        ensures
            notification == match outcome {
                crate::registry::Notification::Timeout => Notification::Timeout,
                crate::registry::Notification::Events(_, elapsed) => Notification::ReadReady(
                    elapsed,
                ),
            },
    {
        match outcome {
            crate::registry::Notification::Timeout => Notification::Timeout,
            crate::registry::Notification::Events(_, elapsed) => Notification::ReadReady(elapsed),
        }
    }
}

/// The bytes of a run of segments, in order.
pub open spec fn concat_data(run: Seq<SegmentView>) -> Seq<u8>
    decreases run.len(),
{
    if run.len() == 0 {
        Seq::empty()
    } else {
        concat_data(run.drop_last()) + run.last().data
    }
}

pub struct DownloaderView {
    pub window: WindowView,
    pub source: RangesView,
    pub server_address: ServerAddress,
    pub file_size: usize,
    pub bytes_downloaded: usize,
    /// Nanoseconds left until requests are sent again.
    pub deadline: u64,
}

impl DownloaderView {
    /// The file offset up to which segments have left the window.
    pub open spec fn persisted_offset(self) -> int {
        if self.window.base_offset() <= self.file_size {
            self.window.base_offset()
        } else {
            self.file_size as int
        }
    }

    /// The window is a run of the file's own segments, the producer
    /// continues where it ends, and the byte count is that of the
    /// segments that have left it.
    pub open spec fn wf(self) -> bool {
        &&& self.window.wf()
        &&& self.window.fed_by(self.source)
        &&& self.source.file_size == self.file_size
        &&& forall|i: int|
            0 <= i < self.window.queue.len() ==> (#[trigger] self.window.queue[i]).range
                == slot_range(self.file_size, self.window.persisted + i)
        &&& self.bytes_downloaded == self.persisted_offset()
    }

    pub open spec fn is_complete(self) -> bool {
        self.bytes_downloaded == self.file_size
    }

    /// The state at the start of a download of `file_size` bytes.
    pub open spec fn initial(server_address: ServerAddress, file_size: usize) -> DownloaderView {
        let window = WindowView::initial(file_size);
        DownloaderView {
            window,
            source: source_after(window, file_size),
            server_address,
            file_size,
            bytes_downloaded: 0,
            deadline: Downloader::TIMEOUT,
        }
    }

    /// Whether a datagram of `sender` is looked at: it comes from the
    /// server and has the size of a response.
    pub open spec fn admits(self, sender: ServerAddress, datagram: Seq<u8>) -> bool {
        &&& sender == self.server_address
        &&& Response::MIN_HEADER_SIZE <= datagram.len() <= Response::MAX_SIZE
    }

    /// The state after a datagram was drained from the socket. One that is
    /// not admitted, does not decode, or that the window does not accept
    /// changes nothing.
    pub open spec fn after_datagram(
        self,
        sender: ServerAddress,
        datagram: Seq<u8>,
    ) -> DownloaderView {
        if self.admits(sender, datagram) {
            match decode(datagram) {
                Ok((start, length)) => DownloaderView {
                    window: self.window.record(
                        Range { start, end: (start + length) as usize },
                        payload_of(datagram),
                    ),
                    ..self
                },
                Err(_) => self,
            }
        } else {
            self
        }
    }

    /// The state after a wait: a timeout restores the full deadline, a
    /// wakeup uses up the time it took, down to zero.
    pub open spec fn after_notification(self, notification: Notification) -> DownloaderView {
        match notification {
            Notification::Timeout => DownloaderView { deadline: Downloader::TIMEOUT, ..self },
            Notification::ReadReady(elapsed) => DownloaderView {
                deadline: if elapsed >= self.deadline {
                    0
                } else {
                    (self.deadline - elapsed) as u64
                },
                ..self
            },
        }
    }

    /// The state after a slide: the received head of the queue has left
    /// the window and its bytes are counted.
    pub open spec fn after_slide(self) -> DownloaderView {
        let window = self.window.slid();
        DownloaderView {
            window,
            bytes_downloaded: if window.base_offset() <= self.file_size {
                window.base_offset() as usize
            } else {
                self.file_size
            },
            ..self
        }
    }

    /// The state after a refill: the queue is topped up from the file.
    pub open spec fn after_refill(self) -> DownloaderView {
        let window = self.window.refilled(self.file_size);
        DownloaderView { window, source: source_after(window, self.file_size), ..self }
    }

    /// The datagrams of one send phase: a request for each waiting
    /// segment, in queue order.
    pub open spec fn requests(self) -> Seq<Seq<u8>> {
        self.window.unreceived().map_values(|s: SegmentView| request_bytes(s.range))
    }
}

/// A slide keeps the state well formed.
pub proof fn lemma_after_slide_wf(s: DownloaderView)
    requires
        s.wf(),
    ensures
        s.after_slide().wf(),
{
    lemma_slid_wf(s.window);
    let after = s.after_slide();
    let k = received_prefix_len(s.window.queue) as int;
    assert forall|i: int| 0 <= i < after.window.queue.len() implies (
    #[trigger] after.window.queue[i]).range == slot_range(
        after.file_size,
        after.window.persisted + i,
    ) by {
        assert(after.window.queue[i] == s.window.queue[i + k]);
    }
    if k < s.window.queue.len() {
        assert(after.window.queue.last() == s.window.queue.last());
    }
}

/// A refill keeps the state well formed.
pub proof fn lemma_after_refill_wf(s: DownloaderView)
    requires
        s.wf(),
    ensures
        s.after_refill().wf(),
{
    lemma_refilled_wf(s.window, s.source);
    let after = s.after_refill();
    assert forall|i: int| 0 <= i < after.window.queue.len() implies (
    #[trigger] after.window.queue[i]).range == slot_range(
        after.file_size,
        after.window.persisted + i,
    ) by {
        if i < s.window.queue.len() {
            assert(after.window.queue[i] == s.window.queue[i]);
        }
    }
}

/// A drained datagram keeps the state well formed.
pub proof fn lemma_after_datagram_wf(s: DownloaderView, sender: ServerAddress, datagram: Seq<u8>)
    requires
        s.wf(),
    ensures
        s.after_datagram(sender, datagram).wf(),
{
    if s.admits(sender, datagram) {
        match decode(datagram) {
            Ok((start, length)) => {
                let range = Range { start, end: (start + length) as usize };
                lemma_record_wf(s.window, range, payload_of(datagram));
            },
            Err(_) => {},
        }
    }
}

pub struct Downloader {
    window: Window,
    server_address: ServerAddress,
    segment_byte_ranges: SegmentByteRangeIter,
    file_size: usize,
    bytes_downloaded: usize,
    deadline: u64,
}

impl View for Downloader {
    type V = DownloaderView;

    closed spec fn view(&self) -> DownloaderView {
        DownloaderView {
            window: self.window@,
            source: self.segment_byte_ranges@,
            server_address: self.server_address,
            file_size: self.file_size,
            bytes_downloaded: self.bytes_downloaded,
            deadline: self.deadline,
        }
    }
}

impl Downloader {
    /// The retransmission deadline, in nanoseconds.
    pub const TIMEOUT: u64 = 1_000_000_000;

    pub fn new(server_address: ServerAddress, file_size: usize) -> (downloader: Self)
        ensures
            downloader@ == DownloaderView::initial(server_address, file_size),
            downloader@.wf(),
    {
        let mut segment_byte_ranges = SegmentByteRangeIter::new(file_size, Segment::SIZE);
        let window = Window::new(&mut segment_byte_ranges);
        let downloader = Self {
            window,
            segment_byte_ranges,
            server_address,
            file_size,
            bytes_downloaded: 0,
            deadline: Self::TIMEOUT,
        };
        downloader
    }

    pub fn is_complete(&self) -> (done: bool)
        ensures
            done == self@.is_complete(),
    {
        self.bytes_downloaded == self.file_size
    }

    pub fn bytes_downloaded(&self) -> (n: usize)
        ensures
            n == self@.bytes_downloaded,
    {
        self.bytes_downloaded
    }

    pub fn file_size(&self) -> (n: usize)
        ensures
            n == self@.file_size,
    {
        self.file_size
    }

    /// The time the next wait may take, in nanoseconds.
    pub fn deadline(&self) -> (nanos: u64)
        ensures
            nanos == self@.deadline,
    {
        self.deadline
    }

    pub fn server_address(&self) -> (address: ServerAddress)
        ensures
            address == self@.server_address,
    {
        self.server_address
    }

    pub fn window(&self) -> (window: &Window)
        ensures
            window@ == self@.window,
    {
        &self.window
    }

    /// Accounts for a wait on the socket.
    pub fn on_notification(&mut self, notification: Notification)
        ensures
            final(self)@ == old(self)@.after_notification(notification),
    {
        match notification {
            Notification::Timeout => {
                self.deadline = Self::TIMEOUT;
            },
            Notification::ReadReady(elapsed) => {
                self.deadline = if elapsed >= self.deadline {
                    0
                } else {
                    self.deadline - elapsed
                };
            },
        }
    }

    /// Looks at one datagram drained from the socket and stores its
    /// payload where it is a response the window waits for. Tells whether
    /// it was stored.
    pub fn store_segment(&mut self, sender: ServerAddress, datagram: &[u8]) -> (stored: bool)
        ensures
            final(self)@ == old(self)@.after_datagram(sender, datagram@),
            old(self)@.wf() ==> final(self)@.wf(),
            stored == (final(self)@ != old(self)@),
    {
        if sender.ip != self.server_address.ip || sender.port != self.server_address.port {
            return false;
        }
        if !Response::is_message_size_valid(datagram.len()) {
            return false;
        }
        let response = match Response::new(datagram) {
            Ok(response) => response,
            Err(_) => {
                return false;
            },
        };
        let ghost before = self@;
        let stored = self.window.record_received(response.byte_range(), response.data());
        proof {
            let range = response.range();
            assert(range == (Range {
                start: range.start,
                end: (range.start + (range.end - range.start) as usize) as usize,
            }));
            if before.wf() {
                lemma_after_datagram_wf(before, sender, datagram@);
            }
            if stored {
                let slot = before.window.slot_of(range);
                assert(before.window.queue[slot].received != self@.window.queue[slot].received);
            }
        }
        stored
    }

    /// Slides the window and counts the bytes that leave it. The run
    /// handed out is the next part of the file, in order: the caller
    /// appends each segment's bytes to the output.
    pub fn slide(&mut self) -> (run: &[Segment])
        requires
            old(self)@.wf(),
        ensures
            final(self)@ == old(self)@.after_slide(),
            final(self)@.wf(),
            views(run@) == final(self)@.window.recycled,
    {
        let ghost before = self@;
        proof {
            lemma_after_slide_wf(before);
        }
        let k = self.window.slide_len();
        let moved = self.window.persisted_segments() + k;
        self.bytes_downloaded = match moved.checked_mul(Segment::SIZE) {
            Some(offset) => if offset <= self.file_size {
                offset
            } else {
                self.file_size
            },
            None => self.file_size,
        };
        self.window.shrink()
    }

    /// Tops the window up from the file.
    pub fn refill(&mut self)
        requires
            old(self)@.wf(),
        ensures
            final(self)@ == old(self)@.after_refill(),
            final(self)@.wf(),
    {
        proof {
            lemma_after_refill_wf(self@);
            lemma_refilled_wf(self@.window, self@.source);
        }
        self.window.extend(&mut self.segment_byte_ranges);
    }

    /// The datagrams to send in this cycle: a request for each segment of
    /// the window that still waits, in queue order.
    pub fn requests(&self) -> (datagrams: Vec<Vec<u8>>)
        ensures
            datagrams@.map_values(|d: Vec<u8>| d@) == self@.requests(),
    {
        let waiting = self.window.unacknowledged_segments();
        let mut datagrams: Vec<Vec<u8>> = Vec::new();
        let mut i: usize = 0;
        while i < waiting.len()
            invariant
                i <= waiting@.len(),
                views_of_refs(waiting@) == self@.window.unreceived(),
                datagrams@.len() == i,
                forall|j: int|
                    0 <= j < i ==> (#[trigger] datagrams@[j])@ == request_bytes(
                        self@.window.unreceived()[j].range,
                    ),
            decreases waiting@.len() - i,
        {
            let segment = waiting[i];
            assert(views_of_refs(waiting@)[i as int] == segment@);
            datagrams.push(segment.request().to_bytes());
            i += 1;
        }
        assert(datagrams@.map_values(|d: Vec<u8>| d@) =~= self@.requests());
        datagrams
    }
}

} // verus!
