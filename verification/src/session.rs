//! A whole download as a sequence of events, and what holds of every one.
//!
//! A session pairs the state of the downloader with the output file. An
//! event is one thing that happens to it: a wait ends, a datagram is
//! drained, the window slides and the file grows, the window is refilled.
//! Nothing is assumed of the order or the number of events, so a lost
//! datagram is an event that never comes, a duplicate one that comes twice,
//! and a reordering any other order.

use vstd::prelude::*;
use std::ops::Range;
use crate::downloader::{
    concat_data, lemma_after_datagram_wf, lemma_after_refill_wf, lemma_after_slide_wf,
    DownloaderView, Notification, ServerAddress,
};
use crate::ascii::{lemma_index_of_byte_bounds, LINE_FEED};
use crate::messages::{decode, payload_of};
use crate::segment::SegmentView;
use crate::window::{
    lemma_received_prefix_len_bounds, lemma_record_wf, lemma_refilled_wf, lemma_slid_wf,
    received_prefix_len, slot_range, WindowView,
};

verus! {

pub struct Session {
    pub state: DownloaderView,
    /// The bytes appended to the output file so far.
    pub file: Seq<u8>,
}

pub enum Event {
    /// A wait on the socket ended.
    Notified(Notification),
    /// A datagram was drained from the socket.
    Datagram(ServerAddress, Seq<u8>),
    /// The window slid and the run it handed out was appended to the file.
    Slide,
    /// The window was refilled.
    Refill,
}

/// The state of the downloader after one event.
pub open spec fn next_state(state: DownloaderView, e: Event) -> DownloaderView {
    match e {
        Event::Notified(n) => state.after_notification(n),
        Event::Datagram(sender, datagram) => state.after_datagram(sender, datagram),
        Event::Slide => state.after_slide(),
        Event::Refill => state.after_refill(),
    }
}

/// The session after one event: only a slide touches the file, and it
/// appends the bytes of the run that left the window.
pub open spec fn step(s: Session, e: Event) -> Session {
    Session {
        state: next_state(s.state, e),
        file: match e {
            Event::Slide => s.file + concat_data(s.state.window.slid().recycled),
            _ => s.file,
        },
    }
}

/// The session after a sequence of events.
pub open spec fn run(s: Session, events: Seq<Event>) -> Session
    decreases events.len(),
{
    if events.len() == 0 {
        s
    } else {
        step(run(s, events.drop_last()), events.last())
    }
}

/// The session at the start of a download.
pub open spec fn start(server_address: ServerAddress, file_size: usize) -> Session {
    Session { state: DownloaderView::initial(server_address, file_size), file: Seq::empty() }
}

/// A datagram that, where it is a response for a range of the file,
/// carries the bytes that `content` has there.
pub open spec fn faithful(datagram: Seq<u8>, content: Seq<u8>) -> bool {
    match decode(datagram) {
        Ok((start, length)) => start + length <= content.len() ==> payload_of(datagram)
            == content.subrange(start as int, start + length),
        Err(_) => true,
    }
}

/// An event that, where it brings a datagram of the server, brings a
/// faithful one. Nothing is asked of what others send.
pub open spec fn honest(e: Event, server_address: ServerAddress, content: Seq<u8>) -> bool {
    match e {
        Event::Datagram(sender, datagram) => sender == server_address ==> faithful(
            datagram,
            content,
        ),
        _ => true,
    }
}

/// Every datagram of the server among the events is faithful to `content`.
pub open spec fn all_honest(
    events: Seq<Event>,
    server_address: ServerAddress,
    content: Seq<u8>,
) -> bool {
    forall|i: int| 0 <= i < events.len() ==> honest(#[trigger] events[i], server_address, content)
}

/// Every received segment of the window holds the bytes of its range.
pub open spec fn agrees_with(window: WindowView, content: Seq<u8>) -> bool {
    forall|i: int|
        0 <= i < window.queue.len() && (#[trigger] window.queue[i]).received ==> window.queue[i].data
            == content.subrange(
            window.queue[i].range.start as int,
            window.queue[i].range.end as int,
        )
}

/// The session is on its way to a copy of `content`: the state is well
/// formed, what the window has received are bytes of `content`, and the
/// file is the part of `content` before the window.
pub open spec fn consistent(s: Session, content: Seq<u8>) -> bool {
    &&& s.state.wf()
    &&& content.len() == s.state.file_size
    &&& agrees_with(s.state.window, content)
    &&& s.file == content.take(s.state.bytes_downloaded as int)
}

/// The range of a response lies before the window, or its slot has been
/// received.
pub open spec fn settled(state: DownloaderView, range: Range<usize>) -> bool {
    ||| range.start < state.window.base_offset()
    ||| (state.window.contains(range) && state.window.queue[state.window.slot_of(range)].received)
}

/// The bytes of the first `j` segments of a queue whose head is received
/// are the bytes of the file from the head of the queue on.
proof fn lemma_concat_head(s: DownloaderView, content: Seq<u8>, j: int)
    requires
        s.wf(),
        content.len() == s.file_size,
        agrees_with(s.window, content),
        0 <= j <= received_prefix_len(s.window.queue),
    ensures
        j > 0 ==> s.bytes_downloaded == s.window.base_offset() && s.bytes_downloaded
            < s.window.queue[j - 1].range.end <= s.file_size,
        concat_data(s.window.queue.take(j)) == content.subrange(
            s.bytes_downloaded as int,
            if j == 0 {
                s.bytes_downloaded as int
            } else {
                s.window.queue[j - 1].range.end as int
            },
        ),
    decreases j,
{
    lemma_received_prefix_len_bounds(s.window.queue);
    let q = s.window.queue;
    if j == 0 {
        assert(concat_data(q.take(0)) =~= Seq::<u8>::empty());
        assert(content.subrange(s.bytes_downloaded as int, s.bytes_downloaded as int)
            =~= Seq::<u8>::empty());
    } else {
        lemma_concat_head(s, content, j - 1);
        assert(q.take(j).drop_last() =~= q.take(j - 1));
        assert(q.take(j).last() == q[j - 1]);
        assert(q[0].range == slot_range(s.file_size, s.window.persisted as int));
        assert(q[j - 1].range == slot_range(s.file_size, s.window.persisted + (j - 1)));
        if j > 1 {
            assert(q[j - 2].range.end == q[j - 1].range.start);
        }
        assert(q[j - 1].received);
        assert(q[j - 1].data == content.subrange(
            q[j - 1].range.start as int,
            q[j - 1].range.end as int,
        ));
        assert(concat_data(q.take(j)) =~= content.subrange(
            s.bytes_downloaded as int,
            q[j - 1].range.end as int,
        ));
    }
}

/// A datagram keeps a consistent session consistent, where it is
/// faithful or not of the server.
proof fn lemma_datagram_consistent(
    s: Session,
    sender: ServerAddress,
    datagram: Seq<u8>,
    content: Seq<u8>,
)
    requires
        consistent(s, content),
        sender == s.state.server_address ==> faithful(datagram, content),
    ensures
        consistent(step(s, Event::Datagram(sender, datagram)), content),
{
    let after = step(s, Event::Datagram(sender, datagram));
    lemma_after_datagram_wf(s.state, sender, datagram);
    if s.state.admits(sender, datagram) {
        match decode(datagram) {
            Ok((start, length)) => {
                let range = Range { start, end: (start + length) as usize };
                let payload = payload_of(datagram);
                lemma_record_wf(s.state.window, range, payload);
                if s.state.window.accepts(range, payload) {
                    let slot = s.state.window.slot_of(range);
                    assert(s.state.window.queue[slot].range == slot_range(
                        s.state.file_size,
                        s.state.window.persisted + slot,
                    ));
                    assert forall|i: int|
                        0 <= i < after.state.window.queue.len() && (
                        #[trigger] after.state.window.queue[i]).received implies after.state.window.queue[i].data
                        == content.subrange(
                        after.state.window.queue[i].range.start as int,
                        after.state.window.queue[i].range.end as int,
                    ) by {
                        if i != slot {
                            assert(after.state.window.queue[i] == s.state.window.queue[i]);
                        }
                    }
                }
            },
            Err(_) => {},
        }
    }
}

/// A slide keeps a consistent session consistent.
proof fn lemma_slide_consistent(s: Session, content: Seq<u8>)
    requires
        consistent(s, content),
    ensures
        consistent(step(s, Event::Slide), content),
{
    let after = step(s, Event::Slide);
    lemma_after_slide_wf(s.state);
    lemma_slid_wf(s.state.window);
    let k = received_prefix_len(s.state.window.queue) as int;
    lemma_concat_head(s.state, content, k);
    assert forall|i: int|
        0 <= i < after.state.window.queue.len() && (
        #[trigger] after.state.window.queue[i]).received implies after.state.window.queue[i].data
        == content.subrange(
        after.state.window.queue[i].range.start as int,
        after.state.window.queue[i].range.end as int,
    ) by {
        assert(after.state.window.queue[i] == s.state.window.queue[i + k]);
    }
    if k > 0 {
        assert(s.state.window.queue[k - 1].range == slot_range(
            s.state.file_size,
            s.state.window.persisted + (k - 1),
        ));
    }
    assert(after.file =~= content.take(after.state.bytes_downloaded as int));
}

/// A refill keeps a consistent session consistent.
proof fn lemma_refill_consistent(s: Session, content: Seq<u8>)
    requires
        consistent(s, content),
    ensures
        consistent(step(s, Event::Refill), content),
{
    let after = step(s, Event::Refill);
    lemma_after_refill_wf(s.state);
    lemma_refilled_wf(s.state.window, s.state.source);
    assert forall|i: int|
        0 <= i < after.state.window.queue.len() && (
        #[trigger] after.state.window.queue[i]).received implies after.state.window.queue[i].data
        == content.subrange(
        after.state.window.queue[i].range.start as int,
        after.state.window.queue[i].range.end as int,
    ) by {
        if i < s.state.window.queue.len() {
            assert(after.state.window.queue[i] == s.state.window.queue[i]);
        }
    }
}

/// One honest event keeps a consistent session consistent.
pub proof fn lemma_step_consistent(s: Session, e: Event, content: Seq<u8>)
    requires
        consistent(s, content),
        honest(e, s.state.server_address, content),
    ensures
        consistent(step(s, e), content),
        step(s, e).state.server_address == s.state.server_address,
{
    match e {
        Event::Notified(n) => {},
        Event::Datagram(sender, datagram) => {
            lemma_datagram_consistent(s, sender, datagram, content);
        },
        Event::Slide => {
            lemma_slide_consistent(s, content);
        },
        Event::Refill => {
            lemma_refill_consistent(s, content);
        },
    }
}

/// A download starts consistent with any content of the declared size.
pub proof fn lemma_start_consistent(
    server_address: ServerAddress,
    file_size: usize,
    content: Seq<u8>,
)
    requires
        content.len() == file_size,
    ensures
        consistent(start(server_address, file_size), content),
        file_size > 0 ==> start(server_address, file_size).state.window.queue.len() > 0
            && !start(server_address, file_size).state.window.queue[0].received,
{
    let s = start(server_address, file_size);
    assert(s.file =~= content.take(0));
    assert forall|i: int| 0 <= i < s.state.window.queue.len() implies {
        let seg = #[trigger] s.state.window.queue[i];
        &&& seg.wf()
        &&& seg.range.start == (s.state.window.persisted + i) * 500
        &&& seg.range.start < seg.range.end <= seg.range.start + 500
    } by {}
}

/// File reconstruction: whatever events a download goes through, in
/// whatever order and however often, as long as every datagram of the
/// server among them is faithful to `content`, the file is the part of
/// `content` before the window; and once the download is complete, the
/// file is `content`, all `file_size` bytes of it.
pub proof fn lemma_run_consistent(
    server_address: ServerAddress,
    file_size: usize,
    events: Seq<Event>,
    content: Seq<u8>,
)
    requires
        content.len() == file_size,
        all_honest(events, server_address, content),
    ensures
        consistent(run(start(server_address, file_size), events), content),
        run(start(server_address, file_size), events).state.server_address == server_address,
        run(start(server_address, file_size), events).state.is_complete() ==> run(
            start(server_address, file_size),
            events,
        ).file == content && run(start(server_address, file_size), events).file.len()
            == file_size,
    decreases events.len(),
{
    let s0 = start(server_address, file_size);
    if events.len() == 0 {
        lemma_start_consistent(server_address, file_size, content);
    } else {
        let before = events.drop_last();
        assert forall|i: int| 0 <= i < before.len() implies honest(
            #[trigger] before[i],
            server_address,
            content,
        ) by {
            assert(before[i] == events[i]);
        }
        lemma_run_consistent(server_address, file_size, before, content);
        assert(events.last() == events[events.len() - 1]);
        lemma_step_consistent(run(s0, before), events.last(), content);
    }
    let end = run(s0, events);
    if end.state.is_complete() {
        assert(content.take(file_size as int) =~= content);
    }
}

/// No byte is written twice: an event leaves the file as it is or appends
/// to it, the file is always as long as the count of bytes downloaded, and
/// what a slide appends are the bytes of the segments that left the
/// window, which start where the file ended.
pub proof fn lemma_file_appended_once(s: Session, e: Event, content: Seq<u8>)
    requires
        consistent(s, content),
        honest(e, s.state.server_address, content),
    ensures
        s.file.len() == s.state.bytes_downloaded,
        step(s, e).file.len() == step(s, e).state.bytes_downloaded,
        step(s, e).file.take(s.file.len() as int) == s.file,
        !(e is Slide) ==> step(s, e).file == s.file,
        step(s, e).file.skip(s.file.len() as int) == content.subrange(
            s.state.bytes_downloaded as int,
            step(s, e).state.bytes_downloaded as int,
        ),
{
    lemma_step_consistent(s, e, content);
    lemma_step_monotone(s.state, e);
    let after = step(s, e);
    assert(after.file.take(s.file.len() as int) =~= s.file);
    assert(after.file.skip(s.file.len() as int) =~= content.subrange(
        s.state.bytes_downloaded as int,
        after.state.bytes_downloaded as int,
    ));
}

/// Progress is monotone: no event lowers the count of bytes downloaded or
/// the count of segments that left the window, and the byte count is a
/// whole number of segments unless it is the size of the file.
pub proof fn lemma_step_monotone(state: DownloaderView, e: Event)
    requires
        state.wf(),
    ensures
        next_state(state, e).wf(),
        next_state(state, e).bytes_downloaded
            >= state.bytes_downloaded,
        next_state(state, e).window.persisted
            >= state.window.persisted,
        next_state(state, e).file_size == state.file_size,
        state.bytes_downloaded <= state.file_size,
        state.bytes_downloaded % 500 == 0 || state.bytes_downloaded == state.file_size,
{
    match e {
        Event::Notified(n) => {},
        Event::Datagram(sender, datagram) => {
            lemma_after_datagram_wf(state, sender, datagram);
            if state.admits(sender, datagram) {
                match decode(datagram) {
                    Ok((start, length)) => {
                        lemma_record_wf(
                            state.window,
                            Range { start, end: (start + length) as usize },
                            payload_of(datagram),
                        );
                    },
                    Err(_) => {},
                }
            }
        },
        Event::Slide => {
            lemma_after_slide_wf(state);
            lemma_slid_wf(state.window);
        },
        Event::Refill => {
            lemma_after_refill_wf(state);
        },
    }
}

/// The window is bounded and contiguous: a well-formed window holds at
/// most its capacity, its head starts at the offset of the segments that
/// left it, and each segment ends where the next one starts.
pub proof fn lemma_window_bounded_contiguous(window: WindowView)
    requires
        window.wf(),
    ensures
        window.queue.len() <= 1000,
        window.queue.len() > 0 ==> window.queue[0].range.start == window.persisted * 500,
        forall|i: int|
            0 <= i < window.queue.len() - 1 ==> (#[trigger] window.queue[i]).range.end
                == window.queue[i + 1].range.start,
{
    if window.queue.len() > 0 {
        assert(window.queue[0].range.start == (window.persisted + 0) * 500);
    }
}

/// The window stays bounded and contiguous through every download.
pub proof fn lemma_run_wf(server_address: ServerAddress, file_size: usize, events: Seq<Event>)
    ensures
        run(start(server_address, file_size), events).state.wf(),
        run(start(server_address, file_size), events).state.window.wf(),
    decreases events.len(),
{
    let s0 = start(server_address, file_size);
    if events.len() == 0 {
        lemma_start_consistent(server_address, file_size, Seq::new(file_size as nat, |i: int| 0u8));
    } else {
        lemma_run_wf(server_address, file_size, events.drop_last());
        let s = run(s0, events.drop_last());
        lemma_step_monotone(s.state, events.last());
    }
}

/// A datagram drained twice in a row does what it did the first time.
pub proof fn lemma_duplicate_datagram(
    state: DownloaderView,
    sender: ServerAddress,
    datagram: Seq<u8>,
)
    ensures
        state.after_datagram(sender, datagram).after_datagram(sender, datagram)
            == state.after_datagram(sender, datagram),
{
}

/// A response whose range is settled is never stored: a datagram for it
/// changes nothing.
pub proof fn lemma_settled_is_dropped(
    state: DownloaderView,
    sender: ServerAddress,
    datagram: Seq<u8>,
)
    requires
        state.wf(),
        decode(datagram) matches Ok((start, length)) && settled(
            state,
            Range { start, end: (start + length) as usize },
        ),
    ensures
        state.after_datagram(sender, datagram) == state,
{
}

/// A stored response settles its range, and a settled range stays
/// settled through every event: no later copy of the response is stored.
pub proof fn lemma_settled_is_stable(state: DownloaderView, e: Event, range: Range<usize>)
    requires
        state.wf(),
        settled(state, range),
    ensures
        settled(next_state(state, e), range),
{
    let after = next_state(state, e);
    match e {
        Event::Notified(n) => {},
        Event::Datagram(sender, datagram) => {
            if state.admits(sender, datagram) {
                match decode(datagram) {
                    Ok((start, length)) => {
                        let other = Range { start, end: (start + length) as usize };
                        lemma_record_wf(state.window, other, payload_of(datagram));
                        if state.window.contains(range) && state.window.accepts(
                            other,
                            payload_of(datagram),
                        ) {
                            let slot = state.window.slot_of(range);
                            if state.window.slot_of(other) != slot {
                                assert(after.window.queue[slot] == state.window.queue[slot]);
                            }
                        }
                    },
                    Err(_) => {},
                }
            }
        },
        Event::Slide => {
            lemma_slid_wf(state.window);
            let k = received_prefix_len(state.window.queue) as int;
            if range.start >= state.window.base_offset() {
                let slot = state.window.slot_of(range);
                if slot >= k {
                    assert(after.window.queue[slot - k] == state.window.queue[slot - k + k]);
                }
            }
        },
        Event::Refill => {
            lemma_refilled_wf(state.window, state.source);
            if range.start >= state.window.base_offset() {
                let slot = state.window.slot_of(range);
                assert(after.window.queue[slot] == state.window.queue[slot]);
            }
        },
    }
}

/// A datagram that was stored settles the range it names.
pub proof fn lemma_stored_is_settled(
    state: DownloaderView,
    sender: ServerAddress,
    datagram: Seq<u8>,
)
    requires
        state.wf(),
        state.after_datagram(sender, datagram) != state,
    ensures
        decode(datagram) matches Ok((start, length)) && settled(
            state.after_datagram(sender, datagram),
            Range { start, end: (start + length) as usize },
        ),
{
}

/// No correct answer is turned away: a datagram from the server that
/// decodes to the range of a waiting segment of the window is stored in
/// that segment, and nothing else changes.
pub proof fn lemma_answer_is_stored(
    state: DownloaderView,
    i: int,
    sender: ServerAddress,
    datagram: Seq<u8>,
)
    requires
        state.wf(),
        0 <= i < state.window.queue.len(),
        !state.window.queue[i].received,
        state.admits(sender, datagram),
        decode(datagram) == Ok::<(usize, usize), crate::messages::DecodeError>(
            (
                state.window.queue[i].range.start,
                (state.window.queue[i].range.end - state.window.queue[i].range.start) as usize,
            ),
        ),
    ensures
        state.after_datagram(sender, datagram) == (DownloaderView {
            window: WindowView {
                queue: state.window.queue.update(
                    i,
                    SegmentView {
                        range: state.window.queue[i].range,
                        received: true,
                        data: payload_of(datagram),
                    },
                ),
                ..state.window
            },
            ..state
        }),
{
    let range = state.window.queue[i].range;
    lemma_index_of_byte_bounds(datagram, LINE_FEED, 0);
    assert(range == (Range {
        start: range.start,
        end: (range.start + (range.end - range.start) as usize) as usize,
    }));
    assert(state.window.slot_of(range) == i);
    assert(state.window.accepts(range, payload_of(datagram)));
}

/// A window whose segments are all received leaves as a whole: after a
/// slide the queue is empty and every segment it held is counted.
pub proof fn lemma_full_window_slides(state: DownloaderView)
    requires
        state.wf(),
        forall|i: int|
            0 <= i < state.window.queue.len() ==> (#[trigger] state.window.queue[i]).received,
    ensures
        state.after_slide().window.queue.len() == 0,
        state.after_slide().window.recycled == state.window.queue,
        state.after_slide().window.persisted == state.window.persisted + state.window.queue.len(),
{
    crate::window::lemma_received_prefix_len(state.window.queue, state.window.queue.len() as int);
    assert(state.window.queue.take(state.window.queue.len() as int) =~= state.window.queue);
}

/// Progress needs only the head of the window: once the first segment of
/// the queue is received, a slide lets segments leave and counts bytes.
pub proof fn lemma_received_head_slides(state: DownloaderView)
    requires
        state.wf(),
        state.window.queue.len() > 0,
        state.window.queue[0].received,
    ensures
        state.after_slide().window.persisted > state.window.persisted,
        state.after_slide().bytes_downloaded > state.bytes_downloaded,
{
    lemma_received_prefix_len_bounds(state.window.queue);
    lemma_slid_wf(state.window);
    assert(state.window.queue[0].range == slot_range(
        state.file_size,
        state.window.persisted as int,
    ));
}

/// A download that is not complete has requests to send once its window
/// has been slid and refilled: the head of the queue waits.
pub proof fn lemma_incomplete_has_requests(state: DownloaderView)
    requires
        state.wf(),
        state.window.queue.len() > 0,
        !state.after_slide().after_refill().is_complete(),
    ensures
        state.after_slide().after_refill().window.queue.len() > 0,
        !state.after_slide().after_refill().window.queue[0].received,
{
    lemma_after_slide_wf(state);
    lemma_slid_wf(state.window);
    lemma_received_prefix_len_bounds(state.window.queue);
    let slid = state.after_slide();
    lemma_after_refill_wf(slid);
    lemma_refilled_wf(slid.window, slid.source);
    let after = slid.after_refill();
    let k = received_prefix_len(state.window.queue) as int;
    if slid.window.queue.len() > 0 {
        assert(after.window.queue[0] == slid.window.queue[0]);
        assert(slid.window.queue[0] == state.window.queue[0 + k]);
    } else {
        assert(after.window.queue.len() > 0);
        assert(after.window.queue[0] == SegmentView::fresh(
            slot_range(slid.file_size, slid.window.persisted as int),
        ));
    }
}

/// The first request of a send phase is for the head of the queue, where
/// the head waits: the segment whose arrival lets the window slide is
/// asked for in every cycle.
pub proof fn lemma_head_is_requested(state: DownloaderView)
    requires
        state.window.queue.len() > 0,
        !state.window.queue[0].received,
    ensures
        state.requests().len() > 0,
        state.requests()[0] == crate::messages::request_bytes(state.window.queue[0].range),
{
    let q = state.window.queue;
    let waits = |s: SegmentView| !s.received;
    let head = q.take(1);
    let rest = q.skip(1);
    assert(q =~= head + rest);
    Seq::filter_distributes_over_add(head, rest, waits);
    assert(head.filter(waits) =~= seq![q[0]]) by {
        reveal(Seq::filter);
        assert(head.drop_last() =~= Seq::<SegmentView>::empty());
        assert(head.last() == q[0]);
        assert(head.drop_last().filter(waits) =~= Seq::<SegmentView>::empty());
    }
    assert(state.window.unreceived()[0] == q[0]);
}

/// Progress: where the head of the queue waits, the response that
/// carries its bytes, once drained, is stored, and the slide that follows
/// counts new bytes. A download that is not complete cannot get stuck on a
/// server that answers the first request of a cycle.
pub proof fn lemma_answered_head_progresses(state: DownloaderView, payload: Seq<u8>)
    requires
        state.wf(),
        state.window.queue.len() > 0,
        !state.window.queue[0].received,
        payload.len() == state.window.queue[0].range.end - state.window.queue[0].range.start,
        crate::messages::response_bytes(state.window.queue[0].range, payload).len()
            <= crate::messages::Response::MAX_SIZE,
    ensures
        state.after_datagram(
            state.server_address,
            crate::messages::response_bytes(state.window.queue[0].range, payload),
        ).after_slide().bytes_downloaded > state.bytes_downloaded,
{
    let range = state.window.queue[0].range;
    let datagram = crate::messages::response_bytes(range, payload);
    crate::messages::lemma_response_round_trip(range, payload);
    crate::ascii::lemma_decimal_round_trip(range.start as nat);
    crate::ascii::lemma_decimal_round_trip(crate::messages::range_len(range) as nat);
    assert(datagram.len() >= crate::messages::Response::MIN_HEADER_SIZE);
    lemma_answer_is_stored(state, 0, state.server_address, datagram);
    lemma_after_datagram_wf(state, state.server_address, datagram);
    lemma_received_head_slides(state.after_datagram(state.server_address, datagram));
}

} // verus!
