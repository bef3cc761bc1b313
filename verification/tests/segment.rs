use transport::ranges::SegmentByteRangeIter;
use transport::segment::{Segment, Status};
use transport::window::Window;

#[test]
fn segment_starts_waiting() {
    let segment = Segment::new(500..1000);
    assert!(!segment.is_received());
    assert_eq!(segment.len(), 0);
    assert_eq!(*segment.byte_range(), 500..1000);
    assert_eq!(segment.request().to_bytes(), b"GET 500 500\n".to_vec());
    assert_eq!(Status::default(), Status::NotReceived);
}

#[test]
fn segment_with_buffer_clears_it() {
    let segment = Segment::with_buffer(0..3, vec![9, 9, 9, 9]);
    assert!(!segment.is_received());
    assert_eq!(segment.len(), 0);
    assert_eq!(segment.as_bytes(), b"");
}

#[test]
fn segment_set_data() {
    let mut segment = Segment::new(0..3);
    segment.set_data(b"abc");
    assert!(segment.is_received());
    assert_eq!(segment.len(), 3);
    assert_eq!(segment.as_bytes(), b"abc");
}

#[test]
fn segment_set_data_twice_keeps_first() {
    let mut segment = Segment::new(0..3);
    segment.set_data(b"abc");
    segment.set_data(b"xyz");
    assert_eq!(segment.as_bytes(), b"abc");
}

#[test]
fn segment_set_data_truncates() {
    let mut segment = Segment::new(0..500);
    let long = vec![5u8; 600];
    segment.set_data(&long);
    assert_eq!(segment.len(), 500);
    assert_eq!(Segment::SIZE, 500);
}

#[test]
fn segment_buffers_come_back_empty() {
    let mut segment = Segment::new(0..3);
    segment.set_data(b"abc");
    let buffer = segment.take_buffer();
    assert!(buffer.is_empty());
    assert!(!segment.is_received());
    assert_eq!(*segment.byte_range(), 0..3);
    let mut segment = Segment::new(0..3);
    segment.set_data(b"abc");
    assert!(segment.yield_buffer().is_empty());
}

#[test]
fn window_of_small_file() {
    let mut ranges = SegmentByteRangeIter::new(1234, 500);
    let window = Window::new(&mut ranges);
    assert_eq!(window.len(), 3);
    assert_eq!(window.persisted_segments(), 0);
    assert!(!ranges.has_next());
    assert_eq!(*window.index(&(0..500)).byte_range(), 0..500);
    assert_eq!(*window.index(&(1000..1234)).byte_range(), 1000..1234);
    assert!(window.contains(&(1499..1500)));
    assert!(!window.contains(&(1500..2000)));
    let waiting = window.unacknowledged_segments();
    assert_eq!(waiting.len(), 3);
    assert_eq!(*waiting[2].byte_range(), 1000..1234);
}

#[test]
fn window_of_empty_file() {
    let mut ranges = SegmentByteRangeIter::new(0, 500);
    let mut window = Window::new(&mut ranges);
    assert_eq!(window.len(), 0);
    assert!(!window.contains(&(0..0)));
    assert_eq!(window.shrink().len(), 0);
    assert_eq!(window.slide_len(), 0);
}

#[test]
fn window_holds_at_most_its_capacity() {
    let mut ranges = SegmentByteRangeIter::new(2000000, 500);
    let window = Window::new(&mut ranges);
    assert_eq!(window.len(), 1000);
    assert_eq!(Window::SIZE, 1000);
    assert_eq!(ranges.next(), Some(500000..500500));
}

#[test]
fn window_records_only_what_it_waits_for() {
    let mut ranges = SegmentByteRangeIter::new(1234, 500);
    let mut window = Window::new(&mut ranges);
    let full = vec![1u8; 500];
    let last = vec![2u8; 234];

    // wrong length for the last segment
    assert!(!window.record_received(&(1000..1500), &full));
    // range that starts inside a slot but is not the slot's
    assert!(!window.record_received(&(1..501), &full));
    // payload shorter than the range
    assert!(!window.record_received(&(0..500), &last));
    // outside the window
    assert!(!window.record_received(&(1500..2000), &full));
    assert_eq!(window.unacknowledged_segments().len(), 3);

    assert!(window.record_received(&(1000..1234), &last));
    assert!(window.index(&(1000..1234)).is_received());
    // duplicate
    assert!(!window.record_received(&(1000..1234), &vec![3u8; 234]));
    assert_eq!(window.index(&(1000..1234)).as_bytes(), &last[..]);
    assert_eq!(window.unacknowledged_segments().len(), 2);
}

#[test]
fn window_slides_over_the_received_head_only() {
    let mut ranges = SegmentByteRangeIter::new(2000, 500);
    let mut window = Window::new(&mut ranges);
    let a = vec![b'a'; 500];
    let b = vec![b'b'; 500];
    let d = vec![b'd'; 500];
    assert!(window.record_received(&(500..1000), &b));
    assert!(window.record_received(&(1500..2000), &d));
    assert_eq!(window.slide_len(), 0);
    assert_eq!(window.shrink().len(), 0);
    assert_eq!(window.len(), 4);

    assert!(window.record_received(&(0..500), &a));
    assert_eq!(window.slide_len(), 2);
    {
        let run = window.shrink();
        assert_eq!(run.len(), 2);
        assert_eq!(*run[0].byte_range(), 0..500);
        assert_eq!(run[0].as_bytes(), &a[..]);
        assert_eq!(*run[1].byte_range(), 500..1000);
        assert_eq!(run[1].as_bytes(), &b[..]);
    }
    assert_eq!(window.len(), 2);
    assert_eq!(window.persisted_segments(), 2);
    assert!(!window.contains(&(0..500)));
    assert!(!window.contains(&(999..1000)));
    assert!(window.contains(&(1000..1500)));
    // a late copy of what has left the window is dropped
    assert!(!window.record_received(&(0..500), &a));
    // a second slide hands nothing out again
    assert_eq!(window.shrink().len(), 0);
    assert_eq!(window.persisted_segments(), 2);
}

#[test]
fn window_extends_by_what_it_recycled() {
    let mut ranges = SegmentByteRangeIter::new(501000, 500);
    let mut window = Window::new(&mut ranges);
    assert_eq!(window.len(), 1000);
    let payload = vec![0u8; 500];
    assert!(window.record_received(&(0..500), &payload));
    assert!(window.record_received(&(500..1000), &payload));
    assert!(window.record_received(&(1000..1500), &payload));
    // nothing recycled yet: nothing is appended
    window.extend(&mut ranges);
    assert_eq!(window.len(), 1000);
    assert_eq!(window.shrink().len(), 3);
    assert_eq!(window.len(), 997);
    // three buffers, two ranges left in the file
    window.extend(&mut ranges);
    assert_eq!(window.len(), 999);
    assert!(!ranges.has_next());
    assert!(window.contains(&(500500..501000)));
    assert!(!window.contains(&(501000..501500)));
    assert_eq!(*window.index(&(500500..501000)).byte_range(), 500500..501000);
    assert!(!window.index(&(500500..501000)).is_received());
}

#[test]
fn window_ranges_are_contiguous() {
    let mut ranges = SegmentByteRangeIter::new(700250, 500);
    let mut window = Window::new(&mut ranges);
    let payload = vec![0u8; 500];
    for round in 0..3 {
        {
            let waiting = window.unacknowledged_segments();
            assert!(waiting.len() <= 1000);
            assert_eq!(waiting.len(), window.len());
            assert_eq!(waiting[0].byte_range().start, window.persisted_segments() * 500);
            for pair in waiting.windows(2) {
                assert_eq!(pair[0].byte_range().end, pair[1].byte_range().start);
            }
        }
        let base = window.persisted_segments() * 500;
        for i in 0..(300 + round) {
            let start = base + i * 500;
            assert!(window.record_received(&(start..start + 500), &payload));
        }
        assert_eq!(window.shrink().len(), 300 + round);
        window.extend(&mut ranges);
    }
    assert_eq!(window.persisted_segments(), 903);
    assert_eq!(window.len(), 498);
    let waiting = window.unacknowledged_segments();
    assert_eq!(*waiting[497].byte_range(), 700000..700250);
}

#[test]
fn window_slot_by_mutable_index() {
    let mut ranges = SegmentByteRangeIter::new(1500, 500);
    let mut window = Window::new(&mut ranges);
    let payload = vec![4u8; 500];
    assert_eq!(*window.index_mut(&(750..760)).byte_range(), 500..1000);
    window.index_mut(&(500..1000)).set_data(&payload);
    assert!(window.index(&(500..1000)).is_received());
    assert!(!window.index(&(0..500)).is_received());
    assert_eq!(window.unacknowledged_segments().len(), 2);
    assert_eq!(window.slide_len(), 0);
    window.index_mut(&(0..500)).set_data(&payload);
    assert_eq!(window.slide_len(), 2);
}
