use transport::ranges::SegmentByteRangeIter;
use transport::window::Window;

#[test]
fn test_contains_edge_1() {
    let mut seg_iter = SegmentByteRangeIter::new(2000000, 500);
    let window = Window::new(&mut seg_iter);

    let mut seg_iter_copy = SegmentByteRangeIter::new(2000000, 2000000);

    assert!(window.contains(&seg_iter_copy.next().unwrap()));
}

#[test]
fn test_contains_edge_2() {
    let mut seg_iter = SegmentByteRangeIter::new(2000000, 500);
    let window = Window::new(&mut seg_iter);

    let mut seg_iter_copy = SegmentByteRangeIter::new(2000000, 500);
    let mut range = seg_iter_copy.next();
    for _ in 0..999 {
        range = seg_iter_copy.next();
    }

    assert!(window.contains(&range.unwrap()));
}

#[test]
fn test_contains_edge_3() {
    let mut seg_iter = SegmentByteRangeIter::new(2000000, 500);
    let window = Window::new(&mut seg_iter);

    let mut seg_iter_copy = SegmentByteRangeIter::new(2000000, 500);
    let mut range = seg_iter_copy.next();
    for _ in 0..1000 {
        range = seg_iter_copy.next();
    }
    assert!(!window.contains(&range.unwrap()));
}

#[test]
fn test_1() {
    let mut seg_iter = SegmentByteRangeIter::new(1000, 300);
    assert_eq!(Some(0..300), seg_iter.next());
    assert_eq!(Some(300..600), seg_iter.next());
    assert_eq!(Some(600..900), seg_iter.next());
    assert_eq!(Some(900..1000), seg_iter.next());
    assert_eq!(None, seg_iter.next());
}

#[test]
fn test_2() {
    let mut seg_iter = SegmentByteRangeIter::new(100, 1000);
    assert_eq!(Some(0..100), seg_iter.next());
    assert_eq!(None, seg_iter.next());
}
