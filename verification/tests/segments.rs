use stormdl::manager::SegmentManager;
use stormdl::range::ByteRange;
use stormdl::types::SegmentStatus;

#[test]
fn initialize_uses_size_bucket() {
    let mut m = SegmentManager::new(5_000_000);
    let segs = m.initialize();
    assert_eq!(segs.len(), 4);
    assert_eq!(segs[0].range, ByteRange::new(0, 1_250_000));
    assert_eq!(segs[3].range.end, 5_000_000);
    for s in &segs {
        assert_eq!(s.downloaded, 0);
        assert_eq!(s.status, SegmentStatus::Pending);
    }
}

#[test]
fn update_tracks_and_completes() {
    let mut m = SegmentManager::with_segments(100, 4);
    m.update_segment(1, 10, 500);
    let segs = m.get_segments();
    assert_eq!(segs[1].downloaded, 10);
    assert_eq!(segs[1].speed, 500);
    assert_eq!(segs[1].status, SegmentStatus::Pending);

    // Filling the range completes the segment.
    m.update_segment(1, 25, 700);
    assert_eq!(m.get_segments()[1].status, SegmentStatus::Complete);

    // A shrinking byte count is ignored.
    m.update_segment(1, 5, 0);
    assert_eq!(m.get_segments()[1].downloaded, 25);

    assert_eq!(m.total_downloaded(), 25);
    assert!(!m.all_complete());
    for id in 0..4 {
        m.mark_complete(id);
    }
    assert!(m.all_complete());
    assert_eq!(m.total_downloaded(), 100);
}

#[test]
fn invariant_downloaded_within_range() {
    let mut m = SegmentManager::with_segments(100, 4);
    // An update past the range is refused, keeping downloaded <= len.
    m.update_segment(0, 26, 0);
    assert_eq!(m.get_segments()[0].downloaded, 0);
    // Complete holds exactly when the range is full.
    for s in m.get_segments() {
        assert_eq!(s.status == SegmentStatus::Complete, s.downloaded == s.range.len());
    }
}

#[test]
fn mark_error_keeps_complete_segments() {
    let mut m = SegmentManager::with_segments(100, 2);
    m.mark_error(0);
    assert_eq!(m.get_segments()[0].status, SegmentStatus::Error);
    m.mark_complete(1);
    m.mark_error(1);
    assert_eq!(m.get_segments()[1].status, SegmentStatus::Complete);
}

#[test]
fn split_divides_the_remaining_half() {
    // 4 MiB in one segment, 1 MiB downloaded: 3 MiB remain; the split
    // point is at 1 MiB + 1.5 MiB.
    let mut m = SegmentManager::with_config(4 << 20, 256 * 1024, 32);
    let mut m2 = SegmentManager::with_segments(4 << 20, 1);
    m2.update_segment(0, 1 << 20, 0);
    let child = m2.split_segment(0).expect("split should happen");
    let parent = m2.get_segments()[0];
    let p = (1u64 << 20) + ((3u64 << 20) / 2);
    assert_eq!(parent.range, ByteRange::new(0, p));
    assert_eq!(child.range, ByteRange::new(p, 4 << 20));
    assert_eq!(child.id, 1);
    assert_eq!(child.downloaded, 0);
    assert_eq!(child.status, SegmentStatus::Pending);
    // Parent keeps its downloaded prefix; together the halves cover the
    // pre-split remaining range exactly.
    assert_eq!(parent.downloaded, 1 << 20);
    assert_eq!(parent.range.len() - parent.downloaded + child.range.len(), 3 << 20);
    let _ = m.len();
}

#[test]
fn split_refusals() {
    // Too little remaining.
    let mut m = SegmentManager::with_segments(300_000, 1);
    assert!(m.split_segment(0).is_none());
    // Unknown id.
    let mut m = SegmentManager::with_segments(10 << 20, 4);
    assert!(m.split_segment(9).is_none());
    // Cap reached.
    let mut m = SegmentManager::with_config(100 << 20, 256 * 1024, 4);
    let mut m2 = SegmentManager::with_segments(100 << 20, 4);
    assert_eq!(m2.len(), 4);
    let _ = m.len();
}
