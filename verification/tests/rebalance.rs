use stormdl::manager::SegmentManager;
use stormdl::rebalancer::{isqrt64, Rebalancer};
use stormdl::orchestrator::{rebalanced_event, DownloadEvent};
use stormdl::range::ByteRange;
use stormdl::types::DownloadId;

#[test]
fn idle_segments_are_left_alone() {
    let mut m = SegmentManager::with_segments(10_000_000, 4);
    m.update_segment(2, 100_000, 100);
    let r = Rebalancer::new();
    // Nothing is active, so the average speed is zero and nothing splits.
    assert!(r.check_and_rebalance(&mut m).is_empty());
    assert_eq!(m.len(), 4);
}

#[test]
fn rebalance_splits_the_slow_active_segment() {
    // A 10 MB file in 4 active segments; segment 2 crawls at 100 B/s
    // against an average of 775, far below the one-fifth threshold, with
    // 2.4 MB remaining.
    let mut m = SegmentManager::with_segments(10_000_000, 4);
    let speeds = [1000u64, 1000, 100, 1000];
    let downloaded = [1_000_000u64, 1_000_000, 100_000, 1_000_000];
    for id in 0..4 {
        m.update_segment(id, downloaded[id], speeds[id]);
        m.mark_active(id);
    }
    let r = Rebalancer::new();
    let old_count = m.len();
    let new_ids = r.check_and_rebalance(&mut m);
    assert_eq!(new_ids, vec![4]);
    assert_eq!(m.len(), 5);

    // The split event announces 4 -> 5.
    let ev = rebalanced_event(DownloadId(1), old_count, new_ids.len()).unwrap();
    match ev {
        DownloadEvent::SegmentRebalanced { old_count, new_count, .. } => {
            assert_eq!(old_count, 4);
            assert_eq!(new_count, 5);
        }
        _ => panic!("wrong event"),
    }

    // Segment 2 was [5.0M, 7.5M) with 100 KB downloaded: the split point
    // is 5.1M + 1.2M, the child covers the far half.
    let segs = m.get_segments();
    assert_eq!(segs[2].range, ByteRange::new(5_000_000, 6_300_000));
    assert_eq!(segs[4].range, ByteRange::new(6_300_000, 7_500_000));
    assert_eq!(segs[2].downloaded, 100_000);
    assert_eq!(segs[4].downloaded, 0);
}

#[test]
fn isqrt_is_exact() {
    assert_eq!(isqrt64(0), 0);
    assert_eq!(isqrt64(1), 1);
    assert_eq!(isqrt64(15), 3);
    assert_eq!(isqrt64(16), 4);
    assert_eq!(isqrt64(u64::MAX), 4294967295);
}

#[test]
fn threshold_scales_with_bdp() {
    let r = Rebalancer::new();
    // Without a BDP: a fifth of the average.
    assert_eq!(r.calculate_threshold(1000, None), 200);
    // With a BDP of four windows the share doubles.
    assert_eq!(r.calculate_threshold(1000, Some(4 * 65536)), 400);
    // The share caps at one half.
    assert_eq!(r.calculate_threshold(1000, Some(100 * 65536)), 500);
}

#[test]
fn optimal_from_bdp_clamps() {
    let r = Rebalancer::new();
    assert_eq!(r.optimal_segments_from_bdp(0, 50_000_000), 1);
    assert_eq!(r.optimal_segments_from_bdp(65536 * 6, 50_000_000), 6);
    assert_eq!(r.optimal_segments_from_bdp(65536 * 100, 50_000_000), 8);
}
