use stormdl::range::{split_range, initial_segments, turbo_segments, optimal_segments, ByteRange};

#[test]
fn test_split_range_even() {
    let ranges = split_range(100, 4);
    assert_eq!(ranges.len(), 4);
    assert_eq!(ranges[0], ByteRange::new(0, 25));
    assert_eq!(ranges[1], ByteRange::new(25, 50));
    assert_eq!(ranges[2], ByteRange::new(50, 75));
    assert_eq!(ranges[3], ByteRange::new(75, 100));
}

#[test]
fn test_split_range_uneven() {
    let ranges = split_range(10, 3);
    assert_eq!(ranges.len(), 3);
    assert_eq!(ranges[0].len() + ranges[1].len() + ranges[2].len(), 10);
}

#[test]
fn uneven_three_way_layout() {
    let ranges = split_range(10, 3);
    assert_eq!(ranges[0], ByteRange::new(0, 4));
    assert_eq!(ranges[1], ByteRange::new(4, 7));
    assert_eq!(ranges[2], ByteRange::new(7, 10));
    let mut lens: Vec<u64> = ranges.iter().map(|r| r.len()).collect();
    lens.sort();
    assert_eq!(lens, vec![3, 3, 4]);
}

#[test]
fn split_of_nothing_is_empty() {
    assert!(split_range(0, 5).is_empty());
    assert!(split_range(100, 0).is_empty());
    assert!(split_range(0, 0).is_empty());
}

#[test]
fn split_covers_without_gap_or_overlap() {
    let total = 1_000_003u64;
    let n = 7usize;
    let ranges = split_range(total, n);
    assert_eq!(ranges.len(), n);
    assert_eq!(ranges[0].start, 0);
    assert_eq!(ranges[n - 1].end, total);
    let mut sum = 0u64;
    for w in ranges.windows(2) {
        assert_eq!(w[0].end, w[1].start);
    }
    let mut min_len = u64::MAX;
    let mut max_len = 0u64;
    for r in &ranges {
        assert!(r.start <= r.end);
        sum += r.len();
        min_len = min_len.min(r.len());
        max_len = max_len.max(r.len());
    }
    assert_eq!(sum, total);
    assert!(max_len - min_len <= 1);
}

#[test]
fn byte_range_ops() {
    let r = ByteRange::new(10, 30);
    assert_eq!(r.len(), 20);
    assert!(!r.is_empty());
    assert!(ByteRange::new(5, 5).is_empty());
    let (a, b) = r.split_at(5);
    assert_eq!(a, ByteRange::new(10, 15));
    assert_eq!(b, ByteRange::new(15, 30));
}

#[test]
fn bucket_counts() {
    assert_eq!(initial_segments(1_000_000), 1);
    assert_eq!(initial_segments(5_000_000), 4);
    assert_eq!(initial_segments(50_000_000), 8);
    assert_eq!(turbo_segments(1_000_000), 1);
    assert_eq!(turbo_segments(5_000_000), 8);
    assert_eq!(turbo_segments(50_000_000), 16);
}

#[test]
fn optimal_segments_clamps_to_bucket() {
    // 10 MB/s over 100 ms is a 1 MB BDP: sixteen 64 KiB windows, but a
    // 5 MB file caps at 4.
    assert_eq!(optimal_segments(5_000_000, 10_000_000, 100), 4);
    // A tiny BDP still yields one connection.
    assert_eq!(optimal_segments(5_000_000, 1000, 1), 1);
    // A huge file takes the full hint.
    assert_eq!(optimal_segments(2_000_000_000, 10_000_000, 100), 16);
}
