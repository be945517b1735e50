use stormdl::progress::{progress_snapshot, synthesize_segments, ProgressCounters};
use stormdl::manager::SegmentManager;
use stormdl::types::SegmentStatus;
use stormdl::monitor::NetworkMonitor;
use stormdl::limiter::{parse_limit, RateLimiter};

#[test]
fn counters_keep_segments_and_total_in_step() {
    let mut c = ProgressCounters::new(3);
    assert_eq!(c.total(), 0);
    c.record(0, 100);
    c.record(2, 50);
    c.record(0, 25);
    assert_eq!(c.segment(0), 125);
    assert_eq!(c.segment(1), 0);
    assert_eq!(c.segment(2), 50);
    assert_eq!(c.total(), 175);
    assert_eq!(c.segment(0) + c.segment(1) + c.segment(2), c.total());
    c.add_segment();
    assert_eq!(c.len(), 4);
    assert_eq!(c.total(), 175);
}

#[test]
fn snapshot_arithmetic() {
    // 500 bytes gained over 250 ms: 2000 B/s; 1000 bytes over 2 s: 500 B/s
    // average; 1000 of 4000 bytes is 250 permille; 3000 bytes at 500 B/s
    // is 6 s to go.
    let s = progress_snapshot(4000, 1000, 500, 250, 2000);
    assert_eq!(s.speed, 2000);
    assert_eq!(s.avg_speed, 500);
    assert_eq!(s.permille, 250);
    assert_eq!(s.eta_secs, Some(6));

    // A short interval yields no instantaneous speed; a finished transfer
    // has no remaining time.
    let s = progress_snapshot(1000, 1000, 990, 50, 1000);
    assert_eq!(s.speed, 0);
    assert_eq!(s.permille, 1000);
    assert_eq!(s.eta_secs, None);
}

#[test]
fn synthesized_segments_reflect_counters() {
    let m = SegmentManager::with_segments(100, 4);
    let base = m.get_segments();
    let mut c = ProgressCounters::new(4);
    c.record(0, 25);
    c.record(1, 10);
    let snap = synthesize_segments(&base, &c);
    assert_eq!(snap[0].status, SegmentStatus::Complete);
    assert_eq!(snap[1].status, SegmentStatus::Active);
    assert_eq!(snap[2].status, SegmentStatus::Pending);
    assert_eq!(snap[0].downloaded, 25);
}

#[test]
fn monitor_speed_and_bdp() {
    let mut mon = NetworkMonitor::new();
    assert_eq!(mon.current_speed(), 0);
    mon.record(0, 0);
    mon.record(1000, 5000);
    // 5000 bytes over one second.
    assert_eq!(mon.current_speed(), 5000);
    mon.record_rtt(100);
    assert_eq!(mon.smoothed_rtt(), Some(100));
    mon.record_rtt(200);
    // One fifth of the way towards 200.
    assert_eq!(mon.smoothed_rtt(), Some(120));
    // BDP: 5000 B/s over 120 ms.
    assert_eq!(mon.bandwidth_delay_product(), Some(600));
    assert_eq!(mon.min_rtt(), Some(100));
    mon.reset();
    assert_eq!(mon.current_speed(), 0);
    assert_eq!(mon.smoothed_rtt(), None);
}

#[test]
fn monitor_drops_stale_samples() {
    let mut mon = NetworkMonitor::new();
    mon.record(0, 100);
    // Eleven seconds later the first sample has aged out.
    mon.record(11_000, 200);
    assert_eq!(mon.current_speed(), 0, "one sample left");
}

#[test]
fn zero_limit_means_unlimited() {
    let mut l = RateLimiter::new(Some(0));
    assert!(!l.is_limited());
    assert_eq!(l.limit(), Some(0));
    assert_eq!(l.chunks_per_second(), None);

    l.set_limit(Some(1_000_000));
    assert!(l.is_limited());
    assert_eq!(l.chunks_per_second(), Some(61));

    l.set_limit(Some(0));
    assert!(!l.is_limited());
    assert_eq!(l.chunks_per_second(), None);

    l.set_limit(None);
    assert!(!l.is_limited());

    let l = RateLimiter::unlimited();
    assert!(!l.is_limited());
    assert_eq!(l.limit(), None);
}

#[test]
fn limit_parsing() {
    assert_eq!(parse_limit(b"500"), Some(500));
    assert_eq!(parse_limit(b"500k"), Some(500 * 1024));
    assert_eq!(parse_limit(b"2M"), Some(2 * 1024 * 1024));
    assert_eq!(parse_limit(b"1g"), Some(1024 * 1024 * 1024));
    assert_eq!(parse_limit(b" 42 k"), Some(42 * 1024));
    assert_eq!(parse_limit(b""), None);
    assert_eq!(parse_limit(b"fast"), None);
    assert_eq!(parse_limit(b"18446744073709551615k"), Some(u64::MAX));
}

#[test]
fn chunk_accounting() {
    let l = RateLimiter::new(Some(1_000_000));
    assert_eq!(l.chunks_for(0), 1);
    assert_eq!(l.chunks_for(16384), 1);
    assert_eq!(l.chunks_for(65536), 4);
    // A sub-chunk limit still refills at least one chunk per second.
    let slow = RateLimiter::new(Some(100));
    assert_eq!(slow.chunks_per_second(), Some(1));
}
