use stormdl::scheduler::{DownloadQueue, QueuedDownload};
use stormdl::pool::{ConnectionPool, PoolConfig};
use stormdl::worker::{plan_steal, worker_recovery, RecoveryAction, SegmentTracker, WorkQueue};
use stormdl::output::write_into;
use stormdl::controller::{AdaptiveController, SegmentAdjustment};
use stormdl::error::StormError;
use stormdl::range::{split_range, ByteRange};
use stormdl::types::{DownloadId, DownloadOptions, Priority};

fn queued(id: u64, priority: Priority) -> QueuedDownload {
    QueuedDownload {
        id: DownloadId(id),
        options: DownloadOptions {
            url: String::from("http://h/f"),
            output_dir: String::from("."),
            filename: None,
            segments: None,
            priority,
            bandwidth_limit: None,
            headers: Vec::new(),
            checksum: None,
        },
        priority,
    }
}

#[test]
fn queue_orders_by_priority_and_caps_concurrency() {
    let mut q = DownloadQueue::new(1);
    q.enqueue(queued(1, Priority::Low));
    q.enqueue(queued(2, Priority::Critical));
    q.enqueue(queued(3, Priority::Normal));
    assert_eq!(q.len(), 3);
    assert!(q.can_start());

    let first = q.dequeue().unwrap();
    assert_eq!(first.id, DownloadId(2), "critical runs first");
    assert!(q.dequeue().is_none(), "one running is the cap");
    assert!(!q.can_start());

    q.complete(DownloadId(2));
    let second = q.dequeue().unwrap();
    assert_eq!(second.id, DownloadId(3));

    q.cancel(DownloadId(1));
    assert!(q.is_empty());
}

#[test]
fn queue_reorder_moves_an_entry() {
    let mut q = DownloadQueue::new(4);
    q.enqueue(queued(1, Priority::Normal));
    q.enqueue(queued(2, Priority::Normal));
    q.reorder(DownloadId(2), Priority::Critical);
    assert_eq!(q.dequeue().unwrap().id, DownloadId(2));
    assert_eq!(q.active_count(), 1);
    q.set_max_concurrent(0);
    assert!(q.dequeue().is_none());
}

#[test]
fn pool_limits_per_host() {
    let mut pool = ConnectionPool::new(PoolConfig {
        per_host_limit: 2,
        per_host_limit_h2: 1,
        connect_timeout_ms: 5000,
        read_timeout_ms: 30000,
    });
    assert!(pool.can_connect(b"a.example"));
    assert!(pool.acquire(b"a.example", false));
    assert!(pool.acquire(b"a.example", false));
    assert!(!pool.acquire(b"a.example", false), "two is the limit");
    pool.release(b"a.example");
    assert!(pool.acquire(b"a.example", false));

    // An HTTP/2 host multiplexes and gets one connection.
    assert!(pool.acquire(b"b.example", true));
    assert!(!pool.acquire(b"b.example", true));
    assert!(!pool.can_connect(b"b.example"));

    // Releasing an unknown host is harmless.
    pool.release(b"missing.example");
    pool.set_http2(b"a.example");
    assert!(!pool.can_connect(b"a.example"), "already at the h2 limit");
}

#[test]
fn work_queue_is_fifo() {
    let mut q = WorkQueue::new();
    assert!(q.pop().is_none());
    q.push(ByteRange::new(0, 10), 0);
    q.push(ByteRange::new(10, 20), 1);
    let first = q.pop().unwrap();
    assert_eq!(first.range, ByteRange::new(0, 10));
    assert_eq!(first.segment_idx, 0);
    assert_eq!(q.len(), 1);
    assert!(!q.is_empty());
}

#[test]
fn steal_takes_the_far_half() {
    // 2 MB ahead of the slow worker: the far 1 MB is stolen.
    let (stop, stolen) = plan_steal(1_000_000, 3_000_000).unwrap();
    assert_eq!(stop, 2_000_000);
    assert_eq!(stolen, ByteRange::new(2_000_000, 3_000_000));
    // Too little ahead: no steal.
    assert!(plan_steal(1_000_000, 1_200_000).is_none());
}

#[test]
fn tracker_accounts_speed_and_completion() {
    let mut t = SegmentTracker::new(1000, 0, 0);
    t.add_downloaded(400);
    assert_eq!(t.remaining(), 600);
    assert!(!t.is_complete());
    // 400 bytes over one second.
    assert_eq!(t.speed(1000), 400);
    assert_eq!(t.speed(400), 0, "under the half-second floor");
    t.update_speed_sample(1000);
    t.add_downloaded(600);
    assert!(t.is_complete());
    assert_eq!(t.speed(2000), 600);
}

#[test]
fn three_rate_limits_fail_the_transfer() {
    // A 429 backs off and requeues twice more; the third strike is fatal.
    let err = StormError::RateLimited;
    assert_eq!(worker_recovery(&err, 0), RecoveryAction::Requeue { backoff_ms: 500 });
    assert_eq!(worker_recovery(&err, 1), RecoveryAction::Requeue { backoff_ms: 1000 });
    assert_eq!(worker_recovery(&err, 2), RecoveryAction::Requeue { backoff_ms: 2000 });
    assert_eq!(worker_recovery(&err, 3), RecoveryAction::FailTransfer);

    // Network failures recover the same way; protocol failures do not.
    let net = StormError::Network(String::from("reset"));
    assert!(matches!(worker_recovery(&net, 0), RecoveryAction::Requeue { .. }));
    assert_eq!(
        worker_recovery(&StormError::RangeNotSupported, 0),
        RecoveryAction::FailTransfer
    );
    assert_eq!(
        worker_recovery(&StormError::NotFound(String::from("x")), 0),
        RecoveryAction::FailTransfer
    );
}

#[test]
fn interleaved_disjoint_writes_agree() {
    let mut one = vec![0u8; 10];
    write_into(&mut one, 0, &[1, 2, 3]);
    write_into(&mut one, 5, &[9, 8]);

    let mut two = vec![0u8; 10];
    write_into(&mut two, 5, &[9, 8]);
    write_into(&mut two, 0, &[1, 2, 3]);

    assert_eq!(one, two);
    assert_eq!(one, vec![1, 2, 3, 0, 0, 9, 8, 0, 0, 0]);

    // A write past the end is cut off at the file's size.
    write_into(&mut one, 8, &[7, 7, 7, 7]);
    assert_eq!(one.len(), 10);
    assert_eq!(&one[8..], &[7, 7]);
}

#[test]
fn controller_grows_towards_the_bdp_target() {
    let mut c = AdaptiveController::new(100 << 20, 4, 0);
    assert_eq!(c.current_segments(), 4);
    // Too soon after construction.
    assert!(c.evaluate(100, Some(20 * 65536), 0).is_none());
    // Half a second later a 20-window BDP wants 20 segments; growth is
    // capped at four per step.
    match c.evaluate(600, Some(20 * 65536), 0) {
        Some(SegmentAdjustment::Split { count, .. }) => assert_eq!(count, 4),
        other => panic!("expected a split, got {:?}", other),
    }
    assert_eq!(c.current_segments(), 8);
    // Again too soon.
    assert!(c.evaluate(700, Some(20 * 65536), 0).is_none());

    // A small file refuses to split below the minimum segment size.
    let mut small = AdaptiveController::new(1 << 20, 4, 0);
    assert!(small.evaluate(600, Some(20 * 65536), 0).is_none());
}

#[test]
fn slow_segment_heuristic() {
    let c = AdaptiveController::new(100 << 20, 4, 0);
    assert!(c.should_split_slow_segment(100, 1000, 10 << 20));
    assert!(!c.should_split_slow_segment(0, 1000, 10 << 20), "idle is not slow");
    assert!(!c.should_split_slow_segment(400, 1000, 10 << 20), "above three tenths");
    assert!(!c.should_split_slow_segment(100, 1000, 100_000), "too little remains");
}

#[test]
fn segment_writes_reconstruct_the_file() {
    // Fetching each planned range and writing it at its offset, in any
    // order, reproduces the resource byte for byte.
    let resource: Vec<u8> = (0..10u8).collect();
    let ranges = split_range(resource.len() as u64, 3);
    let mut file = vec![0u8; resource.len()];
    for r in ranges.iter().rev() {
        write_into(&mut file, r.start as usize, &resource[r.start as usize..r.end as usize]);
    }
    assert_eq!(file, resource);
}
