use stormdl::mirror::{Mirror, MirrorPriority, MirrorSet, MirrorStats};
use stormdl::multi_source::MultiSourceManager;
use stormdl::range::ByteRange;

#[test]
fn mirror_builders() {
    let m = Mirror::new(String::from("http://b.example/f"))
        .with_priority(MirrorPriority::Fallback)
        .with_region(String::from("eu"))
        .with_max_connections(4);
    assert_eq!(m.priority, MirrorPriority::Fallback);
    assert_eq!(m.region.as_deref(), Some("eu"));
    assert_eq!(m.max_connections, Some(4));
    let p = Mirror::primary(String::from("http://a.example/f"));
    assert_eq!(p.priority, MirrorPriority::Primary);
}

#[test]
fn best_mirror_prefers_speed_and_priority() {
    let mut set = MirrorSet::new(String::from("http://a.example/f"));
    set.add_url(String::from("http://b.example/f"));
    assert_eq!(set.len(), 2);
    // No stats yet: every score is zero, the first mirror wins.
    assert_eq!(set.best_mirror(), 0);
    // A fast secondary beats a silent primary.
    set.update_stats(1, MirrorStats { bytes_downloaded: 0, errors: 0, avg_speed: 1000, active_segments: 0 });
    assert_eq!(set.best_mirror(), 1);
    // Priority boosts: the same speed on the primary wins (1.5x boost).
    set.update_stats(0, MirrorStats { bytes_downloaded: 0, errors: 0, avg_speed: 1000, active_segments: 0 });
    assert_eq!(set.best_mirror(), 0);
    // Errors drag a source down.
    set.update_stats(0, MirrorStats { bytes_downloaded: 0, errors: 5, avg_speed: 1000, active_segments: 0 });
    assert_eq!(set.best_mirror(), 1);
}

#[test]
fn priority_and_errors_order_idle_sources() {
    // Before any bytes flow, every speed is zero; the one-byte floor in
    // the score lets priority and error counts order the sources.
    let mut set = MirrorSet::new(String::from("http://a.example/f"));
    set.add_url(String::from("http://b.example/f"));
    assert_eq!(set.best_mirror(), 0, "the idle primary outranks the idle secondary");
    set.update_stats(0, MirrorStats { bytes_downloaded: 0, errors: 5, avg_speed: 0, active_segments: 0 });
    assert_eq!(set.best_mirror(), 1, "errors pull the idle primary below the clean secondary");
}

#[test]
fn score_monotone_in_load() {
    let mut set = MirrorSet::new(String::from("http://a.example/f"));
    set.add_url(String::from("http://b.example/f"));
    // Equal speeds, but the primary is busy on many segments: the idle
    // secondary wins despite the priority boost.
    set.update_stats(0, MirrorStats { bytes_downloaded: 0, errors: 0, avg_speed: 1000, active_segments: 20 });
    set.update_stats(1, MirrorStats { bytes_downloaded: 0, errors: 0, avg_speed: 1000, active_segments: 0 });
    assert_eq!(set.best_mirror(), 1);
}

#[test]
fn mirror_failover_after_rate_limit() {
    // Two mirrors; the primary serves segment 1 and then answers 429.
    let mut set = MirrorSet::new(String::from("http://m0.example/f"));
    set.add_url(String::from("http://m1.example/f"));
    let mut msm = MultiSourceManager::new(set, 1000);

    let first = msm.assign_segment(1, ByteRange::new(0, 1000));
    assert_eq!(first, 0);
    assert_eq!(msm.get_assignment(1), Some(0));

    // The 429 is counted against the primary and the segment reassigned.
    msm.record_error(0);
    let next = msm.reassign_segment(1).expect("a second mirror exists");
    assert_eq!(next, 1);
    assert_eq!(msm.get_assignment(1), Some(1));

    let summary = msm.get_source_summary();
    assert_eq!(summary[0].3, 1, "one error against the old source");
    assert_eq!(summary[1].3, 0);

    // After syncing, the failed primary scores strictly below the fresh
    // secondary once the secondary has shown any speed.
    msm.record_progress(1, 500, 800);
    msm.sync_mirror_stats();
    assert_eq!(msm.mirror_count(), 2);

    // The same stats on a mirror set pick the secondary.
    let mut scored = MirrorSet::new(String::from("http://m0.example/f"));
    scored.add_url(String::from("http://m1.example/f"));
    scored.update_stats(0, MirrorStats { bytes_downloaded: 0, errors: 1, avg_speed: 0, active_segments: 0 });
    scored.update_stats(1, MirrorStats { bytes_downloaded: 500, errors: 0, avg_speed: 800, active_segments: 1 });
    assert_eq!(scored.best_mirror(), 1);
}

#[test]
fn reassign_with_single_mirror_goes_nowhere() {
    let set = MirrorSet::new(String::from("http://only.example/f"));
    let mut msm = MultiSourceManager::new(set, 10);
    msm.assign_segment(0, ByteRange::new(0, 10));
    assert!(msm.reassign_segment(0).is_none());
}

#[test]
fn record_progress_accumulates() {
    let set = MirrorSet::new(String::from("http://only.example/f"));
    let mut msm = MultiSourceManager::new(set, 10);
    msm.record_progress(0, 100, 50);
    msm.record_progress(0, 200, 70);
    let summary = msm.get_source_summary();
    assert_eq!(summary[0].1, 300);
    assert_eq!(summary[0].2, 60, "mean of the two samples");
    assert_eq!(msm.get_mirror_url(0).as_deref(), Some("http://only.example/f"));
    assert!(msm.get_mirror_url(7).is_none());
}
