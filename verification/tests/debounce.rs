//! Tests of debouncing.  Times are in nanoseconds.

use quay::debounce;
use quay::watcher::Debouncer;
use std::time::Duration;

#[test]
fn debouncer_allows_first_event() {
    let now: u128 = 0;
    let mut d = Debouncer::new(Duration::from_millis(200).as_nanos());
    assert!(d.should_handle("src/main.rs", now));
}

#[test]
fn debouncer_suppresses_rapid_duplicates() {
    let now: u128 = 0;
    let mut d = Debouncer::new(Duration::from_secs(10).as_nanos());
    assert!(d.should_handle("src/main.rs", now));
    // Second call within the window should be suppressed.
    assert!(!d.should_handle("src/main.rs", now));
}

#[test]
fn debouncer_allows_different_paths() {
    let now: u128 = 0;
    let mut d = Debouncer::new(Duration::from_secs(10).as_nanos());
    assert!(d.should_handle("a.txt", now));
    assert!(d.should_handle("b.txt", now));
}

#[test]
fn debouncer_prune_removes_stale_entries() {
    let mut now: u128 = 0;
    let mut d = Debouncer::new(Duration::from_millis(1).as_nanos());
    d.set_prune_interval(2);

    d.should_handle("old.txt", now);
    // Sleep long enough for the entry to become stale (10× window = 10ms).
    now += Duration::from_millis(20).as_nanos();
    // Trigger two more events to force a prune.
    d.should_handle("trigger1.txt", now);
    d.should_handle("trigger2.txt", now);

    // "old.txt" should have been pruned.
    assert!(!d.has_seen("old.txt"));
}

#[test]
fn debouncer_zero_window_clamped() {
    let now: u128 = 0;
    // A zero-duration window should be clamped to 1ms, not disable debouncing.
    let mut d = Debouncer::new(Duration::from_millis(0).as_nanos());
    assert!(d.window() >= Duration::from_millis(1).as_nanos());
    // First event should still pass.
    assert!(d.should_handle("file.txt", now));
    // Immediate second event should be suppressed (1ms window).
    assert!(!d.should_handle("file.txt", now));
}

#[test]
fn debouncer_very_large_window() {
    let now: u128 = 0;
    let mut d = Debouncer::new(Duration::from_secs(3600).as_nanos()); // 1 hour
    assert!(d.should_handle("a.txt", now));
    assert!(!d.should_handle("a.txt", now)); // within window
    assert!(d.should_handle("b.txt", now)); // different path
}

#[test]
fn debouncer_allows_after_window_expires() {
    let mut now: u128 = 0;
    let mut d = Debouncer::new(Duration::from_millis(10).as_nanos());
    assert!(d.should_handle("file.rs", now));
    // Wait for the debounce window to expire.
    now += Duration::from_millis(20).as_nanos();
    // Should be allowed again.
    assert!(d.should_handle("file.rs", now));
}

#[test]
fn debouncer_many_distinct_paths() {
    let now: u128 = 0;
    let mut d = Debouncer::new(Duration::from_secs(10).as_nanos());
    for i in 0..1000 {
        let path = format!("path/{}/file_{}.rs", i / 10, i);
        assert!(d.should_handle(&path, now));
    }
    // All 1000 distinct paths should be in the map.
    assert_eq!(d.seen_len(), 1000);
}

#[test]
fn debouncer_prune_actually_removes_stale() {
    let mut now: u128 = 0;
    let mut d = Debouncer::new(Duration::from_millis(1).as_nanos());
    d.set_prune_interval(3); // prune after every 3 events

    // Insert a path.
    d.should_handle("old.txt", now);
    // Sleep so it becomes stale (10× window = 10ms).
    now += Duration::from_millis(20).as_nanos();

    // Insert 3 more events to trigger prune.
    d.should_handle("a.txt", now);
    d.should_handle("b.txt", now);
    d.should_handle("c.txt", now);

    // "old.txt" should have been pruned.
    assert!(!d.has_seen("old.txt"));
    // Recent entries should remain.
    assert!(d.has_seen("a.txt"));
    assert!(d.has_seen("b.txt"));
    assert!(d.has_seen("c.txt"));
}

#[test]
fn debouncer_prune_keeps_recent_entries() {
    let now: u128 = 0;
    let mut d = Debouncer::new(Duration::from_secs(10).as_nanos());
    d.set_prune_interval(2);

    d.should_handle("fresh.txt", now);
    d.should_handle("trigger1.txt", now);
    d.should_handle("trigger2.txt", now); // triggers prune

    // All entries are fresh (within 10× 10s = 100s), so none should be pruned.
    assert!(d.has_seen("fresh.txt"));
    assert!(d.has_seen("trigger1.txt"));
    assert!(d.has_seen("trigger2.txt"));
}

#[test]
fn debouncer_prune_interval_default() {
    let d = Debouncer::new(Duration::from_millis(200).as_nanos());
    assert_eq!(d.prune_interval(), 1000);
    assert_eq!(d.events_since_prune(), 0);
}

#[test]
fn debouncer_rapid_same_path_only_first_passes() {
    let now: u128 = 0;
    let mut d = Debouncer::new(Duration::from_secs(60).as_nanos());
    assert!(d.should_handle("same.txt", now));
    for _ in 0..100 {
        assert!(!d.should_handle("same.txt", now));
    }
}

#[test]
fn debouncer_empty_path() {
    let now: u128 = 0;
    let mut d = Debouncer::new(Duration::from_millis(200).as_nanos());
    assert!(d.should_handle("", now));
    assert!(!d.should_handle("", now));
}

#[test]
fn debouncer_unicode_path() {
    let now: u128 = 0;
    let mut d = Debouncer::new(Duration::from_secs(10).as_nanos());
    assert!(d.should_handle("路径/文件.txt", now));
    assert!(!d.should_handle("路径/文件.txt", now));
    assert!(d.should_handle("дорожка/файл.txt", now));
}

#[test]
fn debouncer_very_long_path() {
    let now: u128 = 0;
    let mut d = Debouncer::new(Duration::from_secs(10).as_nanos());
    let long_path = "a/".repeat(5000) + "file.txt";
    assert!(d.should_handle(&long_path, now));
    assert!(!d.should_handle(&long_path, now));
}

#[test]
fn debouncer_special_chars_in_path() {
    let now: u128 = 0;
    let mut d = Debouncer::new(Duration::from_secs(10).as_nanos());
    let specials = vec![
        "file with spaces.txt",
        "file\twith\ttabs.txt",
        "file(1).txt",
        "file[2].txt",
        "file{3}.txt",
        "file$var.txt",
        "file#hash.txt",
        "file@at.txt",
        "file!bang.txt",
        "file%percent.txt",
    ];
    for s in &specials {
        assert!(d.should_handle(s, now), "first event for '{}' should pass", s);
        assert!(
            !d.should_handle(s, now),
            "second event for '{}' should be suppressed",
            s
        );
    }
}

#[test]
fn debouncer_heavy_prune_then_reuse() {
    let mut now: u128 = 0;
    let mut d = Debouncer::new(Duration::from_millis(1).as_nanos());
    d.set_prune_interval(50);

    // Insert many paths.
    for i in 0..100 {
        d.should_handle(&format!("path_{}.txt", i), now);
    }

    // Sleep so all entries become stale.
    now += Duration::from_millis(20).as_nanos();

    // Insert enough to trigger prune.
    for i in 100..160 {
        d.should_handle(&format!("path_{}.txt", i), now);
    }

    // Old entries should have been pruned.
    assert!(
        d.seen_len() < 120,
        "stale entries should have been pruned, got {} entries",
        d.seen_len()
    );

    // New entries should still be present.
    assert!(d.has_seen("path_159.txt"));
}

#[test]
fn debouncer_boundary_window() {
    let mut now: u128 = 0;
    let mut d = Debouncer::new(Duration::from_millis(50).as_nanos());
    assert!(d.should_handle("boundary.txt", now));
    // Sleep just past the window.
    now += Duration::from_millis(60).as_nanos();
    assert!(
        d.should_handle("boundary.txt", now),
        "should pass after window expires"
    );
}

#[test]
fn new_stores_window() {
    let d = debounce::Debouncer::new(Duration::from_millis(500).as_nanos());
    assert_eq!(d.window(), Duration::from_millis(500).as_nanos());
}

#[test]
fn new_starts_with_empty_map() {
    let d = debounce::Debouncer::new(Duration::from_millis(200).as_nanos());
    assert_eq!(d.pending_len(), 0);
}

#[test]
fn zero_window_clamped_to_1ms() {
    let d = debounce::Debouncer::new(Duration::from_millis(0).as_nanos());
    assert!(d.window() >= Duration::from_millis(1).as_nanos());
}

#[test]
fn defers_events_correctly() {
    let mut d = debounce::Debouncer::new(Duration::from_millis(50).as_nanos());
    let now = Duration::from_secs(1).as_nanos();
    d.add_event("a.txt".to_string(), now);
    assert!(d.drain_ready(now).is_empty());
    let later = now + Duration::from_millis(60).as_nanos();
    assert_eq!(d.drain_ready(later), vec!["a.txt".to_string()]);
}

#[test]
fn zero_window_is_exactly_one_millisecond() {
    assert_eq!(debounce::Debouncer::new(0).window(), 1_000_000);
    assert_eq!(Debouncer::new(0).window(), 1_000_000);
}

#[test]
fn later_event_restarts_the_wait() {
    let mut d = debounce::Debouncer::new(100);
    d.add_event("a".to_string(), 1_000);
    d.add_event("a".to_string(), 1_050);
    // An earlier event does not move the time back.
    d.add_event("a".to_string(), 900);
    assert_eq!(d.pending_len(), 1);
    assert!(d.drain_ready(1_149).is_empty());
    assert_eq!(d.drain_ready(1_150), vec!["a".to_string()]);
    assert_eq!(d.pending_len(), 0);
}

#[test]
fn drain_splits_ready_from_pending() {
    let mut d = debounce::Debouncer::new(100);
    d.add_event("a".to_string(), 0);
    d.add_event("b".to_string(), 60);
    d.add_event("c".to_string(), 10);
    assert_eq!(d.drain_ready(110), vec!["a".to_string(), "c".to_string()]);
    assert_eq!(d.pending_len(), 1);
    assert_eq!(d.drain_ready(160), vec!["b".to_string()]);
}

#[test]
fn next_timeout_is_the_shortest_wait() {
    let mut d = debounce::Debouncer::new(100);
    assert_eq!(d.next_timeout(0), None);
    d.add_event("a".to_string(), 10);
    d.add_event("b".to_string(), 40);
    assert_eq!(d.next_timeout(50), Some(60));
    assert_eq!(d.next_timeout(110), Some(0));
    // An event that lies ahead has the whole window before it.
    let mut ahead = debounce::Debouncer::new(100);
    ahead.add_event("x".to_string(), 500);
    assert_eq!(ahead.next_timeout(50), Some(100));
    assert!(ahead.drain_ready(50).is_empty());
}

#[test]
fn event_exactly_at_the_window_is_suppressed() {
    let mut d = Debouncer::new(100);
    assert!(d.should_handle("a", 1_000));
    assert!(!d.should_handle("a", 1_100));
    assert!(d.should_handle("a", 1_201));
}

#[test]
fn clock_that_runs_backwards_suppresses() {
    let mut d = Debouncer::new(100);
    assert!(d.should_handle("a", 1_000));
    assert!(!d.should_handle("a", 500));
}

#[test]
fn entry_is_pruned_at_ten_windows() {
    let mut d = Debouncer::new(100);
    d.set_prune_interval(2);
    d.should_handle("old", 0);
    d.should_handle("x", 999);
    assert!(d.has_seen("old"));
    let mut e = Debouncer::new(100);
    e.set_prune_interval(2);
    e.should_handle("old", 0);
    e.should_handle("x", 1_000);
    assert!(!e.has_seen("old"));
    assert!(e.has_seen("x"));
    assert_eq!(e.events_since_prune(), 0);
}

#[test]
fn paths_do_not_affect_each_other_even_by_pruning() {
    let mut d = Debouncer::new(100);
    d.set_prune_interval(1);
    assert!(d.should_handle("a", 0));
    assert!(d.should_handle("b", 50));
    assert!(!d.should_handle("a", 100));
    assert!(d.should_handle("b", 1_000));
    assert!(d.should_handle("a", 1_050));
}
