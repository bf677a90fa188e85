use led_platform::cluster_sync::{
    drift_ms, frame_delivered, SegmentHealth, SegmentOutcome, SegmentState, SegmentTable,
};

#[test]
fn all_segments_start_healthy() {
    let t = SegmentTable::new(2);
    let health = t.health_snapshot();
    assert_eq!(health.len(), 2);
    assert!(health.iter().all(|(s, n)| *s == SegmentState::Healthy && *n == 0));
    assert_eq!(t.active_segment_count(), 2);
}

#[test]
fn frames_sent_increments_per_send() {
    let mut t = SegmentTable::new(2);
    for _ in 0..5 {
        for i in 0..t.len() {
            if t.is_active(i) {
                t.record(i, true, "");
            }
        }
    }
    assert!(t.health_snapshot().iter().all(|(_, sent)| *sent == 5));
}

#[test]
fn hot_join_adds_segment_and_receives_frames() {
    let mut t = SegmentTable::new(2);
    t.hot_join();
    assert_eq!(t.len(), 3);
    assert_eq!(t.active_segment_count(), 3);
    assert_eq!(t.health_snapshot()[2], (SegmentState::Healthy, 0));
}

#[test]
fn three_failures_degrade_and_ten_fail_a_segment() {
    let mut h = SegmentHealth::new();
    h.record_failure("x");
    h.record_failure("x");
    assert_eq!(h.state, SegmentState::Healthy);
    h.record_failure("timeout");
    assert_eq!(h.state, SegmentState::Degraded);
    assert_eq!(h.last_fail_reason.as_deref(), Some("timeout"));
    for _ in 3..9 {
        h.record_failure("x");
    }
    assert_eq!(h.consecutive_fails, 9);
    assert_eq!(h.state, SegmentState::Degraded);
    h.record_failure("x");
    assert_eq!(h.state, SegmentState::Failed);
    h.record_success();
    assert_eq!(h.state, SegmentState::Healthy);
    assert_eq!(h.consecutive_fails, 0);
    assert_eq!(h.frames_sent, 1);
}

#[test]
fn rejoin_resets_health_to_healthy() {
    let mut t = SegmentTable::new(2);
    for _ in 0..10 {
        t.record(1, false, "down");
    }
    assert!(!t.is_active(1));
    assert!(t.is_active(0));
    assert_eq!(t.active_segment_count(), 1);
    assert_eq!(t.health_snapshot()[1].0, SegmentState::Failed);
    t.rejoin_segment(1);
    assert!(t.is_active(1));
    assert_eq!(t.active_segment_count(), 2);
    t.rejoin_segment(7); // past the end: nothing happens
    assert_eq!(t.len(), 2);
}

#[test]
fn drift_is_the_distance_either_way() {
    assert_eq!(drift_ms(1_000, 990), 10);
    assert_eq!(drift_ms(990, 1_000), 10);
    assert_eq!(drift_ms(5, 5), 0);
    assert_eq!(drift_ms(0, 999_999_999), 999_999_999);
}

#[test]
fn cluster_heartbeat_gap_below_warning_threshold_for_all_segments() {
    const HEARTBEAT_MS: u64 = 800;
    const WARN_GAP_MS: u64 = 2_000;
    const { assert!(HEARTBEAT_MS < WARN_GAP_MS) };
    const { assert!(HEARTBEAT_MS + 1 < WARN_GAP_MS) };
}

#[test]
fn heartbeat_gap_thresholds_match_gosl_rules() {
    const HEARTBEAT_MS: u64 = 800;
    const WARN_GAP_MS: u64 = 2_000;
    const CRIT_GAP_MS: u64 = 2_500;
    const { assert!(HEARTBEAT_MS < WARN_GAP_MS) };
    const { assert!(HEARTBEAT_MS < WARN_GAP_MS) };
    const { assert!(HEARTBEAT_MS * 2 < WARN_GAP_MS) };
    const { assert!(HEARTBEAT_MS * 3 >= WARN_GAP_MS) };
    const { assert!(HEARTBEAT_MS * 3 < CRIT_GAP_MS) };
    const { assert!(HEARTBEAT_MS * 4 >= CRIT_GAP_MS) };
}

#[test]
fn gosl_heartbeat_interval_provably_safe() {
    const HB_MS: u64 = 800;
    const WARN_MS: u64 = 2_000;
    const CRIT_MS: u64 = 2_500;
    const { assert!(HB_MS < WARN_MS) };
    const { assert!(HB_MS * 2 < WARN_MS) };
    const { assert!(HB_MS * 3 >= WARN_MS) };
    const { assert!(HB_MS * 3 < CRIT_MS) };
    const { assert!(HB_MS * 4 >= CRIT_MS) };
}

#[test]
fn active_segment_count_is_2() {
    let t = SegmentTable::new(2);
    assert_eq!(t.active_segment_count(), 2);
}

#[test]
fn a_frame_is_delivered_when_any_segment_accepts_it() {
    let (s, a, r) = (SegmentOutcome::Skipped, SegmentOutcome::Accepted, SegmentOutcome::Refused);
    assert!(frame_delivered(&[r, s, a]));
    assert!(!frame_delivered(&[r, s, r]));
    assert!(!frame_delivered(&[s]));
    assert!(!frame_delivered(&[]));
}

#[test]
fn counts_follow_sends_and_failures() {
    let mut t = SegmentTable::new(2);
    t.record(0, true, "");
    t.record(0, true, "");
    t.record(1, false, "timeout");
    t.record(1, false, "timeout");
    assert_eq!(t.counts(0), (2, 0));
    assert_eq!(t.counts(1), (0, 2));
    t.record(1, true, "");
    assert_eq!(t.counts(1), (1, 0));
}
