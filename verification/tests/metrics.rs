use led_platform::metrics::MetricsEmitter;

#[test]
fn frame_count_increments() {
    let mut m = MetricsEmitter::new("test");
    m.record_frame(100);
    m.record_frame(200);
    assert_eq!(m.frame_count(), 2);
}

#[test]
fn drop_count_increments() {
    let mut m = MetricsEmitter::new("test");
    m.record_drop();
    m.record_drop();
    assert_eq!(m.drop_count(), 2);
}

#[test]
fn beat_count_increments() {
    let mut m = MetricsEmitter::new("test");
    for _ in 0..10 {
        m.record_beat();
    }
    assert_eq!(m.beat_count(), 10);
}

#[test]
fn p50_within_bucket() {
    let mut m = MetricsEmitter::new("test");
    for _ in 0..100 {
        m.record_frame(1_000);
    }
    let p50 = m.p50_us();
    assert!((512..=1024).contains(&p50), "p50 must be near 1000µs: got {p50}µs");
}

#[test]
fn p99_higher_than_p50() {
    let mut m = MetricsEmitter::new("test");
    for _ in 0..90 {
        m.record_frame(500);
    }
    for _ in 0..10 {
        m.record_frame(50_000);
    }
    assert!(m.p99_us() > m.p50_us(), "p99 must be > p50");
}

#[test]
fn empty_histogram_returns_zero() {
    let m = MetricsEmitter::new("test");
    assert_eq!(m.p50_us(), 0);
    assert_eq!(m.p99_us(), 0);
}

#[test]
fn snapshot_json_is_valid_json_shape() {
    let mut m = MetricsEmitter::new("hal");
    m.record_frame(1_000);
    m.record_drop();
    m.record_beat();
    m.record_hop();
    let json = m.snapshot_json();
    assert!(json.contains("\"component\":\"hal\""), "must include component");
    assert!(json.contains("\"frames\":1"), "must include frames");
    assert!(json.contains("\"drops\":1"), "must include drops");
    assert!(json.contains("\"p50_us\":"), "must include p50");
    assert!(json.contains("\"p99_us\":"), "must include p99");
    assert!(json.contains("\"hb_gap_ms\":"), "must include heartbeat gap");
    assert!(json.starts_with('{') && json.ends_with('}'));
}

#[test]
fn snapshot_json_component_name_correct() {
    let m = MetricsEmitter::new("lumyx-test");
    let json = m.snapshot_json();
    assert!(json.contains("lumyx-test"), "component name must appear in JSON");
}

#[test]
fn reset_clears_all_counters() {
    let mut m = MetricsEmitter::new("test");
    for _ in 0..50 {
        m.record_frame(1_000);
        m.record_drop();
        m.record_beat();
    }
    m.reset();
    assert_eq!(m.frame_count(), 0);
    assert_eq!(m.drop_count(), 0);
    assert_eq!(m.beat_count(), 0);
    assert_eq!(m.p50_us(), 0);
}

#[test]
fn heartbeat_gap_stored_and_retrieved() {
    let mut m = MetricsEmitter::new("test");
    m.record_heartbeat_gap(1_500_000);
    let json = m.snapshot_json();
    assert!(json.contains("\"hb_gap_ms\":1500"), "hb_gap_ms must be 1500 in JSON");
}

#[test]
fn snapshot_at_a_known_time_is_exact() {
    let mut m = MetricsEmitter::new("n");
    m.record_frame(1_000);
    m.record_frame(3_000);
    m.record_beat();
    m.record_hop();
    m.record_hop();
    m.record_heartbeat_gap(2_500);
    assert_eq!(
        m.snapshot_json_at(500),
        "{\"component\":\"n\",\"elapsed_ms\":500,\"frames\":2,\"drops\":0,\"fps\":4,\"p50_us\":512,\"p99_us\":2048,\"beat_density_pct\":50,\"hops\":2,\"hb_gap_ms\":2}"
    );
}

#[test]
fn snapshot_with_no_elapsed_time_reports_zero_fps() {
    let mut m = MetricsEmitter::new("z");
    m.record_frame(7);
    let s = m.snapshot_json_at(0);
    assert!(s.contains("\"fps\":0"), "{s}");
    assert!(s.contains("\"p50_us\":4"), "{s}");
}

#[test]
fn sub_microsecond_latencies_count_in_the_first_bucket() {
    let mut m = MetricsEmitter::new("t");
    m.record_frame(0);
    assert_eq!(m.p50_us(), 1);
    assert_eq!(m.p99_us(), 1);
}

#[test]
fn huge_latencies_land_in_the_last_bucket() {
    let mut m = MetricsEmitter::new("t");
    m.record_frame(u64::MAX);
    assert_eq!(m.p99_us(), 1u64 << 63);
}

#[test]
fn p50_never_exceeds_p99_on_a_mixed_histogram() {
    let mut m = MetricsEmitter::new("t");
    for (i, v) in [3u64, 90, 1, 4000, 17, 65_000, 2].iter().enumerate() {
        for _ in 0..=i {
            m.record_frame(*v);
        }
    }
    assert!(m.p50_us() <= m.p99_us());
}

#[test]
fn percentiles_follow_the_least_bucket_reaching_the_rank() {
    // Buckets 0, 1, 6 and 12 (0 µs counts as 1 µs).
    let mut m = MetricsEmitter::new("law");
    for us in [0u64, 3, 100, 5_000] {
        m.record_frame(us);
    }
    // p50: rank max(ceil(4 * 50 / 100), 1) = 2, first reached at bucket 1.
    assert_eq!(m.p50_us(), 2);
    // p99: rank ceil(4 * 99 / 100) = 4, first reached at bucket 12.
    assert_eq!(m.p99_us(), 4_096);
}

#[test]
fn a_single_latency_sets_every_percentile() {
    let mut m = MetricsEmitter::new("one");
    m.record_frame(1_000);
    assert_eq!(m.p50_us(), 512);
    assert_eq!(m.p99_us(), 512);
}

#[test]
fn a_copy_of_an_emitter_reports_the_same() {
    let mut m = MetricsEmitter::new("copy");
    m.record_frame(700);
    m.record_drop();
    let c = m.clone();
    m.record_frame(9_000);
    assert_eq!(c.frame_count(), 1);
    assert_eq!(c.drop_count(), 1);
    assert_eq!(c.p99_us(), 512);
    assert_eq!(c.name(), "copy");
    assert_eq!(m.frame_count(), 2);
}
