use led_platform::alerts::{
    fired_alerts, heartbeat_gap_alert, hb_gap_ms_of, low_frame_alert, p99_alert, AlertCondition,
    AlertEngine, AlertRule, AlertSeverity,
};
use led_platform::metrics::MetricsEmitter;
use led_platform::observability::{ObservabilityReport, Span, SpanCollector};

/// The drop-rate verdict of each rule, computed in `f32` as the host does.
fn drop_verdicts(rules: &[AlertRule], frames: u64, drops: u64) -> Vec<Option<String>> {
    let drop_rate = if frames > 0 { drops as f32 / frames as f32 * 100.0 } else { 0.0 };
    rules
        .iter()
        .map(|rule| match rule.condition {
            AlertCondition::DropRatePct { threshold_pct_bits } => {
                let threshold_pct = f32::from_bits(threshold_pct_bits);
                if drop_rate > threshold_pct {
                    Some(format!(
                        r#"{{"alert":"{}","severity":"{:?}","drop_rate_pct":{:.2},"threshold_pct":{}}}"#,
                        rule.name, rule.severity, drop_rate, threshold_pct
                    ))
                } else {
                    None
                }
            }
            _ => None,
        })
        .collect()
}

fn evaluate(engine: &mut AlertEngine, m: &MetricsEmitter, s: &SpanCollector) -> Vec<String> {
    let verdicts = drop_verdicts(engine.rules(), m.frame_count(), m.drop_count());
    engine.evaluate(m, s, &verdicts)
}

fn drop_rule(name: &'static str, threshold_pct: f32) -> AlertRule {
    AlertRule {
        name,
        severity: AlertSeverity::Warning,
        condition: AlertCondition::DropRatePct { threshold_pct_bits: threshold_pct.to_bits() },
    }
}

#[test]
fn p99_alert_fires_above_the_threshold_with_the_larger_p99() {
    assert_eq!(
        p99_alert("hal-latency-p99", AlertSeverity::Critical, 60_000, 10, 50_000).as_deref(),
        Some(r#"{"alert":"hal-latency-p99","severity":"Critical","p99_us":60000,"threshold_us":50000}"#)
    );
    assert_eq!(
        p99_alert("x", AlertSeverity::Warning, 10, 70_000, 50_000).as_deref(),
        Some(r#"{"alert":"x","severity":"Warning","p99_us":70000,"threshold_us":50000}"#)
    );
    assert!(p99_alert("x", AlertSeverity::Warning, 50_000, 50_000, 50_000).is_none());
}

#[test]
fn low_frame_alert_fires_below_the_minimum() {
    assert_eq!(
        low_frame_alert("few", AlertSeverity::Warning, 3, 10).as_deref(),
        Some(r#"{"alert":"few","severity":"Warning","frames":3,"minimum":10}"#)
    );
    assert!(low_frame_alert("few", AlertSeverity::Warning, 10, 10).is_none());
}

#[test]
fn heartbeat_gap_is_read_back_from_the_snapshot_line() {
    let mut m = MetricsEmitter::new("hal");
    m.record_heartbeat_gap(3_000_000);
    let snap = m.snapshot_json_at(1_000);
    assert_eq!(hb_gap_ms_of(&snap), 3_000);
    assert_eq!(
        heartbeat_gap_alert("heartbeat-gap", AlertSeverity::Critical, &snap, 2_000).as_deref(),
        Some(r#"{"alert":"heartbeat-gap","severity":"Critical","hb_gap_ms":3000,"threshold_ms":2000}"#)
    );
    m.record_heartbeat_gap(1_999_999);
    assert!(heartbeat_gap_alert("g", AlertSeverity::Critical, &m.snapshot_json_at(1), 2_000).is_none());
}

#[test]
fn the_gap_parser_reads_like_str_parse() {
    assert_eq!(hb_gap_ms_of(r#"{"frames":1}"#), 0, "no key");
    assert_eq!(hb_gap_ms_of(r#"{"hb_gap_ms": 12 }"#), 12, "trimmed");
    assert_eq!(hb_gap_ms_of(r#"{"hb_gap_ms":+7}"#), 7, "a leading plus");
    assert_eq!(hb_gap_ms_of(r#"{"hb_gap_ms":-1}"#), 0, "unsigned");
    assert_eq!(hb_gap_ms_of(r#"{"hb_gap_ms":}"#), 0, "empty");
    assert_eq!(hb_gap_ms_of(r#"{"hb_gap_ms":+}"#), 0, "sign alone");
    assert_eq!(hb_gap_ms_of(r#"{"hb_gap_ms":99999999999999999999}"#), 0, "overflow");
    assert_eq!(hb_gap_ms_of(r#"{"hb_gap_ms":18446744073709551615}"#), u64::MAX);
    assert_eq!(hb_gap_ms_of(r#"{"hb_gap_ms":5"hb_gap_ms":9}"#), 5, "cut at the next key");
    assert_eq!(hb_gap_ms_of(r#"{"hb_gap_ms":4x,"a":1}"#), 0, "not a number");
}

#[test]
fn fired_alerts_keep_rule_order_and_skip_silent_rules() {
    let verdicts = vec![Some("a".to_string()), None, Some("c".to_string()), None];
    assert_eq!(fired_alerts(&verdicts), vec!["a".to_string(), "c".to_string()]);
    assert!(fired_alerts(&vec![None, None]).is_empty());
    assert!(fired_alerts(&vec![]).is_empty());
}

#[test]
fn no_alerts_when_healthy() {
    let mut m = MetricsEmitter::new("test");
    let s = SpanCollector::new(100);
    for _ in 0..10 {
        m.record_frame(1_000);
    }
    let mut engine = AlertEngine::lumyx_standard();
    let alerts = evaluate(&mut engine, &m, &s);
    assert!(alerts.is_empty(), "no alerts in healthy system: {:?}", alerts);
}

#[test]
fn drop_rate_alert_fires() {
    let mut m = MetricsEmitter::new("test");
    let s = SpanCollector::new(100);
    for _ in 0..90 {
        m.record_frame(500);
    }
    for _ in 0..10 {
        m.record_drop();
        m.record_frame(500);
    }
    let mut engine = AlertEngine::new(vec![drop_rule("drops", 5.0)]);
    let alerts = evaluate(&mut engine, &m, &s);
    assert!(!alerts.is_empty(), "drop rate alert must fire");
    assert!(alerts[0].contains("drops"));
}

#[test]
fn heartbeat_gap_alert_fires() {
    let mut m = MetricsEmitter::new("test");
    let s = SpanCollector::new(100);
    m.record_heartbeat_gap(3_000_000); // 3s in µs → 3000ms
    let mut engine = AlertEngine::new(vec![AlertRule {
        name: "hb",
        severity: AlertSeverity::Critical,
        condition: AlertCondition::HeartbeatGapMs { threshold_ms: 2_000 },
    }]);
    let alerts = evaluate(&mut engine, &m, &s);
    assert!(!alerts.is_empty(), "heartbeat gap alert must fire");
}

#[test]
fn report_json_nominal_when_no_alerts() {
    let mut m = MetricsEmitter::new("test");
    let s = SpanCollector::new(100);
    for _ in 0..5 {
        m.record_frame(500);
    }
    let mut engine = AlertEngine::lumyx_standard();
    let verdicts = drop_verdicts(engine.rules(), m.frame_count(), m.drop_count());
    let report = ObservabilityReport::collect(&m, &s, &mut engine, 2, &verdicts);
    let json = report.to_json();
    assert!(json.contains("\"status\":\"nominal\""), "healthy system → nominal");
    assert!(json.contains("\"nodes\":2"));
}

#[test]
fn report_json_degraded_when_alerts() {
    let mut m = MetricsEmitter::new("test");
    let s = SpanCollector::new(100);
    for _ in 0..50 {
        m.record_frame(500);
        m.record_drop();
    }
    let mut engine = AlertEngine::new(vec![drop_rule("drops", 1.0)]);
    let verdicts = drop_verdicts(engine.rules(), m.frame_count(), m.drop_count());
    let report = ObservabilityReport::collect(&m, &s, &mut engine, 1, &verdicts);
    assert!(report.to_json().contains("\"status\":\"degraded\""));
}

#[test]
fn one_evaluation_lists_the_rules_that_fire_in_rule_order() {
    let mut m = MetricsEmitter::new("eng");
    m.record_frame(100_000); // bucket 16: p99 = 65536 µs
    m.record_heartbeat_gap(5_000_000);
    let mut s = SpanCollector::new(10);
    s.record(Span { name: "hal.send_frame", node_id: 0, start_us: 0, duration_us: 70_000, tags: "" });
    let mut engine = AlertEngine::new(vec![
        AlertRule {
            name: "few",
            severity: AlertSeverity::Warning,
            condition: AlertCondition::LowFrameCount { minimum: 2 },
        },
        AlertRule {
            name: "quiet",
            severity: AlertSeverity::Warning,
            condition: AlertCondition::LowFrameCount { minimum: 1 },
        },
        AlertRule {
            name: "p99",
            severity: AlertSeverity::Critical,
            condition: AlertCondition::P99ExceedsUs { span_name: "hal.send_frame", threshold_us: 50_000 },
        },
        drop_rule("drops", 1.0),
        AlertRule {
            name: "hb",
            severity: AlertSeverity::Critical,
            condition: AlertCondition::HeartbeatGapMs { threshold_ms: 2_000 },
        },
    ]);
    let verdicts = vec![None, None, None, Some("drop-line".to_string()), None];
    let snap = m.snapshot_json_at(10);
    let fired = engine.evaluate_at(&m, &s, &snap, &verdicts);
    assert_eq!(
        fired,
        vec![
            r#"{"alert":"few","severity":"Warning","frames":1,"minimum":2}"#.to_string(),
            r#"{"alert":"p99","severity":"Critical","p99_us":70000,"threshold_us":50000}"#.to_string(),
            "drop-line".to_string(),
            r#"{"alert":"hb","severity":"Critical","hb_gap_ms":5000,"threshold_ms":2000}"#.to_string(),
        ]
    );
    assert_eq!(engine.last_alerts(), fired);
    // A verdict handed in for a rule that does not compare the drop rate is ignored.
    let stray = vec![Some("x".to_string()), None, None, None, None];
    let again = engine.evaluate_at(&m, &s, &snap, &stray);
    assert_eq!(again[0], fired[0]);
    assert_eq!(again.len(), 3);
}

#[test]
fn the_standard_rules_and_a_fresh_engine() {
    let engine = AlertEngine::lumyx_standard();
    let rules = engine.rules();
    assert_eq!(rules.len(), 3);
    assert_eq!(rules[0].name, "hal-latency-p99");
    assert!(matches!(
        rules[0].condition,
        AlertCondition::P99ExceedsUs { span_name: "hal.send_frame", threshold_us: 50_000 }
    ));
    assert!(matches!(rules[1].condition, AlertCondition::DropRatePct { threshold_pct_bits } if f32::from_bits(threshold_pct_bits) == 1.0));
    assert!(matches!(rules[2].condition, AlertCondition::HeartbeatGapMs { threshold_ms: 2_000 }));
    assert!(engine.last_alerts().is_empty());
}
