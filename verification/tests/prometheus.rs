use std::sync::Arc;

use led_platform::metrics::MetricsEmitter;
use led_platform::prometheus::{metrics_response, prometheus_text};

fn emitter_with_data(name: &'static str) -> Arc<MetricsEmitter> {
    let mut e = MetricsEmitter::new(name);
    e.record_frame(1000);
    e.record_frame(2000);
    e.record_drop();
    e.record_beat();
    Arc::new(e)
}

#[test]
fn text_format_has_help_type_and_values() {
    let e = emitter_with_data("node-a");
    let text = prometheus_text(&[e]);
    assert!(text.contains("# HELP lumyx_frames_total"));
    assert!(text.contains("# TYPE lumyx_frames_total counter"));
    assert!(text.contains("lumyx_frames_total{node=\"node-a\"} 2"));
    assert!(text.contains("lumyx_drops_total{node=\"node-a\"} 1"));
    assert!(text.contains("lumyx_beats_total{node=\"node-a\"} 1"));
    assert!(text.contains("quantile=\"0.99\""));
}

#[test]
fn latency_is_reported_in_seconds() {
    let mut e = MetricsEmitter::new("s");
    e.record_frame(1_000_000);
    let text = prometheus_text(&[Arc::new(e)]);
    let line = text.lines().find(|l| l.contains("quantile=\"0.5\"")).expect("p50 line");
    let v: f64 = line.rsplit(' ').next().unwrap().parse().unwrap();
    assert!((0.5..=2.0).contains(&v), "1s recorded → ~1.0 exposed, got {v}");
}

#[test]
fn multiple_nodes_render_one_series_each() {
    let a = emitter_with_data("node-a");
    let b = emitter_with_data("node-b");
    let text = prometheus_text(&[a, b]);
    assert!(text.contains("node=\"node-a\""));
    assert!(text.contains("node=\"node-b\""));
    assert_eq!(text.matches("# TYPE lumyx_frames_total").count(), 1);
}

#[test]
fn quantiles_are_written_as_exact_decimal_seconds() {
    let mut e = MetricsEmitter::new("q");
    e.record_frame(1_000_000);
    let text = prometheus_text(&[Arc::new(e)]);
    assert!(text.contains("lumyx_frame_latency_seconds{node=\"q\",quantile=\"0.5\"} 0.524288\n"), "{text}");
    let empty = prometheus_text(&[Arc::new(MetricsEmitter::new("z"))]);
    assert!(empty.contains("lumyx_frame_latency_seconds{node=\"z\",quantile=\"0.99\"} 0\n"), "{empty}");
    let mut big = MetricsEmitter::new("b");
    big.record_frame(3_000_000);
    let text = prometheus_text(&[Arc::new(big)]);
    assert!(text.contains("quantile=\"0.5\"} 2.097152\n"), "{text}");
}

#[test]
fn no_emitters_renders_only_the_headers() {
    let text = prometheus_text(&[]);
    assert_eq!(text.lines().count(), 8);
    assert!(text.ends_with("# TYPE lumyx_frame_latency_seconds summary\n"));
}

#[test]
fn http_endpoint_serves_metrics_and_404_as_text() {
    let mut e = MetricsEmitter::new("node-a");
    e.record_frame(1_500);
    let emitters = vec![Arc::new(e)];
    let ok = metrics_response("GET /metrics HTTP/1.1\r\nHost: x\r\n\r\n", &emitters);
    let body = prometheus_text(&emitters);
    assert_eq!(
        ok,
        format!(
            "HTTP/1.1 200 OK\r\nContent-Type: text/plain; version=0.0.4\r\nContent-Length: {}\r\nConnection: close\r\n\r\n{body}",
            body.len()
        )
    );
    assert!(ok.contains("lumyx_frames_total{node=\"node-a\"} 1"));
    let missing = metrics_response("GET /nope HTTP/1.1\r\n\r\n", &emitters);
    assert_eq!(
        missing,
        "HTTP/1.1 404 Not Found\r\nContent-Type: text/plain; version=0.0.4\r\nContent-Length: 10\r\nConnection: close\r\n\r\nnot found\n"
    );
    assert!(metrics_response("", &emitters).starts_with("HTTP/1.1 404"));
}

#[test]
fn huge_bucket_bounds_print_as_the_f64_quotient_does() {
    let mut e = MetricsEmitter::new("big");
    e.record_frame(u64::MAX);
    let text = prometheus_text(&[Arc::new(e)]);
    let expected = format!("{}", (1u64 << 63) as f64 / 1e6);
    assert_eq!(expected, "9223372036854.775");
    assert!(text.contains("lumyx_frame_latency_seconds{node=\"big\",quantile=\"0.99\"} 9223372036854.775\n"));

    let mut e = MetricsEmitter::new("b54");
    e.record_frame(1u64 << 54);
    let text = prometheus_text(&[Arc::new(e)]);
    assert!(text.contains(&format!("quantile=\"0.5\"}} {}\n", (1u64 << 54) as f64 / 1e6)));
    assert!(text.contains("quantile=\"0.5\"} 18014398509.481983\n"));
}

#[test]
fn every_bucket_bound_prints_as_the_f64_quotient_does() {
    for i in 0..64u32 {
        let mut e = MetricsEmitter::new("n");
        e.record_frame(1u64 << i);
        let text = prometheus_text(&[Arc::new(e)]);
        let want = format!("quantile=\"0.5\"}} {}\n", (1u64 << i) as f64 / 1e6);
        assert!(text.contains(&want), "bucket {i}: {want}");
    }
}
