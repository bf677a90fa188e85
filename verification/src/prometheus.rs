//! Prometheus text exposition (format 0.0.4) of a set of [`MetricsEmitter`]s.
//!
//! Counters carry the `_total` suffix; latency quantiles are reported in seconds, written as
//! an `f64` quotient of the histogram's microsecond figure prints (see [`quantile_seconds`]).

use vstd::prelude::*;
use std::sync::Arc;

use crate::metrics::{percentile_spec, MetricsEmitter, MetricsView};
use crate::text::{
    chars_of, dec, micros_as_seconds, push_micros_as_seconds, push_str, push_u64, starts_with,
};

verus! {

/// The lines that `line` renders for each emitter, in order.
pub open spec fn each(es: Seq<MetricsView>, line: spec_fn(MetricsView) -> Seq<char>) -> Seq<char>
    decreases es.len(),
{
    if es.len() == 0 {
        Seq::empty()
    } else {
        each(es.drop_last(), line) + line(es.last())
    }
}

/// A counter sample line: `<metric>{node="<name>"} <value>`.
pub open spec fn counter_line(metric: Seq<char>, name: Seq<char>, value: u64) -> Seq<char> {
    metric + "{node=\""@ + name + "\"} "@ + dec(value as nat) + "\n"@
}

/// The frames counter of one emitter.
pub open spec fn frames_line(v: MetricsView) -> Seq<char> {
    counter_line("lumyx_frames_total"@, v.name, v.frames)
}

/// The drops counter of one emitter.
pub open spec fn drops_line(v: MetricsView) -> Seq<char> {
    counter_line("lumyx_drops_total"@, v.name, v.drops)
}

/// The beats counter of one emitter.
pub open spec fn beats_line(v: MetricsView) -> Seq<char> {
    counter_line("lumyx_beats_total"@, v.name, v.beats)
}

/// The seconds that `µs / 10⁶`, computed in `f64`, prints as: the shortest decimal that reads
/// back as the same `f64`. For every latency a histogram reports (zero or a power of two) up
/// to `2^53` µs this is the exact quotient; for the bucket bounds from `2^54` µs on, the
/// quotient is not exact in `f64` and the shorter decimal below is what is printed.
pub open spec fn quantile_seconds(n: nat) -> Seq<char> {
    if n == 18014398509481984 {
        "18014398509.481983"@
    } else if n == 36028797018963968 {
        "36028797018.96397"@
    } else if n == 72057594037927936 {
        "72057594037.92793"@
    } else if n == 144115188075855872 {
        "144115188075.85587"@
    } else if n == 288230376151711744 {
        "288230376151.71173"@
    } else if n == 576460752303423488 {
        "576460752303.4235"@
    } else if n == 1152921504606846976 {
        "1152921504606.847"@
    } else if n == 2305843009213693952 {
        "2305843009213.694"@
    } else if n == 4611686018427387904 {
        "4611686018427.388"@
    } else if n == 9223372036854775808 {
        "9223372036854.775"@
    } else {
        micros_as_seconds(n)
    }
}

/// The two quantile lines (0.5 and 0.99) of one emitter, in seconds.
pub open spec fn latency_lines(v: MetricsView) -> Seq<char> {
    "lumyx_frame_latency_seconds{node=\""@ + v.name + "\",quantile=\"0.5\"} "@
        + quantile_seconds(percentile_spec(v.buckets, 50)) + "\n"@
        + "lumyx_frame_latency_seconds{node=\""@ + v.name + "\",quantile=\"0.99\"} "@
        + quantile_seconds(percentile_spec(v.buckets, 99)) + "\n"@
}

/// HELP and TYPE of the frames counter.
pub open spec fn frames_header() -> Seq<char> {
    "# HELP lumyx_frames_total Frames sent to devices.\n"@
        + "# TYPE lumyx_frames_total counter\n"@
}

/// HELP and TYPE of the drops counter.
pub open spec fn drops_header() -> Seq<char> {
    "# HELP lumyx_drops_total Frames dropped before reaching a device.\n"@
        + "# TYPE lumyx_drops_total counter\n"@
}

/// HELP and TYPE of the beats counter.
pub open spec fn beats_header() -> Seq<char> {
    "# HELP lumyx_beats_total Audio beats detected.\n"@ + "# TYPE lumyx_beats_total counter\n"@
}

/// HELP and TYPE of the latency summary.
pub open spec fn latency_header() -> Seq<char> {
    "# HELP lumyx_frame_latency_seconds Frame send latency (quantiles from HDR-lite histogram).\n"@
        + "# TYPE lumyx_frame_latency_seconds summary\n"@
}

/// The whole exposition: one HELP/TYPE pair per metric, then one series per emitter.
pub open spec fn exposition(es: Seq<MetricsView>) -> Seq<char> {
    frames_header() + each(es, |v: MetricsView| frames_line(v)) + drops_header() + each(
        es,
        |v: MetricsView| drops_line(v),
    ) + beats_header() + each(es, |v: MetricsView| beats_line(v)) + latency_header() + each(
        es,
        |v: MetricsView| latency_lines(v),
    )
}

/// The views of a list of shared emitters.
pub open spec fn views(emitters: Seq<Arc<MetricsEmitter>>) -> Seq<MetricsView> {
    emitters.map_values(|e: Arc<MetricsEmitter>| (*e)@)
}

fn push_latency(out: &mut String, e: &MetricsEmitter)
    requires
        e.wf(),
    ensures
        final(out)@ == old(out)@ + latency_lines(e@),
{
    push_str(out, "lumyx_frame_latency_seconds{node=\"");
    push_str(out, e.name());
    push_str(out, "\",quantile=\"0.5\"} ");
    push_quantile_seconds(out, e.p50_us());
    push_str(out, "\n");
    push_str(out, "lumyx_frame_latency_seconds{node=\"");
    push_str(out, e.name());
    push_str(out, "\",quantile=\"0.99\"} ");
    push_quantile_seconds(out, e.p99_us());
    push_str(out, "\n");
}

/// Appends the seconds of `n` µs as an `f64` prints them (see [`quantile_seconds`]).
fn push_quantile_seconds(out: &mut String, n: u64)
    ensures
        final(out)@ == old(out)@ + quantile_seconds(n as nat),
{
    if n == 18014398509481984u64 {
        push_str(out, "18014398509.481983");
    } else if n == 36028797018963968u64 {
        push_str(out, "36028797018.96397");
    } else if n == 72057594037927936u64 {
        push_str(out, "72057594037.92793");
    } else if n == 144115188075855872u64 {
        push_str(out, "144115188075.85587");
    } else if n == 288230376151711744u64 {
        push_str(out, "288230376151.71173");
    } else if n == 576460752303423488u64 {
        push_str(out, "576460752303.4235");
    } else if n == 1152921504606846976u64 {
        push_str(out, "1152921504606.847");
    } else if n == 2305843009213693952u64 {
        push_str(out, "2305843009213.694");
    } else if n == 4611686018427387904u64 {
        push_str(out, "4611686018427.388");
    } else if n == 9223372036854775808u64 {
        push_str(out, "9223372036854.775");
    } else {
        push_micros_as_seconds(out, n);
    }
}

fn push_counter(out: &mut String, metric: &str, e: &MetricsEmitter, which: u8)
    requires
        which < 3,
    ensures
        final(out)@ == old(out)@ + counter_line(
            metric@,
            e@.name,
            if which == 0 {
                e@.frames
            } else if which == 1 {
                e@.drops
            } else {
                e@.beats
            },
        ),
{
    push_str(out, metric);
    push_str(out, "{node=\"");
    push_str(out, e.name());
    push_str(out, "\"} ");
    let v = if which == 0 {
        e.frame_count()
    } else if which == 1 {
        e.drop_count()
    } else {
        e.beat_count()
    };
    push_u64(out, v);
    push_str(out, "\n");
}

/// Renders the standard metric set for `emitters` (see [`exposition`]).
pub fn prometheus_text(emitters: &[Arc<MetricsEmitter>]) -> (s: String)
    requires
        forall|i: int| 0 <= i < emitters@.len() ==> (*emitters@[i]).wf(),
    ensures
        s@ == exposition(views(emitters@)),
{
    let ghost es = views(emitters@);
    let n = emitters.len();
    let mut out = String::new();
    push_str(&mut out, "# HELP lumyx_frames_total Frames sent to devices.\n");
    push_str(&mut out, "# TYPE lumyx_frames_total counter\n");
    let ghost base = out@;
    let mut i: usize = 0;
    while i < n
        invariant
            n == emitters@.len(),
            es == views(emitters@),
            0 <= i <= n,
            out@ == base + each(es.subrange(0, i as int), |v: MetricsView| frames_line(v)),
        decreases n - i,
    {
        push_counter(&mut out, "lumyx_frames_total", &emitters[i], 0);
        assert(es.subrange(0, i + 1).drop_last() =~= es.subrange(0, i as int));
        i = i + 1;
    }
    assert(es.subrange(0, n as int) =~= es);
    push_str(&mut out, "# HELP lumyx_drops_total Frames dropped before reaching a device.\n");
    push_str(&mut out, "# TYPE lumyx_drops_total counter\n");
    let ghost base = out@;
    let mut i: usize = 0;
    while i < n
        invariant
            n == emitters@.len(),
            es == views(emitters@),
            0 <= i <= n,
            out@ == base + each(es.subrange(0, i as int), |v: MetricsView| drops_line(v)),
        decreases n - i,
    {
        push_counter(&mut out, "lumyx_drops_total", &emitters[i], 1);
        assert(es.subrange(0, i + 1).drop_last() =~= es.subrange(0, i as int));
        i = i + 1;
    }
    push_str(&mut out, "# HELP lumyx_beats_total Audio beats detected.\n");
    push_str(&mut out, "# TYPE lumyx_beats_total counter\n");
    let ghost base = out@;
    let mut i: usize = 0;
    while i < n
        invariant
            n == emitters@.len(),
            es == views(emitters@),
            0 <= i <= n,
            out@ == base + each(es.subrange(0, i as int), |v: MetricsView| beats_line(v)),
        decreases n - i,
    {
        push_counter(&mut out, "lumyx_beats_total", &emitters[i], 2);
        assert(es.subrange(0, i + 1).drop_last() =~= es.subrange(0, i as int));
        i = i + 1;
    }
    push_str(
        &mut out,
        "# HELP lumyx_frame_latency_seconds Frame send latency (quantiles from HDR-lite histogram).\n",
    );
    push_str(&mut out, "# TYPE lumyx_frame_latency_seconds summary\n");
    let ghost base = out@;
    let mut i: usize = 0;
    while i < n
        invariant
            n == emitters@.len(),
            es == views(emitters@),
            forall|j: int| 0 <= j < emitters@.len() ==> (*emitters@[j]).wf(),
            0 <= i <= n,
            out@ == base + each(es.subrange(0, i as int), |v: MetricsView| latency_lines(v)),
        decreases n - i,
    {
        push_latency(&mut out, &emitters[i]);
        assert(es.subrange(0, i + 1).drop_last() =~= es.subrange(0, i as int));
        i = i + 1;
    }
    out
}

/// The start of a request for the metrics page.
pub open spec fn metrics_request_prefix() -> Seq<char> {
    seq!['G', 'E', 'T', ' ', '/', 'm', 'e', 't', 'r', 'i', 'c', 's']
}

/// An HTTP/1.1 response carrying `body` as plain text; the length counts UTF-8 bytes.
pub open spec fn http_response(status: Seq<char>, body: Seq<char>) -> Seq<char> {
    "HTTP/1.1 "@ + status + "\r\nContent-Type: text/plain; version=0.0.4\r\nContent-Length: "@ + dec(
        (vstd::utf8::encode_utf8(body).len() as usize) as nat,
    ) + "\r\nConnection: close\r\n\r\n"@ + body
}

/// The answer to a request: the exposition for `GET /metrics`, a 404 for anything else.
pub open spec fn response_spec(request: Seq<char>, es: Seq<MetricsView>) -> Seq<char> {
    if request.len() >= 12 && request.subrange(0, 12) == metrics_request_prefix() {
        http_response("200 OK"@, exposition(es))
    } else {
        http_response("404 Not Found"@, "not found\n"@)
    }
}

fn push_response(out: &mut String, status: &str, body: &str)
    ensures
        final(out)@ == old(out)@ + http_response(status@, body@),
{
    push_str(out, "HTTP/1.1 ");
    push_str(out, status);
    push_str(out, "\r\nContent-Type: text/plain; version=0.0.4\r\nContent-Length: ");
    let n = body.len();
    assert(n as nat == (vstd::utf8::encode_utf8(body@).len() as usize) as nat);
    push_u64(out, n as u64);
    push_str(out, "\r\nConnection: close\r\n\r\n");
    push_str(out, body);
    assert(out@ =~= old(out)@ + http_response(status@, body@));
}

/// The HTTP answer to the request text received: only `GET /metrics` is served.
pub fn metrics_response(request: &str, emitters: &[Arc<MetricsEmitter>]) -> (s: String)
    requires
        forall|i: int| 0 <= i < emitters@.len() ==> (*emitters@[i]).wf(),
    ensures
        s@ == response_spec(request@, views(emitters@)),
{
    let chars = chars_of(request);
    let prefix: Vec<char> = vec!['G', 'E', 'T', ' ', '/', 'm', 'e', 't', 'r', 'i', 'c', 's'];
    assert(prefix@ =~= metrics_request_prefix());
    let mut out = String::new();
    if starts_with(&chars, 0, chars.len(), prefix.as_slice()) {
        let body = prometheus_text(emitters);
        push_response(&mut out, "200 OK", body.as_str());
    } else {
        push_response(&mut out, "404 Not Found", "not found\n");
    }
    assert(chars@.subrange(0, chars@.len() as int) =~= chars@);
    out
}

} // verus!
