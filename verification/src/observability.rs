//! Timing spans from every node, kept in a bounded buffer, and the one-line report that
//! sums up a show's state.

use vstd::prelude::*;

use crate::alerts::{evaluation, verdict_views, AlertEngine, AlertEngineView};
use crate::clock::{elapsed_us, instant_now};
use crate::metrics::{snapshot_spec, MetricsEmitter};
use crate::text::{dec, push_char, push_str, push_u64, str_eq};

verus! {

/// One timing measurement for one pipeline stage.
#[derive(Clone, Copy, Debug)]
pub struct Span {
    pub name: &'static str,
    pub node_id: u32,
    pub start_us: u64,
    pub duration_us: u64,
    /// Static `key=value` pairs, e.g. `"layer=hal,device=0"`.
    pub tags: &'static str,
}

/// What a [`SpanCollector`] holds.
pub struct SpanCollectorView {
    pub spans: Seq<Span>,
    pub capacity: nat,
    pub total: u64,
}

/// The largest duration among the spans named `name`; zero when there is none.
pub open spec fn max_duration(spans: Seq<Span>, name: Seq<char>) -> u64
    decreases spans.len(),
{
    if spans.len() == 0 {
        0
    } else {
        let m = max_duration(spans.drop_last(), name);
        let s = spans.last();
        if s.name@ == name && s.duration_us > m {
            s.duration_us
        } else {
            m
        }
    }
}

/// The JSON object for one span.
pub open spec fn span_json(s: Span) -> Seq<char> {
    "{\"name\":\""@ + s.name@ + "\",\"node\":"@ + dec(s.node_id as nat) + ",\"us\":"@ + dec(
        s.duration_us as nat,
    ) + ",\"tags\":\""@ + s.tags@ + "\"}"@
}

/// The JSON objects of `spans`, separated by commas.
pub open spec fn spans_joined(spans: Seq<Span>) -> Seq<char>
    decreases spans.len(),
{
    if spans.len() == 0 {
        Seq::empty()
    } else if spans.len() == 1 {
        span_json(spans[0])
    } else {
        spans_joined(spans.drop_last()) + seq![','] + span_json(spans.last())
    }
}

/// The JSON array of the last `n` spans (all of them when there are fewer).
pub open spec fn latest_json_spec(spans: Seq<Span>, n: nat) -> Seq<char> {
    let start = if spans.len() > n { spans.len() - n } else { 0 };
    seq!['['] + spans_joined(spans.subrange(start as int, spans.len() as int)) + seq![']']
}

/// The one plus a counter, wrapping at `u64::MAX`.
pub open spec fn bump(c: u64) -> u64 {
    if c == u64::MAX { 0 } else { (c + 1) as u64 }
}

/// The buffer after `span` is recorded: the oldest span leaves when it is full.
pub open spec fn recorded(spans: Seq<Span>, capacity: nat, span: Span) -> Seq<Span> {
    if spans.len() >= capacity {
        spans.drop_first().push(span)
    } else {
        spans.push(span)
    }
}

/// What a collector of capacity `capacity` holds after the spans `ss` were recorded, in
/// order, starting empty.
pub open spec fn after_records(capacity: nat, ss: Seq<Span>) -> SpanCollectorView
    decreases ss.len(),
{
    if ss.len() == 0 {
        SpanCollectorView { spans: Seq::empty(), capacity, total: 0 }
    } else {
        let before = after_records(capacity, ss.drop_last());
        SpanCollectorView {
            spans: recorded(before.spans, capacity, ss.last()),
            capacity,
            total: bump(before.total),
        }
    }
}

/// Law: a collector keeps the latest spans and counts them all. After any `n` spans
/// recorded from empty with capacity `capacity >= 1`, the total is `n` and the buffer holds
/// exactly the last `min(n, capacity)` of them, in recording order.
pub proof fn lemma_collector_keeps_the_latest(capacity: nat, ss: Seq<Span>)
    requires
        capacity > 0,
        ss.len() <= u64::MAX,
    ensures
        after_records(capacity, ss) == (SpanCollectorView {
            spans: ss.subrange(
                if ss.len() > capacity { ss.len() - capacity } else { 0 },
                ss.len() as int,
            ),
            capacity,
            total: ss.len() as u64,
        }),
    decreases ss.len(),
{
    let n = ss.len() as int;
    if n == 0 {
        assert(ss.subrange(0, 0) =~= Seq::<Span>::empty());
    } else {
        let rest = ss.drop_last();
        lemma_collector_keeps_the_latest(capacity, rest);
        let before = after_records(capacity, rest);
        let start = if n > capacity { n - capacity } else { 0 };
        if n - 1 >= capacity {
            assert(before.spans.len() == capacity);
            assert(before.spans.drop_first().push(ss.last()) =~= ss.subrange(start, n));
        } else {
            assert(before.spans.push(ss.last()) =~= ss.subrange(start, n));
        }
    }
}

/// Collects the last `capacity` spans from all nodes, and counts every span ever recorded.
pub struct SpanCollector {
    spans: Vec<Span>,
    capacity: usize,
    total: u64,
}

impl View for SpanCollector {
    type V = SpanCollectorView;

    closed spec fn view(&self) -> SpanCollectorView {
        SpanCollectorView { spans: self.spans@, capacity: self.capacity as nat, total: self.total }
    }
}

impl SpanCollector {
    /// The buffer never holds more than its capacity.
    pub closed spec fn wf(&self) -> bool {
        self.spans@.len() <= self.capacity
    }

    /// An empty collector that keeps at most `capacity` spans.
    pub fn new(capacity: usize) -> (c: Self)
        ensures
            c.wf(),
            c@.spans.len() == 0,
            c@.capacity == capacity,
            c@.total == 0,
            c@ == after_records(capacity as nat, Seq::empty()),
    {
        SpanCollector { spans: Vec::new(), capacity, total: 0 }
    }

    /// Records a completed span; when the buffer is full the oldest span is dropped.
    /// A collector of capacity zero cannot record.
    pub fn record(&mut self, span: Span)
        requires
            old(self).wf(),
            old(self)@.capacity > 0,
        ensures
            final(self).wf(),
            final(self)@ == (SpanCollectorView {
                spans: recorded(old(self)@.spans, old(self)@.capacity, span),
                total: bump(old(self)@.total),
                ..old(self)@
            }),
    {
        self.total = self.total.wrapping_add(1);
        if self.spans.len() >= self.capacity {
            self.spans.remove(0);
        }
        self.spans.push(span);
        assert(self.spans@ =~= recorded(old(self)@.spans, old(self)@.capacity, span));
    }

    /// Starts a span now; finish it with [`ActiveSpan::finish`].
    pub fn start(&self, name: &'static str, node_id: u32, tags: &'static str) -> (a: ActiveSpan)
        ensures
            a.span_name() == name,
            a.span_node() == node_id,
            a.span_tags() == tags,
    {
        ActiveSpan { name, node_id, tags, t0: instant_now() }
    }

    /// Number of spans ever recorded (wrapping at `u64::MAX`).
    pub fn total(&self) -> (t: u64)
        ensures
            t == self@.total,
    {
        self.total
    }

    /// The 99th-percentile duration of the spans named `name`. The rank used is
    /// `max(len · 99 / 100, len − 1)`, which is always the last of the sorted durations, so
    /// the result is their maximum (zero when no span matches).
    pub fn p99_us(&self, name: &str) -> (r: u64)
        ensures
            r == max_duration(self@.spans, name@),
    {
        let mut best: u64 = 0;
        let mut i: usize = 0;
        while i < self.spans.len()
            invariant
                0 <= i <= self.spans@.len(),
                best == max_duration(self.spans@.subrange(0, i as int), name@),
            decreases self.spans@.len() - i,
        {
            let s = self.spans[i];
            assert(self.spans@.subrange(0, i + 1).drop_last() =~= self.spans@.subrange(0, i as int));
            if str_eq(s.name, name) && s.duration_us > best {
                best = s.duration_us;
            }
            i = i + 1;
        }
        assert(self.spans@.subrange(0, self.spans@.len() as int) =~= self.spans@);
        best
    }

    /// The last `n` spans as a JSON array (see [`latest_json_spec`]).
    pub fn latest_json(&self, n: usize) -> (s: String)
        ensures
            s@ == latest_json_spec(self@.spans, n as nat),
    {
        let len = self.spans.len();
        let start = if len > n { len - n } else { 0 };
        let mut out = String::new();
        push_char(&mut out, '[');
        let ghost base = out@;
        let mut i = start;
        while i < len
            invariant
                start <= i <= len,
                len == self.spans@.len(),
                out@ == base + spans_joined(self.spans@.subrange(start as int, i as int)),
            decreases len - i,
        {
            let sp = self.spans[i];
            let ghost prev = out@;
            if i > start {
                push_char(&mut out, ',');
            }
            push_str(&mut out, "{\"name\":\"");
            push_str(&mut out, sp.name);
            push_str(&mut out, "\",\"node\":");
            push_u64(&mut out, sp.node_id as u64);
            push_str(&mut out, ",\"us\":");
            push_u64(&mut out, sp.duration_us);
            push_str(&mut out, ",\"tags\":\"");
            push_str(&mut out, sp.tags);
            push_str(&mut out, "\"}");
            proof {
                let sub = self.spans@.subrange(start as int, i + 1);
                assert(sub.drop_last() =~= self.spans@.subrange(start as int, i as int));
                assert(sub.last() == sp);
                if i == start {
                    assert(sub.len() == 1);
                    assert(out@ =~= base + spans_joined(sub));
                } else {
                    assert(out@ =~= base + spans_joined(sub));
                }
            }
            i = i + 1;
        }
        push_char(&mut out, ']');
        out
    }
}

/// A span in progress. [`ActiveSpan::finish`] records it.
pub struct ActiveSpan {
    name: &'static str,
    node_id: u32,
    tags: &'static str,
    t0: std::time::Instant,
}

impl ActiveSpan {
    /// The name the span will be recorded under.
    pub closed spec fn span_name(&self) -> &'static str {
        self.name
    }

    /// The node the span will be recorded for.
    pub closed spec fn span_node(&self) -> u32 {
        self.node_id
    }

    /// The tags the span will carry.
    pub closed spec fn span_tags(&self) -> &'static str {
        self.tags
    }

    /// The span this one becomes when it lasted `d` µs.
    pub open spec fn finished(&self, d: u64) -> Span {
        Span {
            name: self.span_name(),
            node_id: self.span_node(),
            start_us: 0,
            duration_us: d,
            tags: self.span_tags(),
        }
    }

    /// Completes the span: records its name, node, tags and the µs elapsed since it started,
    /// with a start offset of zero.
    pub fn finish(self, collector: &mut SpanCollector)
        requires
            old(collector).wf(),
            old(collector)@.capacity > 0,
        ensures
            final(collector).wf(),
            exists|d: u64|
                final(collector)@ == (SpanCollectorView {
                    spans: recorded(
                        old(collector)@.spans,
                        old(collector)@.capacity,
                        #[trigger] self.finished(d),
                    ),
                    total: bump(old(collector)@.total),
                    ..old(collector)@
                }),
    {
        let duration_us = elapsed_us(&self.t0);
        assert(self.finished(duration_us) == Span {
            name: self.name,
            node_id: self.node_id,
            start_us: 0,
            duration_us,
            tags: self.tags,
        });
        collector.record(
            Span {
                name: self.name,
                node_id: self.node_id,
                start_us: 0,
                duration_us,
                tags: self.tags,
            },
        );
    }
}

/// A full operational snapshot of a show.
pub struct ObservabilityReport {
    pub metrics_json: String,
    pub alerts: Vec<String>,
    pub top_spans_json: String,
    pub node_count: usize,
}

/// The one-line JSON summary: `"nominal"` when no alert fired, `"degraded"` otherwise.
pub open spec fn report_json_spec(node_count: nat, alert_count: nat, metrics: Seq<char>) -> Seq<
    char,
> {
    "{\"status\":\""@ + (if alert_count == 0 {
        "nominal"@
    } else {
        "degraded"@
    }) + "\",\"nodes\":"@ + dec(node_count) + ",\"alerts\":"@ + dec(alert_count)
        + ",\"metrics\":"@ + metrics + "}"@
}

impl ObservabilityReport {
    /// The full operational snapshot now: the alerts of one evaluation of `alerts` (with
    /// `drop_verdicts` as in [`AlertEngine::evaluate`]), the metrics snapshot line, the ten
    /// latest spans and the node count.
    pub fn collect(
        metrics: &MetricsEmitter,
        spans: &SpanCollector,
        alerts: &mut AlertEngine,
        node_count: usize,
        drop_verdicts: &Vec<Option<String>>,
    ) -> (r: Self)
        requires
            metrics.wf(),
            drop_verdicts@.len() == old(alerts)@.rules.len(),
            metrics@.frames * 1000 <= u64::MAX,
            metrics@.beats * 100 <= u64::MAX,
        ensures
            exists|e: u64|
                r.alerts@.map_values(|s: String| s@) == evaluation(
                    old(alerts)@.rules,
                    metrics@,
                    spans@.spans,
                    #[trigger] snapshot_spec(metrics@, e),
                    verdict_views(drop_verdicts@),
                ),
            final(alerts)@ == (AlertEngineView {
                rules: old(alerts)@.rules,
                fired: r.alerts@.map_values(|s: String| s@),
            }),
            exists|e: u64| r.metrics_json@ == #[trigger] snapshot_spec(metrics@, e),
            r.top_spans_json@ == latest_json_spec(spans@.spans, 10),
            r.node_count == node_count,
    {
        let alert_list = alerts.evaluate(metrics, spans, drop_verdicts);
        ObservabilityReport {
            metrics_json: metrics.snapshot_json(),
            alerts: alert_list,
            top_spans_json: spans.latest_json(10),
            node_count,
        }
    }

    /// One-line JSON summary for log aggregators (see [`report_json_spec`]).
    pub fn to_json(&self) -> (s: String)
        ensures
            s@ == report_json_spec(self.node_count as nat, self.alerts@.len(), self.metrics_json@),
    {
        let alert_count = self.alerts.len();
        let mut out = String::new();
        push_str(&mut out, "{\"status\":\"");
        if alert_count == 0 {
            push_str(&mut out, "nominal");
        } else {
            push_str(&mut out, "degraded");
        }
        push_str(&mut out, "\",\"nodes\":");
        push_u64(&mut out, self.node_count as u64);
        push_str(&mut out, ",\"alerts\":");
        push_u64(&mut out, alert_count as u64);
        push_str(&mut out, ",\"metrics\":");
        push_str(&mut out, self.metrics_json.as_str());
        push_str(&mut out, "}");
        out
    }
}

} // verus!
