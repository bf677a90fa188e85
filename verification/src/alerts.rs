//! Threshold alerts on live metrics and spans, emitted as one-line JSON.
//!
//! Each rule has a name, a severity and a condition; a rule that fires yields
//! `{"alert":"<name>","severity":"<severity>","<measure>":<value>,"<limit>":<threshold>}`.
//! The integer conditions are decided and written here: a p99 latency above a ceiling, a
//! heartbeat gap above a ceiling, too few frames. The heartbeat gap is read back from the
//! metrics snapshot line, the way a log aggregator would read it. The drop-rate condition
//! compares floating-point percentages; its verdict comes in from the caller, and the
//! engine places it in rule order with the others.

use vstd::prelude::*;

use crate::metrics::{percentile_spec, snapshot_spec, MetricsEmitter, MetricsView};
use crate::observability::{max_duration, Span, SpanCollector};
use crate::text::{chars_of, dec, push_str, push_u64, starts_with, starts_with_at, trim, trim_bounds};

verus! {

/// How serious a fired alert is.
#[derive(Clone, Copy, Debug, PartialEq, Eq, Structural)]
pub enum AlertSeverity {
    Warning,
    Critical,
}

/// The severity as it appears in an alert line.
pub open spec fn severity_label(s: AlertSeverity) -> Seq<char> {
    match s {
        AlertSeverity::Warning => "Warning"@,
        AlertSeverity::Critical => "Critical"@,
    }
}

/// One alert line.
pub open spec fn alert_json(
    rule: Seq<char>,
    severity: AlertSeverity,
    measure: Seq<char>,
    value: nat,
    limit: Seq<char>,
    threshold: nat,
) -> Seq<char> {
    "{\"alert\":\""@ + rule + "\",\"severity\":\""@ + severity_label(severity) + "\",\""@ + measure
        + "\":"@ + dec(value) + ",\""@ + limit + "\":"@ + dec(threshold) + "}"@
}

fn alert_line(rule: &str, severity: AlertSeverity, measure: &str, value: u64, limit: &str, threshold: u64) -> (s: String)
    ensures
        s@ == alert_json(rule@, severity, measure@, value as nat, limit@, threshold as nat),
{
    let mut s = String::new();
    push_str(&mut s, "{\"alert\":\"");
    push_str(&mut s, rule);
    push_str(&mut s, "\",\"severity\":\"");
    match severity {
        AlertSeverity::Warning => push_str(&mut s, "Warning"),
        AlertSeverity::Critical => push_str(&mut s, "Critical"),
    }
    push_str(&mut s, "\",\"");
    push_str(&mut s, measure);
    push_str(&mut s, "\":");
    push_u64(&mut s, value);
    push_str(&mut s, ",\"");
    push_str(&mut s, limit);
    push_str(&mut s, "\":");
    push_u64(&mut s, threshold);
    push_str(&mut s, "}");
    assert(s@ =~= alert_json(rule@, severity, measure@, value as nat, limit@, threshold as nat));
    s
}

/// The alert for a p99 latency: the larger of the span p99 and the metrics p99, when it
/// exceeds the threshold.
pub fn p99_alert(
    rule: &str,
    severity: AlertSeverity,
    span_p99_us: u64,
    metrics_p99_us: u64,
    threshold_us: u64,
) -> (r: Option<String>)
    ensures
        ({
            let p = if span_p99_us >= metrics_p99_us { span_p99_us } else { metrics_p99_us };
            match r {
                Some(s) => p > threshold_us && s@ == alert_json(
                    rule@,
                    severity,
                    "p99_us"@,
                    p as nat,
                    "threshold_us"@,
                    threshold_us as nat,
                ),
                None => p <= threshold_us,
            }
        }),
{
    let p = if span_p99_us >= metrics_p99_us {
        span_p99_us
    } else {
        metrics_p99_us
    };
    if p > threshold_us {
        Some(alert_line(rule, severity, "p99_us", p, "threshold_us", threshold_us))
    } else {
        None
    }
}

/// The alert for a frame count below the minimum.
pub fn low_frame_alert(rule: &str, severity: AlertSeverity, frames: u64, minimum: u64) -> (r: Option<String>)
    ensures
        match r {
            Some(s) => frames < minimum && s@ == alert_json(
                rule@,
                severity,
                "frames"@,
                frames as nat,
                "minimum"@,
                minimum as nat,
            ),
            None => frames >= minimum,
        },
{
    if frames < minimum {
        Some(alert_line(rule, severity, "frames", frames, "minimum", minimum))
    } else {
        None
    }
}

/// The key of the heartbeat gap in a metrics snapshot line.
pub open spec fn gap_key() -> Seq<char> {
    seq!['"', 'h', 'b', '_', 'g', 'a', 'p', '_', 'm', 's', '"', ':']
}

/// The first position at or after `from` where `p` occurs in `s`, or `-1`.
pub open spec fn find_from(s: Seq<char>, p: Seq<char>, from: int) -> int
    decreases s.len() + 1 - from,
{
    if from < 0 || from > s.len() || from + p.len() > s.len() {
        -1
    } else if starts_with_at(s, from, s.len() as int, p) {
        from
    } else {
        find_from(s, p, from + 1)
    }
}

/// The first position at or after `from` of `','` or `'}'` in `s[..end]`, or `end`.
pub open spec fn field_end(s: Seq<char>, from: int, end: int) -> int
    decreases end - from,
{
    if from >= end {
        end
    } else if s[from] == ',' || s[from] == '}' {
        from
    } else {
        field_end(s, from + 1, end)
    }
}

/// Whether every character of `d` is an ASCII digit.
pub open spec fn all_digits(d: Seq<char>) -> bool {
    forall|i: int| 0 <= i < d.len() ==> '0' <= #[trigger] d[i] <= '9'
}

/// The decimal value of a run of digits.
pub open spec fn digits_value(d: Seq<char>) -> nat
    decreases d.len(),
{
    if d.len() == 0 {
        0
    } else {
        digits_value(d.drop_last()) * 10 + (d.last() as nat - '0' as nat) as nat
    }
}

/// What `str::parse::<u64>` reads: an optional `+`, then at least one digit, nothing
/// else, and a value that fits.
pub open spec fn parse_u64(t: Seq<char>) -> Option<u64> {
    let d = if t.len() > 0 && t[0] == '+' { t.drop_first() } else { t };
    if d.len() > 0 && all_digits(d) && digits_value(d) <= u64::MAX {
        Some(digits_value(d) as u64)
    } else {
        None
    }
}

/// The heartbeat gap a snapshot line reports: the text after the first `"hb_gap_ms":`, up
/// to the next occurrence of that key, cut at the first `,` or `}`, trimmed and parsed;
/// zero when any step fails.
pub open spec fn gap_of(s: Seq<char>) -> u64 {
    let i = find_from(s, gap_key(), 0);
    if i < 0 {
        0
    } else {
        let start = i + gap_key().len();
        let j = find_from(s, gap_key(), start);
        let end = if j < 0 { s.len() as int } else { j };
        let k = field_end(s, start, end);
        let (a, b) = trim_bounds(s, start, k);
        match parse_u64(s.subrange(a, b)) {
            Some(v) => v,
            None => 0,
        }
    }
}

proof fn lemma_find_from_bounds(s: Seq<char>, p: Seq<char>, from: int)
    ensures
        find_from(s, p, from) == -1 || (from <= find_from(s, p, from) && find_from(s, p, from)
            + p.len() <= s.len()),
    decreases s.len() + 1 - from,
{
    if from >= 0 && from <= s.len() && from + p.len() <= s.len() && !starts_with_at(
        s,
        from,
        s.len() as int,
        p,
    ) {
        lemma_find_from_bounds(s, p, from + 1);
    }
}

proof fn lemma_field_end_bounds(s: Seq<char>, from: int, end: int)
    requires
        from <= end,
    ensures
        from <= field_end(s, from, end) <= end,
    decreases end - from,
{
    if from < end && !(s[from] == ',' || s[from] == '}') {
        lemma_field_end_bounds(s, from + 1, end);
    }
}

fn find(s: &Vec<char>, p: &Vec<char>, from: usize) -> (r: Option<usize>)
    requires
        from <= s@.len(),
        p@.len() > 0,
    ensures
        match r {
            Some(i) => i == find_from(s@, p@, from as int),
            None => find_from(s@, p@, from as int) == -1,
        },
{
    let mut i = from;
    while i <= s.len() && s.len() - i >= p.len()
        invariant
            from <= i,
            p@.len() > 0,
            find_from(s@, p@, from as int) == find_from(s@, p@, i as int),
        decreases s@.len() + 1 - i,
    {
        if starts_with(s, i, s.len(), p.as_slice()) {
            return Some(i);
        }
        i = i + 1;
    }
    None
}

proof fn lemma_digits_value_grows(d: Seq<char>, i: int)
    requires
        0 <= i <= d.len(),
        all_digits(d),
    ensures
        digits_value(d.subrange(0, i)) <= digits_value(d),
    decreases d.len() - i,
{
    if i < d.len() {
        lemma_digits_value_grows(d, i + 1);
        assert(d.subrange(0, i + 1).drop_last() =~= d.subrange(0, i));
        assert(d.subrange(0, i + 1).last() == d[i]);
    } else {
        assert(d.subrange(0, i) =~= d);
    }
}

/// Parses `t[a..b]` as `str::parse::<u64>` does, zero on failure.
fn parse_or_zero(t: &Vec<char>, a: usize, b: usize) -> (v: u64)
    requires
        a <= b <= t@.len(),
    ensures
        v == match parse_u64(t@.subrange(a as int, b as int)) {
            Some(x) => x,
            None => 0,
        },
{
    let ghost whole = t@.subrange(a as int, b as int);
    let mut i = a;
    if i < b && t[i] == '+' {
        i = i + 1;
    }
    let ghost d = t@.subrange(i as int, b as int);
    proof {
        if whole.len() > 0 && whole[0] == '+' {
            assert(d =~= whole.drop_first());
        } else {
            assert(d =~= whole);
        }
    }
    if i == b {
        return 0;
    }
    let start = i;
    let mut acc: u64 = 0;
    while i < b
        invariant
            a <= start <= i <= b <= t@.len(),
            d == t@.subrange(start as int, b as int),
            d.len() > 0,
            whole == t@.subrange(a as int, b as int),
            d == (if whole.len() > 0 && whole[0] == '+' { whole.drop_first() } else { whole }),
            all_digits(t@.subrange(start as int, i as int)),
            acc == digits_value(t@.subrange(start as int, i as int)),
        decreases b - i,
    {
        let c = t[i];
        assert(t@.subrange(start as int, i + 1).drop_last() =~= t@.subrange(start as int, i as int));
        if !('0' <= c && c <= '9') {
            assert(d[i - start] == c);
            return 0;
        }
        let digit = (c as u32 - '0' as u32) as u64;
        proof {
            assert(t@.subrange(start as int, i + 1).last() == c);
        }
        let grown = match acc.checked_mul(10) {
            Some(m) => m.checked_add(digit),
            None => None,
        };
        match grown {
            Some(g) => {
                acc = g;
            },
            None => {
                proof {
                    assert(all_digits(t@.subrange(start as int, i + 1)));
                    if all_digits(d) {
                        assert(d.subrange(0, i + 1 - start) =~= t@.subrange(start as int, i + 1));
                        lemma_digits_value_grows(d, i + 1 - start);
                    }
                }
                return 0;
            },
        }
        i = i + 1;
    }
    assert(t@.subrange(start as int, b as int) =~= d);
    acc
}

/// The heartbeat gap (ms) that a metrics snapshot line reports (see [`gap_of`]).
pub fn hb_gap_ms_of(snapshot: &str) -> (v: u64)
    ensures
        v == gap_of(snapshot@),
{
    let s = chars_of(snapshot);
    let n = s.len();
    let key: Vec<char> = vec!['"', 'h', 'b', '_', 'g', 'a', 'p', '_', 'm', 's', '"', ':'];
    assert(key@ =~= gap_key());
    let i = match find(&s, &key, 0) {
        Some(i) => i,
        None => {
            return 0;
        },
    };
    proof {
        lemma_find_from_bounds(s@, gap_key(), 0);
        assert(i as int == find_from(s@, gap_key(), 0));
        assert(i + gap_key().len() <= s@.len());
        assert(gap_key().len() == 12);
    }
    let start = i + 12;
    let end = match find(&s, &key, start) {
        Some(j) => j,
        None => n,
    };
    proof {
        lemma_find_from_bounds(s@, gap_key(), start as int);
    }
    let mut k = start;
    while k < end && s[k] != ',' && s[k] != '}'
        invariant
            start <= k <= end <= s@.len(),
            field_end(s@, start as int, end as int) == field_end(s@, k as int, end as int),
        decreases end - k,
    {
        k = k + 1;
    }
    let (a, b) = trim(&s, start, k);
    parse_or_zero(&s, a, b)
}

/// The alert for a heartbeat gap above the threshold, the gap read from a metrics
/// snapshot line.
pub fn heartbeat_gap_alert(rule: &str, severity: AlertSeverity, snapshot: &str, threshold_ms: u64) -> (r:
    Option<String>)
    ensures
        ({
            let gap = gap_of(snapshot@);
            match r {
                Some(s) => gap > threshold_ms && s@ == alert_json(
                    rule@,
                    severity,
                    "hb_gap_ms"@,
                    gap as nat,
                    "threshold_ms"@,
                    threshold_ms as nat,
                ),
                None => gap <= threshold_ms,
            }
        }),
{
    let gap = hb_gap_ms_of(snapshot);
    if gap > threshold_ms {
        Some(alert_line(rule, severity, "hb_gap_ms", gap, "threshold_ms", threshold_ms))
    } else {
        None
    }
}

/// The lines of the rules that fired, in rule order.
pub open spec fn fired_lines(verdicts: Seq<Option<Seq<char>>>) -> Seq<Seq<char>>
    decreases verdicts.len(),
{
    if verdicts.len() == 0 {
        Seq::empty()
    } else {
        let rest = fired_lines(verdicts.drop_last());
        match verdicts.last() {
            Some(line) => rest.push(line),
            None => rest,
        }
    }
}

/// The verdicts of a rule list as plain values.
pub open spec fn verdict_views(v: Seq<Option<String>>) -> Seq<Option<Seq<char>>> {
    v.map_values(
        |o: Option<String>|
            match o {
                Some(s) => Some(s@),
                None => None,
            },
    )
}

/// One evaluation: the verdict of each rule, in the rule list's order, gives the alerts
/// fired, in that order, one per rule that fired.
pub fn fired_alerts(verdicts: &Vec<Option<String>>) -> (fired: Vec<String>)
    ensures
        fired@.map_values(|s: String| s@) == fired_lines(verdict_views(verdicts@)),
{
    let ghost vv = verdict_views(verdicts@);
    let mut fired: Vec<String> = Vec::new();
    let mut i: usize = 0;
    while i < verdicts.len()
        invariant
            i <= verdicts@.len(),
            vv == verdict_views(verdicts@),
            fired@.map_values(|s: String| s@) == fired_lines(vv.take(i as int)),
        decreases verdicts@.len() - i,
    {
        let ghost before = fired@;
        assert(vv.take(i + 1).drop_last() =~= vv.take(i as int));
        match &verdicts[i] {
            Some(line) => {
                fired.push(line.clone());
                assert(fired@.map_values(|s: String| s@) =~= before.map_values(|s: String| s@).push(
                    line@,
                ));
            },
            None => {},
        }
        i = i + 1;
    }
    assert(vv.take(verdicts@.len() as int) =~= vv);
    fired
}

/// What a rule watches.
#[derive(Clone, Copy, Debug)]
pub enum AlertCondition {
    /// The p99 latency of the named span (or of the metrics, whichever is larger) above the
    /// threshold (µs).
    P99ExceedsUs { span_name: &'static str, threshold_us: u64 },
    /// The frame drop rate above the threshold, a percentage held as the bit pattern of an
    /// `f32`. This measure is a float: its verdict is computed outside and handed in.
    DropRatePct { threshold_pct_bits: u32 },
    /// The heartbeat gap above the threshold (ms).
    HeartbeatGapMs { threshold_ms: u64 },
    /// Fewer frames than the minimum.
    LowFrameCount { minimum: u64 },
}

/// A named alert rule.
#[derive(Clone, Copy, Debug)]
pub struct AlertRule {
    pub name: &'static str,
    pub severity: AlertSeverity,
    pub condition: AlertCondition,
}

/// The verdict of one rule: the alert line when it fires. `drop_line` is the verdict of a
/// drop-rate rule, decided outside; the other rules ignore it.
pub open spec fn rule_verdict(
    rule: AlertRule,
    m: MetricsView,
    spans: Seq<Span>,
    snapshot: Seq<char>,
    drop_line: Option<Seq<char>>,
) -> Option<Seq<char>> {
    match rule.condition {
        AlertCondition::P99ExceedsUs { span_name, threshold_us } => {
            let sp = max_duration(spans, span_name@) as nat;
            let mp = percentile_spec(m.buckets, 99);
            let p = if sp >= mp { sp } else { mp };
            if p > threshold_us {
                Some(alert_json(rule.name@, rule.severity, "p99_us"@, p, "threshold_us"@, threshold_us as nat))
            } else {
                None
            }
        },
        AlertCondition::DropRatePct { .. } => drop_line,
        AlertCondition::HeartbeatGapMs { threshold_ms } => {
            let gap = gap_of(snapshot);
            if gap > threshold_ms {
                Some(alert_json(rule.name@, rule.severity, "hb_gap_ms"@, gap as nat, "threshold_ms"@, threshold_ms as nat))
            } else {
                None
            }
        },
        AlertCondition::LowFrameCount { minimum } => {
            if m.frames < minimum {
                Some(alert_json(rule.name@, rule.severity, "frames"@, m.frames as nat, "minimum"@, minimum as nat))
            } else {
                None
            }
        },
    }
}

/// The alert lines of one evaluation: one per rule that fires, in rule order.
pub open spec fn evaluation(
    rules: Seq<AlertRule>,
    m: MetricsView,
    spans: Seq<Span>,
    snapshot: Seq<char>,
    drop_lines: Seq<Option<Seq<char>>>,
) -> Seq<Seq<char>> {
    fired_lines(Seq::new(rules.len(), |i: int| rule_verdict(rules[i], m, spans, snapshot, drop_lines[i])))
}

/// Whether some rule reads the heartbeat gap, and so needs a metrics snapshot line.
pub open spec fn reads_heartbeat(rules: Seq<AlertRule>) -> bool {
    exists|i: int| 0 <= i < rules.len() && #[trigger] rules[i].condition is HeartbeatGapMs
}

/// What an [`AlertEngine`] holds: its rules and the alert lines of the last evaluation.
pub struct AlertEngineView {
    pub rules: Seq<AlertRule>,
    pub fired: Seq<Seq<char>>,
}

/// Evaluates alert rules against live metrics and spans, and keeps the last alerts fired.
pub struct AlertEngine {
    rules: Vec<AlertRule>,
    fired: Vec<String>,
}

impl View for AlertEngine {
    type V = AlertEngineView;

    closed spec fn view(&self) -> AlertEngineView {
        AlertEngineView { rules: self.rules@, fired: self.fired@.map_values(|s: String| s@) }
    }
}

impl AlertEngine {
    /// An engine over `rules` that has fired nothing yet.
    pub fn new(rules: Vec<AlertRule>) -> (e: Self)
        ensures
            e@.rules == rules@,
            e@.fired.len() == 0,
    {
        let e = AlertEngine { rules, fired: Vec::new() };
        assert(e@.fired =~= Seq::<Seq<char>>::empty());
        e
    }

    /// The standard rules: p99 of `hal.send_frame` above 50 ms (critical), drops above 1 %
    /// (warning), heartbeat gap above 2 s (critical).
    pub fn lumyx_standard() -> (e: Self)
        ensures
            e@.fired.len() == 0,
            e@.rules == seq![
                AlertRule {
                    name: "hal-latency-p99",
                    severity: AlertSeverity::Critical,
                    condition: AlertCondition::P99ExceedsUs { span_name: "hal.send_frame", threshold_us: 50_000 },
                },
                AlertRule {
                    name: "frame-drop-rate",
                    severity: AlertSeverity::Warning,
                    condition: AlertCondition::DropRatePct { threshold_pct_bits: 0x3f80_0000 },
                },
                AlertRule {
                    name: "heartbeat-gap",
                    severity: AlertSeverity::Critical,
                    condition: AlertCondition::HeartbeatGapMs { threshold_ms: 2_000 },
                },
            ],
    {
        let mut rules: Vec<AlertRule> = Vec::new();
        rules.push(
            AlertRule {
                name: "hal-latency-p99",
                severity: AlertSeverity::Critical,
                condition: AlertCondition::P99ExceedsUs { span_name: "hal.send_frame", threshold_us: 50_000 },
            },
        );
        rules.push(
            AlertRule {
                name: "frame-drop-rate",
                severity: AlertSeverity::Warning,
                condition: AlertCondition::DropRatePct { threshold_pct_bits: 0x3f80_0000 },
            },
        );
        rules.push(
            AlertRule {
                name: "heartbeat-gap",
                severity: AlertSeverity::Critical,
                condition: AlertCondition::HeartbeatGapMs { threshold_ms: 2_000 },
            },
        );
        Self::new(rules)
    }

    /// The rules, in evaluation order.
    pub fn rules(&self) -> (r: &Vec<AlertRule>)
        ensures
            r@ == self@.rules,
    {
        &self.rules
    }

    /// Evaluates every rule against `metrics`, `spans` and the metrics snapshot line
    /// `snapshot`, with `drop_verdicts[i]` the verdict of rule `i` when it is a drop-rate rule;
    /// returns the fired alerts (see [`evaluation`]) and keeps them as the last alerts.
    pub fn evaluate_at(
        &mut self,
        metrics: &MetricsEmitter,
        spans: &SpanCollector,
        snapshot: &str,
        drop_verdicts: &Vec<Option<String>>,
    ) -> (fired: Vec<String>)
        requires
            metrics.wf(),
            drop_verdicts@.len() == old(self)@.rules.len(),
        ensures
            fired@.map_values(|s: String| s@) == evaluation(
                old(self)@.rules,
                metrics@,
                spans@.spans,
                snapshot@,
                verdict_views(drop_verdicts@),
            ),
            final(self)@ == (AlertEngineView {
                rules: old(self)@.rules,
                fired: fired@.map_values(|s: String| s@),
            }),
    {
        let ghost dv = verdict_views(drop_verdicts@);
        let ghost target = Seq::new(
            self.rules@.len(),
            |i: int| rule_verdict(self.rules@[i], metrics@, spans@.spans, snapshot@, dv[i]),
        );
        let frames = metrics.frame_count();
        let mut verdicts: Vec<Option<String>> = Vec::new();
        let mut i: usize = 0;
        while i < self.rules.len()
            invariant
                i <= self.rules@.len(),
                metrics.wf(),
                drop_verdicts@.len() == self.rules@.len(),
                dv == verdict_views(drop_verdicts@),
                frames == metrics@.frames,
                target == Seq::new(
                    self.rules@.len(),
                    |i: int| rule_verdict(self.rules@[i], metrics@, spans@.spans, snapshot@, dv[i]),
                ),
                verdict_views(verdicts@) == target.take(i as int),
            decreases self.rules@.len() - i,
        {
            let rule = self.rules[i];
            let v = match rule.condition {
                AlertCondition::P99ExceedsUs { span_name, threshold_us } => p99_alert(
                    rule.name,
                    rule.severity,
                    spans.p99_us(span_name),
                    metrics.p99_us(),
                    threshold_us,
                ),
                AlertCondition::DropRatePct { .. } => match &drop_verdicts[i] {
                    Some(line) => Some(line.clone()),
                    None => None,
                },
                AlertCondition::HeartbeatGapMs { threshold_ms } => heartbeat_gap_alert(
                    rule.name,
                    rule.severity,
                    snapshot,
                    threshold_ms,
                ),
                AlertCondition::LowFrameCount { minimum } => low_frame_alert(
                    rule.name,
                    rule.severity,
                    frames,
                    minimum,
                ),
            };
            let ghost before = verdicts@;
            verdicts.push(v);
            proof {
                assert(verdicts@ == before.push(v));
                assert(verdict_views(verdicts@) =~= verdict_views(before).push(target[i as int]));
                assert(target.take(i + 1) =~= target.take(i as int).push(target[i as int]));
            }
            i = i + 1;
        }
        assert(target.take(self.rules@.len() as int) =~= target);
        let fired = fired_alerts(&verdicts);
        let kept = fired.clone();
        proof {
            assert(kept@ =~= fired@);
        }
        self.fired = kept;
        fired
    }

    /// Evaluates every rule now: reads the metrics snapshot line when some rule reads the
    /// heartbeat gap, then as [`Self::evaluate_at`]. The snapshot depends on the time of the
    /// call only through its `elapsed_ms` field.
    pub fn evaluate(
        &mut self,
        metrics: &MetricsEmitter,
        spans: &SpanCollector,
        drop_verdicts: &Vec<Option<String>>,
    ) -> (fired: Vec<String>)
        requires
            metrics.wf(),
            drop_verdicts@.len() == old(self)@.rules.len(),
            reads_heartbeat(old(self)@.rules) ==> metrics@.frames * 1000 <= u64::MAX
                && metrics@.beats * 100 <= u64::MAX,
        ensures
            exists|e: u64|
                fired@.map_values(|s: String| s@) == evaluation(
                    old(self)@.rules,
                    metrics@,
                    spans@.spans,
                    #[trigger] snapshot_spec(metrics@, e),
                    verdict_views(drop_verdicts@),
                ),
            final(self)@ == (AlertEngineView {
                rules: old(self)@.rules,
                fired: fired@.map_values(|s: String| s@),
            }),
    {
        let mut needed = false;
        let mut i: usize = 0;
        while i < self.rules.len()
            invariant
                i <= self.rules@.len(),
                needed <==> exists|j: int| 0 <= j < i && #[trigger] self.rules@[j].condition is HeartbeatGapMs,
            decreases self.rules@.len() - i,
        {
            if let AlertCondition::HeartbeatGapMs { .. } = self.rules[i].condition {
                needed = true;
            }
            i = i + 1;
        }
        if needed {
            let snapshot = metrics.snapshot_json();
            let ghost e = choose|e: u64| snapshot@ == snapshot_spec(metrics@, e);
            let fired = self.evaluate_at(metrics, spans, snapshot.as_str(), drop_verdicts);
            assert(fired@.map_values(|s: String| s@) == evaluation(
                old(self)@.rules,
                metrics@,
                spans@.spans,
                snapshot_spec(metrics@, e),
                verdict_views(drop_verdicts@),
            ));
            fired
        } else {
            let fired = self.evaluate_at(metrics, spans, "", drop_verdicts);
            proof {
                let ghost r = old(self)@.rules;
                let ghost dv = verdict_views(drop_verdicts@);
                let ghost a = Seq::new(r.len(), |i: int| rule_verdict(r[i], metrics@, spans@.spans, ""@, dv[i]));
                let ghost b = Seq::new(r.len(), |i: int| rule_verdict(r[i], metrics@, spans@.spans, snapshot_spec(metrics@, 0), dv[i]));
                assert forall|i: int| 0 <= i < r.len() implies a[i] == b[i] by {
                    assert(!(r[i].condition is HeartbeatGapMs));
                }
                assert(a =~= b);
            }
            fired
        }
    }

    /// The alerts fired by the last evaluation.
    pub fn last_alerts(&self) -> (r: Vec<String>)
        ensures
            r@.map_values(|s: String| s@) == self@.fired,
    {
        let r = self.fired.clone();
        assert(r@ =~= self.fired@);
        r
    }
}

} // verus!
