//! The three analytics that consume telemetry batches: anomaly detection
//! over traces and metrics, trace correlation with a time window, and
//! topology discovery. All state they keep is modelled exactly, and the
//! detection rules are stated as spec functions the contracts share.
use vstd::prelude::*;

use crate::config::{AnomalyDetectionConfig, TopologyDiscoveryConfig, TraceCorrelationConfig};
use crate::host::{fresh_id, now_millis};
use crate::telemetry::{
    Alert, AlertModel, AlertSeverity, AttrMap, Metric, MetricModel, Span, SpanModel, SpanStatus,
    metrics_model, spans_model, spans_wf,
};
use crate::text::{
    dec_digits, push_decimal, push_signed_hundredths, push_signed_milli, push_tenths,
    signed_hundredths_chars, signed_milli_chars, tenths_chars,
};

verus! {

// ---------------------------------------------------------------------------
// Sums over batches
// ---------------------------------------------------------------------------

/// The sum of `f` over the elements of `s`.
pub open spec fn sum_by<A>(s: Seq<A>, f: spec_fn(A) -> int) -> int {
    s.fold_left(0, |acc: int, x: A| acc + f(x))
}

/// Extending the summed prefix by one element adds that element's weight.
pub proof fn lemma_sum_by_step<A>(s: Seq<A>, f: spec_fn(A) -> int, i: int)
    requires
        0 <= i < s.len(),
    ensures
        sum_by(s.take(i + 1), f) == sum_by(s.take(i), f) + f(s[i]),
{
    assert(s.take(i + 1).drop_last() =~= s.take(i));
    assert(s.take(i + 1).last() == s[i]);
}

/// Elementwise bounds on the weights bound the sum.
pub proof fn lemma_sum_by_bounds<A>(s: Seq<A>, f: spec_fn(A) -> int, lo: int, hi: int)
    requires
        forall|i: int| 0 <= i < s.len() ==> lo <= #[trigger] f(s[i]) <= hi,
    ensures
        s.len() * lo <= sum_by(s, f) <= s.len() * hi,
    decreases s.len(),
{
    if s.len() == 0 {
    } else {
        let d = s.drop_last();
        assert(forall|i: int| 0 <= i < d.len() ==> lo <= #[trigger] f(d[i]) <= hi) by {
            assert(forall|i: int| 0 <= i < d.len() ==> d[i] == s[i]);
        }
        lemma_sum_by_bounds(d, f, lo, hi);
        assert(lo <= f(s[s.len() - 1]) <= hi);
        assert((s.len() - 1) * lo + lo == s.len() * lo) by (nonlinear_arith);
        assert((s.len() - 1) * hi + hi == s.len() * hi) by (nonlinear_arith);
    }
}

// ---------------------------------------------------------------------------
// Keyed entry sequences
// ---------------------------------------------------------------------------

/// First value bound to `k` among the keyed entries of `s`, scanning left
/// to right.
pub open spec fn pair_find<V>(s: Seq<(String, V)>, k: Seq<char>) -> Option<V>
    decreases s.len(),
{
    if s.len() == 0 {
        None
    } else if s[0].0@ == k {
        Some(s[0].1)
    } else {
        pair_find(s.drop_first(), k)
    }
}

/// No entry carries `k` at or before position `i`, so the scan may start
/// at `i`.
proof fn lemma_pair_find_skip<V>(s: Seq<(String, V)>, k: Seq<char>, i: int)
    requires
        0 <= i <= s.len(),
        forall|j: int| #![trigger s[j]] 0 <= j < i ==> s[j].0@ != k,
    ensures
        pair_find(s, k) == pair_find(s.skip(i), k),
    decreases i,
{
    if i > 0 {
        assert(s[0].0@ != k);
        lemma_pair_find_skip(s.drop_first(), k, i - 1);
        assert(s.drop_first().skip(i - 1) =~= s.skip(i));
    } else {
        assert(s.skip(0) =~= s);
    }
}

/// When no entry at all carries `k`, the scan finds nothing.
proof fn lemma_pair_find_absent<V>(s: Seq<(String, V)>, k: Seq<char>)
    requires
        forall|j: int| #![trigger s[j]] 0 <= j < s.len() ==> s[j].0@ != k,
    ensures
        pair_find(s, k) is None,
{
    lemma_pair_find_skip(s, k, s.len() as int);
    assert(s.skip(s.len() as int) =~= Seq::<(String, V)>::empty());
}

/// An entry that carries `k` makes the scan find something.
proof fn lemma_pair_find_present<V>(s: Seq<(String, V)>, k: Seq<char>, j: int)
    requires
        0 <= j < s.len(),
        s[j].0@ == k,
    ensures
        pair_find(s, k) is Some,
    decreases s.len(),
{
    if s[0].0@ != k {
        assert(s.drop_first()[j - 1] == s[j]);
        lemma_pair_find_present(s.drop_first(), k, j - 1);
    }
}

/// The scan lands on position `i` when it is the first to carry `k`.
proof fn lemma_pair_find_first<V>(s: Seq<(String, V)>, k: Seq<char>, i: int)
    requires
        0 <= i < s.len(),
        s[i].0@ == k,
        forall|j: int| #![trigger s[j]] 0 <= j < i ==> s[j].0@ != k,
    ensures
        pair_find(s, k) == Some(s[i].1),
{
    lemma_pair_find_skip(s, k, i);
    assert(s.skip(i)[0] == s[i]);
}

/// Scans for keys other than `k` agree when the two runs differ only in
/// entries keyed `k`.
proof fn lemma_pair_find_agree_except<V>(
    pre: Seq<(String, V)>,
    post: Seq<(String, V)>,
    k: Seq<char>,
    q: Seq<char>,
    from: int,
)
    requires
        post.len() >= pre.len(),
        forall|j: int| #![trigger post[j]] pre.len() <= j < post.len() ==> post[j].0@ == k,
        forall|j: int| #![trigger post[j]] 0 <= j < pre.len() ==> post[j] == pre[j] || (post[j].0@
            == k && pre[j].0@ == k),
        q != k,
        0 <= from <= pre.len(),
    ensures
        pair_find(post.skip(from), q) == pair_find(pre.skip(from), q),
    decreases post.len() - from,
{
    if from < pre.len() {
        assert(pre.skip(from)[0] == pre[from]);
        assert(post.skip(from)[0] == post[from]);
        assert(pre.skip(from).drop_first() =~= pre.skip(from + 1));
        assert(post.skip(from).drop_first() =~= post.skip(from + 1));
        lemma_pair_find_agree_except(pre, post, k, q, from + 1);
    } else {
        assert(pre.skip(from) =~= Seq::<(String, V)>::empty());
        lemma_pair_find_only_k(post, k, q, from);
    }
}

proof fn lemma_pair_find_only_k<V>(post: Seq<(String, V)>, k: Seq<char>, q: Seq<char>, from: int)
    requires
        forall|j: int| #![trigger post[j]] from <= j < post.len() ==> post[j].0@ == k,
        q != k,
        0 <= from <= post.len(),
    ensures
        pair_find(post.skip(from), q) is None,
    decreases post.len() - from,
{
    if from < post.len() {
        assert(post.skip(from)[0] == post[from]);
        assert(post.skip(from).drop_first() =~= post.skip(from + 1));
        lemma_pair_find_only_k(post, k, q, from + 1);
    } else {
        assert(post.skip(from) =~= Seq::<(String, V)>::empty());
    }
}

/// Pairwise distinct keys.
pub open spec fn unique_keys<V>(s: Seq<(String, V)>) -> bool {
    forall|i: int, j: int| #![trigger s[i], s[j]] 0 <= i < j < s.len() ==> s[i].0@ != s[j].0@
}

// ---------------------------------------------------------------------------
// Trace rules
// ---------------------------------------------------------------------------

/// Weight 1 for failed spans, 0 otherwise.
pub open spec fn error_weight(x: SpanModel) -> int {
    if x.is_error() {
        1
    } else {
        0
    }
}

/// How many spans of the batch failed.
pub open spec fn error_count(s: Seq<SpanModel>) -> int {
    sum_by(s, |x: SpanModel| error_weight(x))
}

/// Total nanoseconds spent across the batch.
pub open spec fn total_latency(s: Seq<SpanModel>) -> int {
    sum_by(s, |x: SpanModel| x.latency())
}

/// More than a tenth of the batch failed. Empty batches carry no signal.
pub open spec fn high_error_rate(s: Seq<SpanModel>) -> bool {
    s.len() > 0 && 10 * error_count(s) > s.len()
}

/// Mean latency above one second. Empty batches carry no signal.
pub open spec fn high_latency(s: Seq<SpanModel>) -> bool {
    s.len() > 0 && total_latency(s) > 1_000_000_000 * s.len()
}

/// What the trace rules say about a batch, in their fixed order of
/// precedence: the error-rate rule first, then the latency rule.
pub ghost enum TraceSignal {
    ErrorRate,
    Latency,
    Quiet,
}

pub open spec fn trace_signal(s: Seq<SpanModel>) -> TraceSignal {
    if high_error_rate(s) {
        TraceSignal::ErrorRate
    } else if high_latency(s) {
        TraceSignal::Latency
    } else {
        TraceSignal::Quiet
    }
}

/// The error rate of the batch in tenths of a percent, rounded down.
pub open spec fn rate_tenths(s: Seq<SpanModel>) -> int {
    1000 * error_count(s) / s.len() as int
}

/// The mean latency of the batch in whole milliseconds, rounded down.
pub open spec fn mean_latency_ms(s: Seq<SpanModel>) -> int {
    total_latency(s) / (s.len() as int * 1_000_000)
}

pub open spec fn error_rate_message(s: Seq<SpanModel>) -> Seq<char> {
    "Error rate is "@ + tenths_chars(rate_tenths(s) as nat) + "%"@
}

pub open spec fn latency_message(s: Seq<SpanModel>) -> Seq<char> {
    "Average latency is "@ + dec_digits(mean_latency_ms(s) as nat) + "ms"@
}

/// The alert the error-rate rule owes a batch: critical, named for the rule,
/// with the rate in the message, no labels, and a fresh 36-character id.
pub open spec fn is_error_rate_alert(a: AlertModel, s: Seq<SpanModel>) -> bool {
    &&& a.name == "High Error Rate"@
    &&& a.severity == AlertSeverity::Critical
    &&& a.message == error_rate_message(s)
    &&& a.labels == Map::<Seq<char>, Seq<char>>::empty()
    &&& a.id.len() == 36
}

/// The alert the latency rule owes a batch.
pub open spec fn is_latency_alert(a: AlertModel, s: Seq<SpanModel>) -> bool {
    &&& a.name == "High Latency"@
    &&& a.severity == AlertSeverity::Warning
    &&& a.message == latency_message(s)
    &&& a.labels == Map::<Seq<char>, Seq<char>>::empty()
    &&& a.id.len() == 36
}

/// On a non-empty batch whose failures exceed a tenth of its spans, the
/// error-rate rule fires, and it alone: the latency rule never speaks for
/// the same batch.
pub proof fn lemma_error_rate_takes_precedence(s: Seq<SpanModel>)
    requires
        s.len() > 0,
        10 * error_count(s) > s.len(),
    ensures
        trace_signal(s) == TraceSignal::ErrorRate,
        trace_signal(s) != TraceSignal::Latency,
{
}

/// On a non-empty batch within the error budget but with mean latency above
/// one second, exactly the latency rule fires.
pub proof fn lemma_latency_signal(s: Seq<SpanModel>)
    requires
        s.len() > 0,
        10 * error_count(s) <= s.len(),
        total_latency(s) > 1_000_000_000 * s.len(),
    ensures
        trace_signal(s) == TraceSignal::Latency,
{
}

/// A batch within the error budget whose mean latency stays within one
/// second raises nothing; the empty batch in particular is quiet.
pub proof fn lemma_quiet_signal(s: Seq<SpanModel>)
    requires
        10 * error_count(s) <= s.len(),
        total_latency(s) <= 1_000_000_000 * s.len(),
    ensures
        trace_signal(s) == TraceSignal::Quiet,
{
}

// ---------------------------------------------------------------------------
// Metric rules
// ---------------------------------------------------------------------------

/// The statistical reference a metric is scored against: running mean and
/// standard deviation in fixed-point thousandths, and the sample count
/// behind them. Baselines are seeded externally (see `set_baseline`); the
/// detector only reads them.
#[derive(Debug, Clone, Copy, PartialEq, Eq, Structural)]
pub struct MetricBaseline {
    pub mean_milli: i64,
    pub std_dev_milli: i64,
    pub count: u64,
}

/// A metric deviates by more than three standard deviations from its
/// baseline. A zero or negative deviation scale carries no signal.
pub open spec fn metric_anomalous(m: MetricModel, b: MetricBaseline) -> bool {
    &&& b.std_dev_milli > 0
    &&& abs_of(m.value_milli - b.mean_milli) > 3 * b.std_dev_milli
}

pub open spec fn abs_of(v: int) -> int {
    if v < 0 {
        -v
    } else {
        v
    }
}

/// The metric has a baseline and scores as anomalous against it.
pub open spec fn metric_qualifies(bs: Map<Seq<char>, MetricBaseline>, m: MetricModel) -> bool {
    bs.contains_key(m.name) && metric_anomalous(m, bs[m.name])
}

/// The position of the first qualifying metric, or the length of the batch
/// when none qualifies.
pub open spec fn first_anomaly(bs: Map<Seq<char>, MetricBaseline>, ms: Seq<MetricModel>) -> int
    decreases ms.len(),
{
    if ms.len() == 0 {
        0
    } else if metric_qualifies(bs, ms[0]) {
        0
    } else {
        1 + first_anomaly(bs, ms.drop_first())
    }
}

/// `first_anomaly` names exactly the first qualifying position: a metric
/// that qualifies, before which none does, is the one reported.
pub proof fn lemma_first_anomaly_is(
    bs: Map<Seq<char>, MetricBaseline>,
    ms: Seq<MetricModel>,
    i: int,
)
    requires
        0 <= i < ms.len(),
        metric_qualifies(bs, ms[i]),
        forall|j: int| 0 <= j < i ==> !metric_qualifies(bs, #[trigger] ms[j]),
    ensures
        first_anomaly(bs, ms) == i,
    decreases i,
{
    if i == 0 {
    } else {
        assert(!metric_qualifies(bs, ms[0]));
        let d = ms.drop_first();
        assert(forall|j: int| 0 <= j < i - 1 ==> !metric_qualifies(bs, #[trigger] d[j])) by {
            assert(forall|j: int| 0 <= j < d.len() ==> #[trigger] d[j] == ms[j + 1]);
        }
        assert(d[i - 1] == ms[i]);
        lemma_first_anomaly_is(bs, d, i - 1);
    }
}

/// When no metric of the batch qualifies, `first_anomaly` passes the end.
pub proof fn lemma_first_anomaly_none(bs: Map<Seq<char>, MetricBaseline>, ms: Seq<MetricModel>)
    requires
        forall|j: int| 0 <= j < ms.len() ==> !metric_qualifies(bs, #[trigger] ms[j]),
    ensures
        first_anomaly(bs, ms) == ms.len(),
    decreases ms.len(),
{
    if ms.len() > 0 {
        let d = ms.drop_first();
        assert(forall|j: int| 0 <= j < d.len() ==> !metric_qualifies(bs, #[trigger] d[j])) by {
            assert(forall|j: int| 0 <= j < d.len() ==> #[trigger] d[j] == ms[j + 1]);
        }
        lemma_first_anomaly_none(bs, d);
    }
}

pub open spec fn anomaly_alert_name(m: MetricModel) -> Seq<char> {
    "Anomaly in "@ + m.name
}

pub open spec fn anomaly_message(m: MetricModel, b: MetricBaseline) -> Seq<char> {
    "Value "@ + signed_milli_chars(m.value_milli < 0, abs_of(m.value_milli) as nat)
        + " deviates significantly from baseline (z-score: "@ + signed_hundredths_chars(
        m.value_milli - b.mean_milli < 0,
        (100 * abs_of(m.value_milli - b.mean_milli) / (b.std_dev_milli as int)) as nat,
    ) + ")"@
}

/// The alert owed to the first anomalous metric: a warning named for the
/// metric, carrying its labels, the z-score in hundredths in the message,
/// and a fresh 36-character id.
pub open spec fn is_anomaly_alert(a: AlertModel, m: MetricModel, b: MetricBaseline) -> bool {
    &&& a.name == anomaly_alert_name(m)
    &&& a.severity == AlertSeverity::Warning
    &&& a.message == anomaly_message(m, b)
    &&& a.labels == m.labels
    &&& a.id.len() == 36
}

// ---------------------------------------------------------------------------
// The detector
// ---------------------------------------------------------------------------

/// Stateless rule evaluation over a batch plus externally seeded metric
/// baselines: zero or one alert per batch per rule family.
pub struct AnomalyDetector {
    config: AnomalyDetectionConfig,
    baselines: Vec<(String, MetricBaseline)>,
}

impl AnomalyDetector {
    /// The baselines as a map from metric name to reference statistics.
    pub closed spec fn baselines(&self) -> Map<Seq<char>, MetricBaseline> {
        Map::new(
            |k: Seq<char>| pair_find(self.baselines@, k) is Some,
            |k: Seq<char>| pair_find(self.baselines@, k)->Some_0,
        )
    }

    pub fn new(config: &AnomalyDetectionConfig) -> (d: AnomalyDetector)
        ensures
            d.baselines() == Map::<Seq<char>, MetricBaseline>::empty(),
    {
        let d = AnomalyDetector { config: config.clone(), baselines: Vec::new() };
        proof {
            assert(d.baselines() =~= Map::<Seq<char>, MetricBaseline>::empty());
        }
        d
    }

    /// Seeds or replaces the baseline for one metric name. The detector has
    /// no learning path of its own: references come from outside.
    pub fn set_baseline(&mut self, name: String, baseline: MetricBaseline)
        ensures
            final(self).baselines() == old(self).baselines().insert(name@, baseline),
            final(self).config_unchanged_from(*old(self)),
    {
        let ghost pre = self.baselines@;
        let ghost kv = name@;
        let n = self.baselines.len();
        let mut i: usize = 0;
        while i < n
            invariant
                n == self.baselines@.len(),
                i <= n,
                self.baselines@ == pre,
                pre == old(self).baselines@,
                kv == name@,
                self.config == old(self).config,
                forall|j: int| #![trigger self.baselines@[j]] 0 <= j < i ==> self.baselines@[j].0@
                    != kv,
            decreases n - i,
        {
            if crate::telemetry::str_eq(self.baselines[i].0.as_str(), name.as_str()) {
                self.baselines[i] = (name, baseline);
                proof {
                    lemma_pair_find_first(self.baselines@, kv, i as int);
                    assert(pair_find(self.baselines@, kv) == Some(baseline));
                    assert forall|q: Seq<char>| q != kv implies #[trigger] pair_find(
                        self.baselines@,
                        q,
                    ) == pair_find(pre, q) by {
                        lemma_pair_find_agree_except(pre, self.baselines@, kv, q, 0);
                        assert(self.baselines@.skip(0) =~= self.baselines@);
                        assert(pre.skip(0) =~= pre);
                    }
                    assert(self.baselines() =~= old(self).baselines().insert(kv, baseline));
                }
                return ;
            }
            i += 1;
        }
        self.baselines.push((name, baseline));
        proof {
            lemma_pair_find_first(self.baselines@, kv, n as int);
            assert(pair_find(self.baselines@, kv) == Some(baseline));
            assert forall|q: Seq<char>| q != kv implies #[trigger] pair_find(self.baselines@, q)
                == pair_find(pre, q) by {
                lemma_pair_find_agree_except(pre, self.baselines@, kv, q, 0);
                assert(self.baselines@.skip(0) =~= self.baselines@);
                assert(pre.skip(0) =~= pre);
            }
            assert(self.baselines() =~= old(self).baselines().insert(kv, baseline));
        }
    }

    /// The configuration is not touched by baseline seeding.
    pub closed spec fn config_unchanged_from(&self, other: AnomalyDetector) -> bool {
        self.config == other.config
    }

    /// The baseline for `name`, if one was seeded.
    pub fn get_baseline(&self, name: &str) -> (r: Option<MetricBaseline>)
        ensures
            match r {
                Some(b) => self.baselines().contains_key(name@) && self.baselines()[name@] == b,
                None => !self.baselines().contains_key(name@),
            },
    {
        let n = self.baselines.len();
        let mut i: usize = 0;
        while i < n
            invariant
                n == self.baselines@.len(),
                i <= n,
                forall|j: int| #![trigger self.baselines@[j]] 0 <= j < i ==> self.baselines@[j].0@
                    != name@,
            decreases n - i,
        {
            if crate::telemetry::str_eq(self.baselines[i].0.as_str(), name) {
                proof {
                    lemma_pair_find_first(self.baselines@, name@, i as int);
                }
                return Some(self.baselines[i].1);
            }
            i += 1;
        }
        proof {
            lemma_pair_find_absent(self.baselines@, name@);
        }
        None
    }

    /// Evaluates the two trace rules over a batch, in their fixed order:
    /// error rate first, then mean latency; at most one alert per call, and
    /// an empty batch is no signal.
    pub fn check_traces(&self, spans: &Vec<Span>) -> (r: Option<Alert>)
        requires
            spans_wf(spans_model(spans@)),
        ensures
            match trace_signal(spans_model(spans@)) {
                TraceSignal::ErrorRate => r is Some && is_error_rate_alert(
                    r->Some_0@,
                    spans_model(spans@),
                ),
                TraceSignal::Latency => r is Some && is_latency_alert(
                    r->Some_0@,
                    spans_model(spans@),
                ),
                TraceSignal::Quiet => r is None,
            },
    {
        let ghost s = spans_model(spans@);
        let n = spans.len();
        let mut err: usize = 0;
        let mut total: u128 = 0;
        let mut i: usize = 0;
        proof {
            assert(s.take(0) =~= Seq::<SpanModel>::empty());
        }
        while i < n
            invariant
                n == spans@.len(),
                s == spans_model(spans@),
                s.len() == n,
                spans_wf(s),
                i <= n,
                err <= i,
                err == error_count(s.take(i as int)),
                total == total_latency(s.take(i as int)),
                total <= (i as int) * 0xFFFF_FFFF_FFFF_FFFFu128,
            decreases n - i,
        {
            let sp = &spans[i];
            proof {
                assert(s[i as int] == spans@[i as int]@);
                assert(s[i as int].wf());
                lemma_sum_by_step(s, |x: SpanModel| error_weight(x), i as int);
                lemma_sum_by_step(s, |x: SpanModel| x.latency(), i as int);
            }
            let failed = match &sp.status {
                SpanStatus::Error(_) => true,
                SpanStatus::Okay => false,
            };
            if failed {
                err += 1;
            }
            let lat: i128 = (sp.end_time as i128) - (sp.start_time as i128);
            total = total + (lat as u128);
            i += 1;
        }
        proof {
            assert(s.take(n as int) =~= s);
        }
        if n == 0 {
            return None;
        }
        if (err as u128) * 10 > (n as u128) {
            let t: u128 = (err as u128) * 1000 / (n as u128);
            let mut msg = String::new();
            msg.append("Error rate is ");
            push_tenths(&mut msg, t);
            msg.append("%");
            proof {
                assert(msg@ =~= error_rate_message(s));
            }
            let a = Alert {
                id: fresh_id(),
                name: "High Error Rate".to_owned(),
                severity: AlertSeverity::Critical,
                message: msg,
                timestamp: now_millis(),
                labels: AttrMap::new(),
            };
            return Some(a);
        }
        if total > 1_000_000_000u128 * (n as u128) {
            let ms: u128 = total / ((n as u128) * 1_000_000u128);
            let mut msg = String::new();
            msg.append("Average latency is ");
            push_decimal(&mut msg, ms);
            msg.append("ms");
            proof {
                assert(msg@ =~= latency_message(s));
            }
            let a = Alert {
                id: fresh_id(),
                name: "High Latency".to_owned(),
                severity: AlertSeverity::Warning,
                message: msg,
                timestamp: now_millis(),
                labels: AttrMap::new(),
            };
            return Some(a);
        }
        None
    }

    /// Scores each metric against its baseline in input order and reports
    /// the first whose value deviates by more than three standard
    /// deviations; metrics without a baseline are skipped, and a zero
    /// standard deviation is no signal.
    pub fn check_metrics(&self, metrics: &Vec<Metric>) -> (r: Option<Alert>)
        ensures
            ({
                let ms = metrics_model(metrics@);
                let i = first_anomaly(self.baselines(), ms);
                if i < ms.len() {
                    r is Some && is_anomaly_alert(r->Some_0@, ms[i], self.baselines()[ms[i].name])
                } else {
                    r is None
                }
            }),
    {
        let ghost ms = metrics_model(metrics@);
        let ghost bs = self.baselines();
        let n = metrics.len();
        let mut i: usize = 0;
        while i < n
            invariant
                n == metrics@.len(),
                ms == metrics_model(metrics@),
                bs == self.baselines(),
                ms.len() == n,
                i <= n,
                forall|j: int| 0 <= j < i ==> !metric_qualifies(bs, #[trigger] ms[j]),
            decreases n - i,
        {
            let m = &metrics[i];
            proof {
                assert(ms[i as int] == metrics@[i as int]@);
            }
            if let Some(b) = self.get_baseline(m.name.as_str()) {
                if b.std_dev_milli > 0 {
                    let d: i128 = (m.value_milli as i128) - (b.mean_milli as i128);
                    let dabs: i128 = if d < 0 {
                        -d
                    } else {
                        d
                    };
                    if dabs > 3 * (b.std_dev_milli as i128) {
                        proof {
                            lemma_first_anomaly_is(bs, ms, i as int);
                        }
                        let h: u128 = ((dabs * 100) / (b.std_dev_milli as i128)) as u128;
                        let mut msg = String::new();
                        msg.append("Value ");
                        let vneg = m.value_milli < 0;
                        let vabs: u128 = if vneg {
                            (-(m.value_milli as i128)) as u128
                        } else {
                            m.value_milli as u128
                        };
                        push_signed_milli(&mut msg, vneg, vabs);
                        msg.append(" deviates significantly from baseline (z-score: ");
                        push_signed_hundredths(&mut msg, d < 0, h);
                        msg.append(")");
                        proof {
                            assert(100 * abs_of(ms[i as int].value_milli - b.mean_milli as int)
                                / (b.std_dev_milli as int) == h as int);
                            assert(msg@ =~= anomaly_message(ms[i as int], b));
                        }
                        let mut nm = String::new();
                        nm.append("Anomaly in ");
                        nm.append(m.name.as_str());
                        proof {
                            assert(nm@ =~= anomaly_alert_name(ms[i as int]));
                        }
                        let a = Alert {
                            id: fresh_id(),
                            name: nm,
                            severity: AlertSeverity::Warning,
                            message: msg,
                            timestamp: now_millis(),
                            labels: m.labels.duplicate(),
                        };
                        return Some(a);
                    }
                }
            }
            i += 1;
        }
        proof {
            lemma_first_anomaly_none(bs, ms);
        }
        None
    }
}

// ---------------------------------------------------------------------------
// Trace correlation
// ---------------------------------------------------------------------------

/// One span folded into the window: appended to its trace in arrival order,
/// the entry created when absent.
pub open spec fn window_add(
    w: Map<Seq<char>, Seq<SpanModel>>,
    x: SpanModel,
) -> Map<Seq<char>, Seq<SpanModel>> {
    w.insert(
        x.trace_id,
        (if w.contains_key(x.trace_id) {
            w[x.trace_id]
        } else {
            Seq::<SpanModel>::empty()
        }).push(x),
    )
}

/// A whole batch folded into the window, in batch order.
pub open spec fn window_ingest(
    w: Map<Seq<char>, Seq<SpanModel>>,
    s: Seq<SpanModel>,
) -> Map<Seq<char>, Seq<SpanModel>>
    decreases s.len(),
{
    if s.len() == 0 {
        w
    } else {
        window_add(window_ingest(w, s.drop_last()), s.last())
    }
}

/// Some member span of the trace ended after the cutoff.
pub open spec fn has_live(spans: Seq<SpanModel>, cutoff: int) -> bool {
    exists|i: int| 0 <= i < spans.len() && #[trigger] spans[i].end_time > cutoff
}

/// The window with every expired trace swept out: an entry stays exactly
/// when one of its spans ends after the cutoff.
pub open spec fn retain_live(
    w: Map<Seq<char>, Seq<SpanModel>>,
    cutoff: int,
) -> Map<Seq<char>, Seq<SpanModel>> {
    Map::new(
        |k: Seq<char>| w.contains_key(k) && has_live(w[k], cutoff),
        |k: Seq<char>| w[k],
    )
}

/// Groups spans by trace id, preserving arrival order within a trace, and
/// sweeps expired traces on every call.
pub struct TraceCorrelator {
    config: TraceCorrelationConfig,
    traces: Vec<(String, Vec<Span>)>,
}

impl TraceCorrelator {
    /// The window: each retained trace id mapped to its spans in arrival
    /// order.
    pub closed spec fn window(&self) -> Map<Seq<char>, Seq<SpanModel>> {
        Map::new(
            |k: Seq<char>| pair_find(self.traces@, k) is Some,
            |k: Seq<char>| spans_model(pair_find(self.traces@, k)->Some_0@),
        )
    }

    /// Internal soundness: one entry per trace id.
    pub closed spec fn wf(&self) -> bool {
        unique_keys(self.traces@)
    }

    pub closed spec fn spec_window_seconds(&self) -> u64 {
        self.config.window_seconds
    }

    /// How long a trace outlives its last span's end, in seconds.
    pub fn window_seconds(&self) -> (w: u64)
        ensures
            w == self.spec_window_seconds(),
    {
        self.config.window_seconds
    }

    pub fn new(config: &TraceCorrelationConfig) -> (c: TraceCorrelator)
        ensures
            c.wf(),
            c.window() == Map::<Seq<char>, Seq<SpanModel>>::empty(),
            c.spec_window_seconds() == config.window_seconds,
    {
        let c = TraceCorrelator { config: *config, traces: Vec::new() };
        proof {
            assert(c.window() =~= Map::<Seq<char>, Seq<SpanModel>>::empty());
        }
        c
    }

    /// Appends one span to its trace's entry, creating the entry if absent.
    fn ingest_span(&mut self, span: &Span)
        requires
            old(self).wf(),
        ensures
            final(self).wf(),
            final(self).window() == window_add(old(self).window(), span@),
            final(self).config == old(self).config,
    {
        let ghost pre = self.traces@;
        let ghost kv = span.trace_id@;
        let n = self.traces.len();
        let mut i: usize = 0;
        while i < n
            invariant
                n == self.traces@.len(),
                i <= n,
                self.traces@ == pre,
                pre == old(self).traces@,
                unique_keys(pre),
                self.config == old(self).config,
                kv == span.trace_id@,
                forall|j: int| #![trigger self.traces@[j]] 0 <= j < i ==> self.traces@[j].0@ != kv,
            decreases n - i,
        {
            if crate::telemetry::str_eq(self.traces[i].0.as_str(), span.trace_id.as_str()) {
                let mut entry = self.traces.remove(i);
                entry.1.push(span.clone());
                self.traces.insert(i, entry);
                proof {
                    assert(self.traces@ =~= pre.update(i as int, self.traces@[i as int]));
                    assert(self.traces@[i as int].0@ == kv);
                    assert(spans_model(self.traces@[i as int].1@) =~= spans_model(
                        pre[i as int].1@,
                    ).push(span@));
                    lemma_pair_find_first(self.traces@, kv, i as int);
                    lemma_pair_find_first(pre, kv, i as int);
                    assert forall|q: Seq<char>| q != kv implies #[trigger] pair_find(
                        self.traces@,
                        q,
                    ) == pair_find(pre, q) by {
                        lemma_pair_find_agree_except(pre, self.traces@, kv, q, 0);
                        assert(self.traces@.skip(0) =~= self.traces@);
                        assert(pre.skip(0) =~= pre);
                    }
                    assert(forall|j: int|
                        #![trigger self.traces@[j]]
                        0 <= j < self.traces@.len() ==> self.traces@[j].0@ == pre[j].0@);
                    assert(unique_keys(self.traces@));
                    assert(self.window() =~= window_add(old(self).window(), span@));
                }
                return ;
            }
            i += 1;
        }
        self.traces.push((span.trace_id.clone(), {
            let mut v: Vec<Span> = Vec::new();
            v.push(span.clone());
            v
        }));
        proof {
            lemma_pair_find_absent(pre, kv);
            lemma_pair_find_first(self.traces@, kv, n as int);
            assert(spans_model(self.traces@[n as int].1@) =~= Seq::<SpanModel>::empty().push(
                span@,
            ));
            assert forall|q: Seq<char>| q != kv implies #[trigger] pair_find(self.traces@, q)
                == pair_find(pre, q) by {
                lemma_pair_find_agree_except(pre, self.traces@, kv, q, 0);
                assert(self.traces@.skip(0) =~= self.traces@);
                assert(pre.skip(0) =~= pre);
            }
            assert(unique_keys(self.traces@));
            assert(self.window() =~= window_add(old(self).window(), span@));
        }
    }

    /// Does any span of `spans` end after the cutoff?
    fn any_live(spans: &Vec<Span>, cutoff_ms: i128) -> (r: bool)
        ensures
            r == has_live(spans_model(spans@), cutoff_ms as int),
    {
        let n = spans.len();
        let mut i: usize = 0;
        while i < n
            invariant
                n == spans@.len(),
                i <= n,
                forall|j: int| 0 <= j < i ==> !(#[trigger] spans_model(spans@)[j].end_time
                    > cutoff_ms as int),
            decreases n - i,
        {
            if (spans[i].end_time as i128) > cutoff_ms {
                proof {
                    assert(spans_model(spans@)[i as int].end_time > cutoff_ms as int);
                }
                return true;
            }
            i += 1;
        }
        false
    }

    /// Removes every trace whose spans all ended at or before the cutoff.
    fn evict_at(&mut self, cutoff_ms: i128)
        requires
            old(self).wf(),
        ensures
            final(self).wf(),
            final(self).window() == retain_live(old(self).window(), cutoff_ms as int),
            final(self).config == old(self).config,
    {
        let ghost pre = self.traces@;
        let ghost n = pre.len();
        let mut kept: Vec<(String, Vec<Span>)> = Vec::new();
        let ghost mut done: int = 0;
        while self.traces.len() > 0
            invariant
                old(self).wf(),
                pre == old(self).traces@,
                self.config == old(self).config,
                0 <= done <= pre.len(),
                self.traces@ =~= pre.skip(done),
                unique_keys(kept@),
                forall|k: Seq<char>| #![trigger pair_find(kept@, k)] pair_find(kept@, k)
                    == match pair_find(pre.take(done), k) {
                    Some(v) => if has_live(spans_model(v@), cutoff_ms as int) {
                        Some(v)
                    } else {
                        None::<Vec<Span>>
                    },
                    None => None,
                },
            decreases self.traces@.len(),
        {
            let e = self.traces.remove(0);
            let ghost ek = e.0@;
            let ghost kept_pre = kept@;
            proof {
                assert(pre.skip(done)[0] == pre[done]);
                assert(pre.skip(done).remove(0) =~= pre.skip(done + 1));
                assert(pre.take(done + 1) =~= pre.take(done).push(pre[done]));
                // the key of this entry occurs nowhere earlier
                assert(forall|j: int| #![trigger pre[j]] 0 <= j < done ==> pre[j].0@ != ek);
                lemma_pair_find_absent(pre.take(done), ek);
                assert(pair_find(kept_pre, ek) is None);
                assert(forall|j: int| #![trigger kept_pre[j]] 0 <= j < kept_pre.len()
                    ==> kept_pre[j].0@ != ek) by {
                    assert forall|j: int| 0 <= j < kept_pre.len() && #[trigger] kept_pre[j].0@ == ek
                        implies false by {
                        lemma_pair_find_present(kept_pre, ek, j);
                    }
                }
            }
            let live = Self::any_live(&e.1, cutoff_ms);
            if live {
                kept.push(e);
                proof {
                    assert(kept@.drop_last() =~= kept_pre);
                    assert forall|k: Seq<char>| true implies #[trigger] pair_find(kept@, k)
                        == match pair_find(pre.take(done + 1), k) {
                        Some(v) => if has_live(spans_model(v@), cutoff_ms as int) {
                            Some(v)
                        } else {
                            None::<Vec<Span>>
                        },
                        None => None,
                    } by {
                        if k == ek {
                            lemma_pair_find_first(kept@, ek, kept@.len() - 1);
                            lemma_pair_find_first(pre.take(done + 1), ek, done);
                        } else {
                            lemma_pair_find_agree_except(kept_pre, kept@, ek, k, 0);
                            assert(kept@.skip(0) =~= kept@);
                            assert(kept_pre.skip(0) =~= kept_pre);
                            lemma_pair_find_agree_except(
                                pre.take(done),
                                pre.take(done + 1),
                                ek,
                                k,
                                0,
                            );
                            assert(pre.take(done + 1).skip(0) =~= pre.take(done + 1));
                            assert(pre.take(done).skip(0) =~= pre.take(done));
                        }
                    }
                }
            } else {
                proof {
                    assert forall|k: Seq<char>| true implies #[trigger] pair_find(kept@, k)
                        == match pair_find(pre.take(done + 1), k) {
                        Some(v) => if has_live(spans_model(v@), cutoff_ms as int) {
                            Some(v)
                        } else {
                            None::<Vec<Span>>
                        },
                        None => None,
                    } by {
                        if k == ek {
                            lemma_pair_find_first(pre.take(done + 1), ek, done);
                        } else {
                            lemma_pair_find_agree_except(
                                pre.take(done),
                                pre.take(done + 1),
                                ek,
                                k,
                                0,
                            );
                            assert(pre.take(done + 1).skip(0) =~= pre.take(done + 1));
                            assert(pre.take(done).skip(0) =~= pre.take(done));
                        }
                    }
                }
            }
            proof {
                done = done + 1;
            }
        }
        proof {
            assert(pre.take(done) =~= pre);
        }
        self.traces = kept;
        proof {
            assert(final(self).window() =~= retain_live(old(self).window(), cutoff_ms as int));
        }
    }

    /// Removes every trace whose spans all ended at or before `cutoff_ms`.
    /// `process` does this with the wall clock; this entry point makes the
    /// sweep reproducible.
    pub fn evict_older_than(&mut self, cutoff_ms: i64)
        requires
            old(self).wf(),
        ensures
            final(self).wf(),
            final(self).window() == retain_live(old(self).window(), cutoff_ms as int),
            final(self).spec_window_seconds() == old(self).spec_window_seconds(),
    {
        self.evict_at(cutoff_ms as i128);
    }

    /// Appends every span to its trace in arrival order, then sweeps traces
    /// whose spans all ended more than the window before now. The wall
    /// clock decides the cutoff, so the result is pinned only up to the
    /// reading taken.
    pub fn process(&mut self, spans: &Vec<Span>)
        requires
            old(self).wf(),
        ensures
            final(self).wf(),
            final(self).spec_window_seconds() == old(self).spec_window_seconds(),
            exists|cutoff_ms: int|
                final(self).window() == #[trigger] retain_live(
                    window_ingest(old(self).window(), spans_model(spans@)),
                    cutoff_ms,
                ),
    {
        let ghost s = spans_model(spans@);
        let n = spans.len();
        let mut i: usize = 0;
        proof {
            assert(s.take(0) =~= Seq::<SpanModel>::empty());
        }
        while i < n
            invariant
                n == spans@.len(),
                s == spans_model(spans@),
                s.len() == n,
                i <= n,
                self.wf(),
                self.config == old(self).config,
                self.window() == window_ingest(old(self).window(), s.take(i as int)),
            decreases n - i,
        {
            proof {
                assert(s.take(i + 1).drop_last() =~= s.take(i as int));
                assert(s.take(i + 1).last() == s[i as int]);
                assert(s[i as int] == spans@[i as int]@);
            }
            self.ingest_span(&spans[i]);
            i += 1;
        }
        proof {
            assert(s.take(n as int) =~= s);
        }
        let now = crate::host::now_millis();
        let cutoff: i128 = (now as i128) - (self.config.window_seconds as i128) * 1000;
        self.evict_at(cutoff);
        proof {
            assert(final(self).window() == retain_live(
                window_ingest(old(self).window(), s),
                cutoff as int,
            ));
        }
    }

    /// The spans of one trace in arrival order, or `None` when the trace is
    /// absent or already swept.
    pub fn get_trace<'a>(&'a self, trace_id: &str) -> (r: Option<&'a Vec<Span>>)
        ensures
            match r {
                Some(v) => self.window().contains_key(trace_id@) && spans_model(v@)
                    == self.window()[trace_id@],
                None => !self.window().contains_key(trace_id@),
            },
    {
        let n = self.traces.len();
        let mut i: usize = 0;
        while i < n
            invariant
                n == self.traces@.len(),
                i <= n,
                forall|j: int| #![trigger self.traces@[j]] 0 <= j < i ==> self.traces@[j].0@
                    != trace_id@,
            decreases n - i,
        {
            if crate::telemetry::str_eq(self.traces[i].0.as_str(), trace_id) {
                proof {
                    lemma_pair_find_first(self.traces@, trace_id@, i as int);
                }
                return Some(&self.traces[i].1);
            }
            i += 1;
        }
        proof {
            lemma_pair_find_absent(self.traces@, trace_id@);
        }
        None
    }
}

// ---------------------------------------------------------------------------
// Topology discovery
// ---------------------------------------------------------------------------

/// A service node of the inferred call graph: running counters over every
/// span the service reported. Counters never decrease; they saturate at the
/// top of their range.
#[derive(Debug)]
pub struct ServiceInfo {
    pub name: String,
    pub span_count: u64,
    pub error_count: u64,
    pub total_latency_ns: u64,
}

pub ghost struct ServiceStats {
    pub name: Seq<char>,
    pub span_count: int,
    pub error_count: int,
    pub total_latency_ns: int,
}

impl View for ServiceInfo {
    type V = ServiceStats;

    open spec fn view(&self) -> ServiceStats {
        ServiceStats {
            name: self.name@,
            span_count: self.span_count as int,
            error_count: self.error_count as int,
            total_latency_ns: self.total_latency_ns as int,
        }
    }
}

impl Clone for ServiceInfo {
    fn clone(&self) -> (r: ServiceInfo)
        ensures
            r@ == self@,
    {
        ServiceInfo {
            name: self.name.clone(),
            span_count: self.span_count,
            error_count: self.error_count,
            total_latency_ns: self.total_latency_ns,
        }
    }
}

/// A caller-to-callee edge of the call graph, keyed by the composite
/// `source:target` identity, with request and error counters.
#[derive(Debug)]
pub struct EdgeInfo {
    pub source: String,
    pub target: String,
    pub request_count: u64,
    pub error_count: u64,
}

pub ghost struct EdgeStats {
    pub source: Seq<char>,
    pub target: Seq<char>,
    pub request_count: int,
    pub error_count: int,
}

impl View for EdgeInfo {
    type V = EdgeStats;

    open spec fn view(&self) -> EdgeStats {
        EdgeStats {
            source: self.source@,
            target: self.target@,
            request_count: self.request_count as int,
            error_count: self.error_count as int,
        }
    }
}

impl Clone for EdgeInfo {
    fn clone(&self) -> (r: EdgeInfo)
        ensures
            r@ == self@,
    {
        EdgeInfo {
            source: self.source.clone(),
            target: self.target.clone(),
            request_count: self.request_count,
            error_count: self.error_count,
        }
    }
}

/// Saturation at the top of the 64-bit range.
pub open spec fn sat64(x: int) -> int {
    if x > u64::MAX as int {
        u64::MAX as int
    } else {
        x
    }
}

/// Weight 1 for spans of service `n`.
pub open spec fn svc_weight(n: Seq<char>, x: SpanModel) -> int {
    if x.service_name == n {
        1
    } else {
        0
    }
}

/// Weight 1 for failed spans of service `n`.
pub open spec fn svc_err_weight(n: Seq<char>, x: SpanModel) -> int {
    if x.service_name == n && x.is_error() {
        1
    } else {
        0
    }
}

/// The latency of spans of service `n`, 0 for others.
pub open spec fn svc_lat_weight(n: Seq<char>, x: SpanModel) -> int {
    if x.service_name == n {
        x.latency()
    } else {
        0
    }
}

pub open spec fn svc_count(s: Seq<SpanModel>, n: Seq<char>) -> int {
    sum_by(s, |x: SpanModel| svc_weight(n, x))
}

pub open spec fn svc_err(s: Seq<SpanModel>, n: Seq<char>) -> int {
    sum_by(s, |x: SpanModel| svc_err_weight(n, x))
}

pub open spec fn svc_lat(s: Seq<SpanModel>, n: Seq<char>) -> int {
    sum_by(s, |x: SpanModel| svc_lat_weight(n, x))
}

pub open spec fn has_service(s: Seq<SpanModel>, n: Seq<char>) -> bool {
    exists|i: int| 0 <= i < s.len() && #[trigger] s[i].service_name == n
}

/// The callee a span names, when it carries the `peer.service` attribute.
pub open spec fn span_peer(x: SpanModel) -> Option<Seq<char>> {
    if x.attributes.contains_key("peer.service"@) {
        Some(x.attributes["peer.service"@])
    } else {
        None
    }
}

/// The composite identity of a caller-to-callee edge.
pub open spec fn edge_key_of(src: Seq<char>, tgt: Seq<char>) -> Seq<char> {
    src + ":"@ + tgt
}

/// The edge a span witnesses, when it names a callee.
pub open spec fn span_edge_key(x: SpanModel) -> Option<Seq<char>> {
    match span_peer(x) {
        Some(p) => Some(edge_key_of(x.service_name, p)),
        None => None,
    }
}

pub open spec fn edge_weight(k: Seq<char>, x: SpanModel) -> int {
    if span_edge_key(x) == Some(k) {
        1
    } else {
        0
    }
}

pub open spec fn edge_err_weight(k: Seq<char>, x: SpanModel) -> int {
    if span_edge_key(x) == Some(k) && x.is_error() {
        1
    } else {
        0
    }
}

pub open spec fn edge_count(s: Seq<SpanModel>, k: Seq<char>) -> int {
    sum_by(s, |x: SpanModel| edge_weight(k, x))
}

pub open spec fn edge_err(s: Seq<SpanModel>, k: Seq<char>) -> int {
    sum_by(s, |x: SpanModel| edge_err_weight(k, x))
}

pub open spec fn has_edge(s: Seq<SpanModel>, k: Seq<char>) -> bool {
    exists|i: int| 0 <= i < s.len() && #[trigger] span_edge_key(s[i]) == Some(k)
}

/// The counters under `n`, or fresh zeroed counters when `n` is new.
pub open spec fn svc_base(m: Map<Seq<char>, ServiceStats>, n: Seq<char>) -> ServiceStats {
    if m.contains_key(n) {
        m[n]
    } else {
        ServiceStats { name: n, span_count: 0, error_count: 0, total_latency_ns: 0 }
    }
}

/// The service map after one batch: every service named by a span is
/// present, and each counter grew by that service's share of the batch,
/// saturating at the top of the range.
pub open spec fn services_after(
    m: Map<Seq<char>, ServiceStats>,
    s: Seq<SpanModel>,
) -> Map<Seq<char>, ServiceStats> {
    Map::new(
        |n: Seq<char>| m.contains_key(n) || has_service(s, n),
        |n: Seq<char>|
            ServiceStats {
                name: n,
                span_count: sat64(svc_base(m, n).span_count + svc_count(s, n)),
                error_count: sat64(svc_base(m, n).error_count + svc_err(s, n)),
                total_latency_ns: sat64(svc_base(m, n).total_latency_ns + svc_lat(s, n)),
            },
    )
}

pub open spec fn edge_base_req(m: Map<Seq<char>, EdgeStats>, k: Seq<char>) -> int {
    if m.contains_key(k) {
        m[k].request_count
    } else {
        0
    }
}

pub open spec fn edge_base_err(m: Map<Seq<char>, EdgeStats>, k: Seq<char>) -> int {
    if m.contains_key(k) {
        m[k].error_count
    } else {
        0
    }
}

/// The edge map after one batch: every witnessed edge is present, request
/// and error counters grew by exactly the batch's share (saturating), each
/// entry is keyed by its own endpoints, and the endpoints of an edge that
/// already existed are untouched.
pub open spec fn edges_grown(
    e0: Map<Seq<char>, EdgeStats>,
    e1: Map<Seq<char>, EdgeStats>,
    s: Seq<SpanModel>,
) -> bool {
    &&& forall|k: Seq<char>|
        #![trigger e1.contains_key(k)]
        e1.contains_key(k) <==> (e0.contains_key(k) || has_edge(s, k))
    &&& forall|k: Seq<char>|
        #![trigger e1[k]]
        e1.contains_key(k) ==> e1[k].request_count == sat64(edge_base_req(e0, k) + edge_count(s, k))
            && e1[k].error_count == sat64(edge_base_err(e0, k) + edge_err(s, k)) && edge_key_of(
            e1[k].source,
            e1[k].target,
        ) == k
    &&& forall|k: Seq<char>|
        #![trigger e0[k]]
        e0.contains_key(k) ==> e1[k].source == e0[k].source && e1[k].target == e0[k].target
}

/// Builds the service dependency graph from span attributes: per-service
/// counters always, an edge only when a span names its callee.
pub struct TopologyDiscovery {
    config: TopologyDiscoveryConfig,
    services: Vec<(String, ServiceInfo)>,
    edges: Vec<(String, EdgeInfo)>,
}

impl TopologyDiscovery {
    /// The service nodes keyed by service name.
    pub closed spec fn services(&self) -> Map<Seq<char>, ServiceStats> {
        Map::new(
            |n: Seq<char>| pair_find(self.services@, n) is Some,
            |n: Seq<char>| pair_find(self.services@, n)->Some_0@,
        )
    }

    /// The edges keyed by their composite `source:target` identity.
    pub closed spec fn edges(&self) -> Map<Seq<char>, EdgeStats> {
        Map::new(
            |k: Seq<char>| pair_find(self.edges@, k) is Some,
            |k: Seq<char>| pair_find(self.edges@, k)->Some_0@,
        )
    }

    /// Internal soundness: unique keys, each service named like its key,
    /// each edge keyed by its own endpoints.
    pub closed spec fn wf(&self) -> bool {
        &&& unique_keys(self.services@)
        &&& unique_keys(self.edges@)
        &&& forall|j: int|
            #![trigger self.services@[j]]
            0 <= j < self.services@.len() ==> self.services@[j].1.name@ == self.services@[j].0@
        &&& forall|j: int|
            #![trigger self.edges@[j]]
            0 <= j < self.edges@.len() ==> edge_key_of(
                self.edges@[j].1.source@,
                self.edges@[j].1.target@,
            ) == self.edges@[j].0@
    }

    pub fn new(config: &TopologyDiscoveryConfig) -> (t: TopologyDiscovery)
        ensures
            t.wf(),
            t.services() == Map::<Seq<char>, ServiceStats>::empty(),
            t.edges() == Map::<Seq<char>, EdgeStats>::empty(),
    {
        let t = TopologyDiscovery { config: *config, services: Vec::new(), edges: Vec::new() };
        proof {
            assert(t.services() =~= Map::<Seq<char>, ServiceStats>::empty());
            assert(t.edges() =~= Map::<Seq<char>, EdgeStats>::empty());
        }
        t
    }

    /// Folds one span into the service counters.
    fn observe_service(&mut self, span: &Span)
        requires
            old(self).wf(),
            span@.wf(),
        ensures
            final(self).wf(),
            final(self).edges@ == old(self).edges@,
            final(self).config == old(self).config,
            final(self).services().contains_key(span@.service_name),
            forall|n: Seq<char>|
                n != span@.service_name ==> #[trigger] final(self).services().contains_key(n)
                    == old(self).services().contains_key(n) && (final(self).services().contains_key(
                    n,
                ) ==> final(self).services()[n] == old(self).services()[n]),
            final(self).services()[span@.service_name] == (ServiceStats {
                name: span@.service_name,
                span_count: sat64(svc_base(old(self).services(), span@.service_name).span_count + 1),
                error_count: sat64(
                    svc_base(old(self).services(), span@.service_name).error_count + error_weight(
                        span@,
                    ),
                ),
                total_latency_ns: sat64(
                    svc_base(old(self).services(), span@.service_name).total_latency_ns
                        + span@.latency(),
                ),
            }),
    {
        let ghost pre = self.services@;
        let ghost kv = span.service_name@;
        let failed = match &span.status {
            SpanStatus::Error(_) => true,
            SpanStatus::Okay => false,
        };
        let lat128: i128 = (span.end_time as i128) - (span.start_time as i128);
        let lat: u64 = lat128 as u64;
        proof {
            assert(lat == span@.latency());
        }
        let n = self.services.len();
        let mut i: usize = 0;
        while i < n
            invariant
                n == self.services@.len(),
                i <= n,
                self.services@ == pre,
                pre == old(self).services@,
                self.edges@ == old(self).edges@,
                old(self).wf(),
                self.config == old(self).config,
                kv == span.service_name@,
                failed == span@.is_error(),
                lat == span@.latency(),
                forall|j: int| #![trigger self.services@[j]] 0 <= j < i ==> self.services@[j].0@
                    != kv,
            decreases n - i,
        {
            if crate::telemetry::str_eq(self.services[i].0.as_str(), span.service_name.as_str()) {
                let mut entry = self.services.remove(i);
                entry.1.span_count = entry.1.span_count.saturating_add(1);
                if failed {
                    entry.1.error_count = entry.1.error_count.saturating_add(1);
                }
                entry.1.total_latency_ns = entry.1.total_latency_ns.saturating_add(lat);
                self.services.insert(i, entry);
                proof {
                    assert(self.services@ =~= pre.update(i as int, self.services@[i as int]));
                    assert(self.services@[i as int].0@ == kv);
                    lemma_pair_find_first(self.services@, kv, i as int);
                    lemma_pair_find_first(pre, kv, i as int);
                    assert forall|q: Seq<char>| q != kv implies #[trigger] pair_find(
                        self.services@,
                        q,
                    ) == pair_find(pre, q) by {
                        lemma_pair_find_agree_except(pre, self.services@, kv, q, 0);
                        assert(self.services@.skip(0) =~= self.services@);
                        assert(pre.skip(0) =~= pre);
                    }
                    assert(forall|j: int|
                        #![trigger self.services@[j]]
                        0 <= j < self.services@.len() ==> self.services@[j].0@ == pre[j].0@);
                    assert(unique_keys(self.services@));
                }
                return ;
            }
            i += 1;
        }
        let info = ServiceInfo {
            name: span.service_name.clone(),
            span_count: 1,
            error_count: if failed {
                1
            } else {
                0
            },
            total_latency_ns: lat,
        };
        self.services.push((span.service_name.clone(), info));
        proof {
            lemma_pair_find_absent(pre, kv);
            lemma_pair_find_first(self.services@, kv, n as int);
            assert forall|q: Seq<char>| q != kv implies #[trigger] pair_find(self.services@, q)
                == pair_find(pre, q) by {
                lemma_pair_find_agree_except(pre, self.services@, kv, q, 0);
                assert(self.services@.skip(0) =~= self.services@);
                assert(pre.skip(0) =~= pre);
            }
            assert(unique_keys(self.services@));
        }
    }

    /// Folds one span into the edge counters, when it names a callee.
    fn observe_edge(&mut self, span: &Span)
        requires
            old(self).wf(),
        ensures
            final(self).wf(),
            final(self).services@ == old(self).services@,
            final(self).config == old(self).config,
            (span_edge_key(span@) is None) ==> final(self).edges@ == old(self).edges@,
            (span_edge_key(span@) is Some) ==> ({
                let k = span_edge_key(span@)->Some_0;
                &&& final(self).edges().contains_key(k)
                &&& forall|q: Seq<char>|
                    q != k ==> #[trigger] final(self).edges().contains_key(q) == old(self).edges().contains_key(q) && (final(self).edges().contains_key(q) ==> final(self).edges()[q] == old(self).edges()[q])
                &&& final(self).edges()[k].request_count == sat64(
                    edge_base_req(old(self).edges(), k) + 1,
                )
                &&& final(self).edges()[k].error_count == sat64(
                    edge_base_err(old(self).edges(), k) + error_weight(span@),
                )
                &&& edge_key_of(final(self).edges()[k].source, final(self).edges()[k].target) == k
                &&& (old(self).edges().contains_key(k) ==> final(self).edges()[k].source == old(self).edges()[k].source && final(self).edges()[k].target == old(self).edges()[k].target)
                &&& (!old(self).edges().contains_key(k) ==> final(self).edges()[k].source
                    == span@.service_name && final(self).edges()[k].target == span_peer(
                    span@,
                )->Some_0)
            }),
    {
        let peer = match span.attributes.get("peer.service") {
            Some(p) => p.clone(),
            None => {
                return ;
            },
        };
        let failed = match &span.status {
            SpanStatus::Error(_) => true,
            SpanStatus::Okay => false,
        };
        let mut key = String::new();
        key.append(span.service_name.as_str());
        key.append(":");
        key.append(peer.as_str());
        proof {
            assert(key@ =~= edge_key_of(span@.service_name, peer@));
            assert(span_edge_key(span@) == Some(key@));
        }
        let ghost pre = self.edges@;
        let ghost kv = key@;
        let n = self.edges.len();
        let mut i: usize = 0;
        while i < n
            invariant
                n == self.edges@.len(),
                i <= n,
                self.edges@ == pre,
                pre == old(self).edges@,
                self.services@ == old(self).services@,
                old(self).wf(),
                self.config == old(self).config,
                kv == key@,
                span_edge_key(span@) == Some(kv),
                peer@ == span_peer(span@)->Some_0,
                failed == span@.is_error(),
                forall|j: int| #![trigger self.edges@[j]] 0 <= j < i ==> self.edges@[j].0@ != kv,
            decreases n - i,
        {
            if crate::telemetry::str_eq(self.edges[i].0.as_str(), key.as_str()) {
                let mut entry = self.edges.remove(i);
                entry.1.request_count = entry.1.request_count.saturating_add(1);
                if failed {
                    entry.1.error_count = entry.1.error_count.saturating_add(1);
                }
                self.edges.insert(i, entry);
                proof {
                    assert(self.edges@ =~= pre.update(i as int, self.edges@[i as int]));
                    assert(self.edges@[i as int].0@ == kv);
                    lemma_pair_find_first(self.edges@, kv, i as int);
                    lemma_pair_find_first(pre, kv, i as int);
                    assert forall|q: Seq<char>| q != kv implies #[trigger] pair_find(
                        self.edges@,
                        q,
                    ) == pair_find(pre, q) by {
                        lemma_pair_find_agree_except(pre, self.edges@, kv, q, 0);
                        assert(self.edges@.skip(0) =~= self.edges@);
                        assert(pre.skip(0) =~= pre);
                    }
                    assert(forall|j: int|
                        #![trigger self.edges@[j]]
                        0 <= j < self.edges@.len() ==> self.edges@[j].0@ == pre[j].0@);
                    assert(unique_keys(self.edges@));
                }
                return ;
            }
            i += 1;
        }
        let info = EdgeInfo {
            source: span.service_name.clone(),
            target: peer,
            request_count: 1,
            error_count: if failed {
                1
            } else {
                0
            },
        };
        self.edges.push((key, info));
        proof {
            lemma_pair_find_absent(pre, kv);
            lemma_pair_find_first(self.edges@, kv, n as int);
            assert forall|q: Seq<char>| q != kv implies #[trigger] pair_find(self.edges@, q)
                == pair_find(pre, q) by {
                lemma_pair_find_agree_except(pre, self.edges@, kv, q, 0);
                assert(self.edges@.skip(0) =~= self.edges@);
                assert(pre.skip(0) =~= pre);
            }
            assert(unique_keys(self.edges@));
        }
    }
}

/// A name no span of `s` carries contributes nothing to any counter.
proof fn lemma_svc_weights_zero(s: Seq<SpanModel>, n: Seq<char>)
    requires
        !has_service(s, n),
    ensures
        svc_count(s, n) == 0,
        svc_err(s, n) == 0,
        svc_lat(s, n) == 0,
{
    assert forall|j: int| 0 <= j < s.len() implies (svc_weight(n, #[trigger] s[j]) == 0
        && svc_err_weight(n, s[j]) == 0 && svc_lat_weight(n, s[j]) == 0) by {
        assert(!(s[j].service_name == n));
    }
    lemma_sum_by_bounds(s, |x: SpanModel| svc_weight(n, x), 0, 0);
    lemma_sum_by_bounds(s, |x: SpanModel| svc_err_weight(n, x), 0, 0);
    lemma_sum_by_bounds(s, |x: SpanModel| svc_lat_weight(n, x), 0, 0);
}

/// An edge no span of `s` witnesses gathers nothing.
proof fn lemma_edge_weights_zero(s: Seq<SpanModel>, k: Seq<char>)
    requires
        !has_edge(s, k),
    ensures
        edge_count(s, k) == 0,
        edge_err(s, k) == 0,
{
    assert forall|j: int| 0 <= j < s.len() implies (edge_weight(k, #[trigger] s[j]) == 0
        && edge_err_weight(k, s[j]) == 0) by {
        assert(!(span_edge_key(s[j]) == Some(k)));
    }
    lemma_sum_by_bounds(s, |x: SpanModel| edge_weight(k, x), 0, 0);
    lemma_sum_by_bounds(s, |x: SpanModel| edge_err_weight(k, x), 0, 0);
}

proof fn lemma_has_service_step(s: Seq<SpanModel>, i: int, n: Seq<char>)
    requires
        0 <= i < s.len(),
    ensures
        has_service(s.take(i + 1), n) == (has_service(s.take(i), n) || s[i].service_name == n),
{
    let a = s.take(i);
    let b = s.take(i + 1);
    if has_service(a, n) {
        let j = choose|j: int| 0 <= j < a.len() && #[trigger] a[j].service_name == n;
        assert(b[j].service_name == n);
    }
    if s[i].service_name == n {
        assert(b[i].service_name == n);
    }
    if has_service(b, n) {
        let j = choose|j: int| 0 <= j < b.len() && #[trigger] b[j].service_name == n;
        if j < i {
            assert(a[j].service_name == n);
        } else {
            assert(b[j] == s[i]);
        }
    }
}

proof fn lemma_has_edge_step(s: Seq<SpanModel>, i: int, k: Seq<char>)
    requires
        0 <= i < s.len(),
    ensures
        has_edge(s.take(i + 1), k) == (has_edge(s.take(i), k) || span_edge_key(s[i]) == Some(k)),
{
    let a = s.take(i);
    let b = s.take(i + 1);
    if has_edge(a, k) {
        let j = choose|j: int| 0 <= j < a.len() && #[trigger] span_edge_key(a[j]) == Some(k);
        assert(span_edge_key(b[j]) == Some(k));
    }
    if span_edge_key(s[i]) == Some(k) {
        assert(span_edge_key(b[i]) == Some(k));
    }
    if has_edge(b, k) {
        let j = choose|j: int| 0 <= j < b.len() && #[trigger] span_edge_key(b[j]) == Some(k);
        if j < i {
            assert(span_edge_key(a[j]) == Some(k));
        } else {
            assert(b[j] == s[i]);
        }
    }
}

impl TopologyDiscovery {
    /// Upserts the service node of every span, accumulating span count,
    /// latency and errors, and upserts the caller-to-callee edge of every
    /// span that names its callee through the `peer.service` attribute.
    /// Counters grow by exactly the batch's share, saturating at the top of
    /// the 64-bit range; an edge's endpoints are set by the span that
    /// creates it and never change.
    pub fn process(&mut self, spans: &Vec<Span>)
        requires
            old(self).wf(),
            spans_wf(spans_model(spans@)),
        ensures
            final(self).wf(),
            final(self).services() == services_after(old(self).services(), spans_model(spans@)),
            edges_grown(old(self).edges(), final(self).edges(), spans_model(spans@)),
    {
        let ghost s = spans_model(spans@);
        let ghost m0 = old(self).services();
        let ghost e0 = old(self).edges();
        let n = spans.len();
        let mut i: usize = 0;
        proof {
            assert(s.take(0) =~= Seq::<SpanModel>::empty());
            assert forall|nm: Seq<char>| #[trigger] m0.contains_key(nm) implies m0[nm]
                == (ServiceStats {
                name: nm,
                span_count: sat64(svc_base(m0, nm).span_count + svc_count(s.take(0), nm)),
                error_count: sat64(svc_base(m0, nm).error_count + svc_err(s.take(0), nm)),
                total_latency_ns: sat64(
                    svc_base(m0, nm).total_latency_ns + svc_lat(s.take(0), nm),
                ),
            }) by {
                lemma_pair_find_entry(old(self).services@, nm);
            }
            assert forall|k: Seq<char>| #[trigger] e0.contains_key(k) implies e0[k].request_count
                == sat64(edge_base_req(e0, k) + edge_count(s.take(0), k)) && e0[k].error_count
                == sat64(edge_base_err(e0, k) + edge_err(s.take(0), k)) && edge_key_of(
                e0[k].source,
                e0[k].target,
            ) == k by {
                lemma_pair_find_entry(old(self).edges@, k);
            }
        }
        while i < n
            invariant
                n == spans@.len(),
                s == spans_model(spans@),
                s.len() == n,
                spans_wf(s),
                i <= n,
                self.wf(),
                self.config == old(self).config,
                m0 == old(self).services(),
                e0 == old(self).edges(),
                forall|nm: Seq<char>|
                    #![trigger self.services().contains_key(nm)]
                    self.services().contains_key(nm) <==> (m0.contains_key(nm) || has_service(
                        s.take(i as int),
                        nm,
                    )),
                forall|nm: Seq<char>|
                    #![trigger self.services()[nm]]
                    self.services().contains_key(nm) ==> self.services()[nm] == (ServiceStats {
                        name: nm,
                        span_count: sat64(
                            svc_base(m0, nm).span_count + svc_count(s.take(i as int), nm),
                        ),
                        error_count: sat64(
                            svc_base(m0, nm).error_count + svc_err(s.take(i as int), nm),
                        ),
                        total_latency_ns: sat64(
                            svc_base(m0, nm).total_latency_ns + svc_lat(s.take(i as int), nm),
                        ),
                    }),
                forall|k: Seq<char>|
                    #![trigger self.edges().contains_key(k)]
                    self.edges().contains_key(k) <==> (e0.contains_key(k) || has_edge(
                        s.take(i as int),
                        k,
                    )),
                forall|k: Seq<char>|
                    #![trigger self.edges()[k]]
                    self.edges().contains_key(k) ==> self.edges()[k].request_count == sat64(
                        edge_base_req(e0, k) + edge_count(s.take(i as int), k),
                    ) && self.edges()[k].error_count == sat64(
                        edge_base_err(e0, k) + edge_err(s.take(i as int), k),
                    ) && edge_key_of(self.edges()[k].source, self.edges()[k].target) == k,
                forall|k: Seq<char>|
                    #![trigger e0[k]]
                    e0.contains_key(k) ==> self.edges().contains_key(k) && self.edges()[k].source
                        == e0[k].source && self.edges()[k].target == e0[k].target,
            decreases n - i,
        {
            let ghost pre_s = self.services();
            let ghost pre_e = self.edges();
            proof {
                assert(s[i as int] == spans@[i as int]@);
                assert(s[i as int].wf());
            }
            self.observe_service(&spans[i]);
            proof {
                let x = s[i as int];
                let sn = x.service_name;
                assert forall|nm: Seq<char>| #[trigger] self.services().contains_key(nm) <==> (
                m0.contains_key(nm) || has_service(s.take(i + 1), nm)) by {
                    lemma_has_service_step(s, i as int, nm);
                }
                assert forall|nm: Seq<char>| #[trigger] self.services().contains_key(nm)
                    implies self.services()[nm] == (ServiceStats {
                    name: nm,
                    span_count: sat64(svc_base(m0, nm).span_count + svc_count(s.take(i + 1), nm)),
                    error_count: sat64(svc_base(m0, nm).error_count + svc_err(s.take(i + 1), nm)),
                    total_latency_ns: sat64(
                        svc_base(m0, nm).total_latency_ns + svc_lat(s.take(i + 1), nm),
                    ),
                }) by {
                    lemma_sum_by_step(s, |y: SpanModel| svc_weight(nm, y), i as int);
                    lemma_sum_by_step(s, |y: SpanModel| svc_err_weight(nm, y), i as int);
                    lemma_sum_by_step(s, |y: SpanModel| svc_lat_weight(nm, y), i as int);
                    lemma_has_service_step(s, i as int, nm);
                    if nm == sn {
                        if !pre_s.contains_key(nm) {
                            lemma_svc_weights_zero(s.take(i as int), nm);
                        }
                    }
                }
                // edges untouched by the service pass
                assert(self.edges() =~= pre_e);
            }
            self.observe_edge(&spans[i]);
            proof {
                let x = s[i as int];
                let ghost mid_e = pre_e;
                if span_edge_key(x) is None {
                    assert(self.edges() =~= mid_e);
                }
                assert forall|k: Seq<char>| #[trigger] self.edges().contains_key(k) <==> (
                e0.contains_key(k) || has_edge(s.take(i + 1), k)) by {
                    lemma_has_edge_step(s, i as int, k);
                }
                assert forall|k: Seq<char>| #[trigger] self.edges().contains_key(k)
                    implies self.edges()[k].request_count == sat64(
                    edge_base_req(e0, k) + edge_count(s.take(i + 1), k),
                ) && self.edges()[k].error_count == sat64(
                    edge_base_err(e0, k) + edge_err(s.take(i + 1), k),
                ) && edge_key_of(self.edges()[k].source, self.edges()[k].target) == k by {
                    lemma_sum_by_step(s, |y: SpanModel| edge_weight(k, y), i as int);
                    lemma_sum_by_step(s, |y: SpanModel| edge_err_weight(k, y), i as int);
                    lemma_has_edge_step(s, i as int, k);
                    if span_edge_key(x) == Some(k) {
                        if !mid_e.contains_key(k) {
                            lemma_edge_weights_zero(s.take(i as int), k);
                        }
                    }
                }
                assert forall|k: Seq<char>| #![trigger e0[k]] e0.contains_key(k) implies self.edges(
                ).contains_key(k) && self.edges()[k].source == e0[k].source
                    && self.edges()[k].target == e0[k].target by {
                    lemma_has_edge_step(s, i as int, k);
                    assert(mid_e.contains_key(k));
                    assert(mid_e[k].source == e0[k].source && mid_e[k].target == e0[k].target);
                    if span_edge_key(x) is Some {
                        let k0 = span_edge_key(x)->Some_0;
                        if k == k0 {
                            assert(self.edges().contains_key(k));
                            assert(self.edges()[k].source == mid_e[k].source);
                            assert(self.edges()[k].target == mid_e[k].target);
                        } else {
                            assert(self.edges().contains_key(k) == mid_e.contains_key(k));
                            assert(self.edges()[k] == mid_e[k]);
                        }
                    } else {
                        assert(self.edges() =~= mid_e);
                        assert(self.edges().contains_key(k));
                    }
                }
            }
            i += 1;
        }
        proof {
            assert(s.take(n as int) =~= s);
            assert(final(self).services() =~= services_after(old(self).services(), s));
        }
    }

    /// A snapshot of the service nodes: every retained service exactly
    /// once, each equal to its entry in the map.
    pub fn get_services(&self) -> (r: Vec<ServiceInfo>)
        requires
            self.wf(),
        ensures
            forall|j: int|
                #![trigger r@[j]]
                0 <= j < r@.len() ==> self.services().contains_key(r@[j]@.name) && self.services(
                )[r@[j]@.name] == r@[j]@,
            forall|j1: int, j2: int|
                #![trigger r@[j1], r@[j2]]
                0 <= j1 < j2 < r@.len() ==> r@[j1]@.name != r@[j2]@.name,
            forall|nm: Seq<char>|
                #![trigger self.services()[nm]]
                self.services().contains_key(nm) ==> exists|j: int|
                    0 <= j < r@.len() && #[trigger] r@[j]@.name == nm,
    {
        let n = self.services.len();
        let mut r: Vec<ServiceInfo> = Vec::new();
        let mut i: usize = 0;
        while i < n
            invariant
                n == self.services@.len(),
                self.wf(),
                i <= n,
                r@.len() == i,
                forall|j: int| #![trigger r@[j]] 0 <= j < i ==> r@[j]@ == self.services@[j].1@
                    && r@[j]@.name == self.services@[j].0@,
            decreases n - i,
        {
            let entry = self.services[i].1.clone();
            r.push(entry);
            i += 1;
        }
        proof {
            assert forall|j: int| 0 <= j < r@.len() implies self.services().contains_key(
                #[trigger] r@[j]@.name,
            ) && self.services()[r@[j]@.name] == r@[j]@ by {
                lemma_pair_find_first(self.services@, r@[j]@.name, j);
            }
            assert forall|nm: Seq<char>| self.services().contains_key(nm) implies exists|j: int|
                0 <= j < r@.len() && #[trigger] r@[j]@.name == nm by {
                lemma_pair_find_index(self.services@, nm);
                let j = choose|j: int|
                    0 <= j < self.services@.len() && #[trigger] self.services@[j].0@ == nm;
                assert(r@[j]@.name == nm);
            }
        }
        r
    }

    /// A snapshot of the edges: every retained edge exactly once, each
    /// equal to its entry in the map under its composite key.
    pub fn get_edges(&self) -> (r: Vec<EdgeInfo>)
        requires
            self.wf(),
        ensures
            forall|j: int|
                #![trigger r@[j]]
                0 <= j < r@.len() ==> self.edges().contains_key(
                    edge_key_of(r@[j]@.source, r@[j]@.target),
                ) && self.edges()[edge_key_of(r@[j]@.source, r@[j]@.target)] == r@[j]@,
            forall|j1: int, j2: int|
                #![trigger r@[j1], r@[j2]]
                0 <= j1 < j2 < r@.len() ==> edge_key_of(r@[j1]@.source, r@[j1]@.target)
                    != edge_key_of(r@[j2]@.source, r@[j2]@.target),
            forall|k: Seq<char>|
                #![trigger self.edges()[k]]
                self.edges().contains_key(k) ==> exists|j: int|
                    0 <= j < r@.len() && #[trigger] edge_key_of(r@[j]@.source, r@[j]@.target) == k,
    {
        let n = self.edges.len();
        let mut r: Vec<EdgeInfo> = Vec::new();
        let mut i: usize = 0;
        while i < n
            invariant
                n == self.edges@.len(),
                self.wf(),
                i <= n,
                r@.len() == i,
                forall|j: int| #![trigger r@[j]] 0 <= j < i ==> r@[j]@ == self.edges@[j].1@
                    && edge_key_of(r@[j]@.source, r@[j]@.target) == self.edges@[j].0@,
            decreases n - i,
        {
            let entry = self.edges[i].1.clone();
            r.push(entry);
            i += 1;
        }
        proof {
            assert forall|j: int| 0 <= j < r@.len() implies self.edges().contains_key(
                edge_key_of(#[trigger] r@[j]@.source, r@[j]@.target),
            ) && self.edges()[edge_key_of(r@[j]@.source, r@[j]@.target)] == r@[j]@ by {
                lemma_pair_find_first(self.edges@, edge_key_of(r@[j]@.source, r@[j]@.target), j);
            }
            assert forall|k: Seq<char>| self.edges().contains_key(k) implies exists|j: int|
                0 <= j < r@.len() && #[trigger] edge_key_of(r@[j]@.source, r@[j]@.target) == k by {
                lemma_pair_find_index(self.edges@, k);
                let j = choose|j: int|
                    0 <= j < self.edges@.len() && #[trigger] self.edges@[j].0@ == k;
                assert(edge_key_of(r@[j]@.source, r@[j]@.target) == k);
            }
        }
        r
    }
}

/// A successful scan hands back the value of some entry keyed `k`.
proof fn lemma_pair_find_entry<V>(s: Seq<(String, V)>, k: Seq<char>)
    requires
        pair_find(s, k) is Some,
    ensures
        exists|j: int|
            0 <= j < s.len() && #[trigger] s[j].0@ == k && s[j].1 == pair_find(s, k)->Some_0,
    decreases s.len(),
{
    if s.len() > 0 {
        if s[0].0@ == k {
            assert(s[0].0@ == k && s[0].1 == pair_find(s, k)->Some_0);
        } else {
            lemma_pair_find_entry(s.drop_first(), k);
            let j = choose|j: int|
                0 <= j < s.drop_first().len() && #[trigger] s.drop_first()[j].0@ == k
                    && s.drop_first()[j].1 == pair_find(s.drop_first(), k)->Some_0;
            assert(s[j + 1].0@ == k && s[j + 1].1 == pair_find(s, k)->Some_0);
        }
    }
}

/// A successful scan points at some entry.
proof fn lemma_pair_find_index<V>(s: Seq<(String, V)>, k: Seq<char>)
    requires
        pair_find(s, k) is Some,
    ensures
        exists|j: int| 0 <= j < s.len() && #[trigger] s[j].0@ == k,
    decreases s.len(),
{
    if s.len() > 0 {
        if s[0].0@ == k {
            assert(s[0].0@ == k);
        } else {
            lemma_pair_find_index(s.drop_first(), k);
            let j = choose|j: int|
                0 <= j < s.drop_first().len() && #[trigger] s.drop_first()[j].0@ == k;
            assert(s[j + 1].0@ == k);
        }
    }
}

// ---------------------------------------------------------------------------
// Order insensitivity of the topology counters
// ---------------------------------------------------------------------------

/// Sums are insensitive to the order of the summed batch.
pub proof fn lemma_sum_by_permutation<A>(s1: Seq<A>, s2: Seq<A>, f: spec_fn(A) -> int)
    requires
        s1.to_multiset() == s2.to_multiset(),
    ensures
        sum_by(s1, f) == sum_by(s2, f),
{
    let g = |acc: int, x: A| acc + f(x);
    assert(vstd::seq_lib::commutative_foldl(g)) by {
        assert(forall|x: A, y: A, v: int| #[trigger] g(g(v, x), y) == g(g(v, y), x));
    }
    vstd::seq_lib::lemma_fold_left_permutation(s1, s2, g, 0);
}

/// Two batches with the same spans, in any order, carry the same services
/// and edges.
proof fn lemma_presence_permutation(s1: Seq<SpanModel>, s2: Seq<SpanModel>)
    requires
        s1.to_multiset() == s2.to_multiset(),
    ensures
        forall|n: Seq<char>| #[trigger] has_service(s1, n) == has_service(s2, n),
        forall|k: Seq<char>| #[trigger] has_edge(s1, k) == has_edge(s2, k),
{
    broadcast use vstd::seq_lib::group_to_multiset_ensures;

    assert forall|n: Seq<char>| #[trigger] has_service(s1, n) == has_service(s2, n) by {
        if has_service(s1, n) {
            let i = choose|i: int| 0 <= i < s1.len() && #[trigger] s1[i].service_name == n;
            let x = s1[i];
            assert(s1.contains(x));
            assert(s1.to_multiset().contains(x));
            assert(s2.to_multiset().contains(x));
            assert(s2.contains(x));
            let j = choose|j: int| 0 <= j < s2.len() && s2[j] == x;
            assert(s2[j].service_name == n);
        }
        if has_service(s2, n) {
            let i = choose|i: int| 0 <= i < s2.len() && #[trigger] s2[i].service_name == n;
            let x = s2[i];
            assert(s2.contains(x));
            assert(s2.to_multiset().contains(x));
            assert(s1.to_multiset().contains(x));
            assert(s1.contains(x));
            let j = choose|j: int| 0 <= j < s1.len() && s1[j] == x;
            assert(s1[j].service_name == n);
        }
    }
    assert forall|k: Seq<char>| #[trigger] has_edge(s1, k) == has_edge(s2, k) by {
        if has_edge(s1, k) {
            let i = choose|i: int| 0 <= i < s1.len() && #[trigger] span_edge_key(s1[i]) == Some(k);
            let x = s1[i];
            assert(s1.contains(x));
            assert(s1.to_multiset().contains(x));
            assert(s2.to_multiset().contains(x));
            assert(s2.contains(x));
            let j = choose|j: int| 0 <= j < s2.len() && s2[j] == x;
            assert(span_edge_key(s2[j]) == Some(k));
        }
        if has_edge(s2, k) {
            let i = choose|i: int| 0 <= i < s2.len() && #[trigger] span_edge_key(s2[i]) == Some(k);
            let x = s2[i];
            assert(s2.contains(x));
            assert(s2.to_multiset().contains(x));
            assert(s1.to_multiset().contains(x));
            assert(s1.contains(x));
            let j = choose|j: int| 0 <= j < s1.len() && s1[j] == x;
            assert(span_edge_key(s1[j]) == Some(k));
        }
    }
}

/// Topology discovery is commutative in its counters: two batches holding
/// the same spans as a multiset, fed to the same starting state, leave
/// identical service counters, and identical request and error counters
/// for every edge. Which entry was inserted first may differ; the counts
/// may not.
pub proof fn lemma_topology_counts_commute(
    m: Map<Seq<char>, ServiceStats>,
    s1: Seq<SpanModel>,
    s2: Seq<SpanModel>,
)
    requires
        s1.to_multiset() == s2.to_multiset(),
    ensures
        services_after(m, s1) == services_after(m, s2),
        forall|k: Seq<char>| #[trigger] edge_count(s1, k) == edge_count(s2, k),
        forall|k: Seq<char>| #[trigger] edge_err(s1, k) == edge_err(s2, k),
        forall|k: Seq<char>| #[trigger] has_edge(s1, k) == has_edge(s2, k),
{
    lemma_presence_permutation(s1, s2);
    assert forall|n: Seq<char>| #[trigger] svc_count(s1, n) == svc_count(s2, n) by {
        lemma_sum_by_permutation(s1, s2, |x: SpanModel| svc_weight(n, x));
    }
    assert forall|n: Seq<char>| #[trigger] svc_err(s1, n) == svc_err(s2, n) by {
        lemma_sum_by_permutation(s1, s2, |x: SpanModel| svc_err_weight(n, x));
    }
    assert forall|n: Seq<char>| #[trigger] svc_lat(s1, n) == svc_lat(s2, n) by {
        lemma_sum_by_permutation(s1, s2, |x: SpanModel| svc_lat_weight(n, x));
    }
    assert forall|k: Seq<char>| #[trigger] edge_count(s1, k) == edge_count(s2, k) by {
        lemma_sum_by_permutation(s1, s2, |x: SpanModel| edge_weight(k, x));
    }
    assert forall|k: Seq<char>| #[trigger] edge_err(s1, k) == edge_err(s2, k) by {
        lemma_sum_by_permutation(s1, s2, |x: SpanModel| edge_err_weight(k, x));
    }
    assert(services_after(m, s1) =~= services_after(m, s2));
}

} // verus!
