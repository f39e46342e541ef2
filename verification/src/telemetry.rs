//! The telemetry data model: spans, metrics, log records, batches, and the
//! alerts the analytics emit. Each executable type has a ghost model reached
//! through `View`, and the contracts of the whole crate are stated over those
//! models.
use vstd::prelude::*;

verus! {

// ---------------------------------------------------------------------------
// String-keyed attribute maps
// ---------------------------------------------------------------------------

/// First match of `k` among the key/value pairs of `s`, scanning left to
/// right.
spec fn assoc_get(s: Seq<(String, String)>, k: Seq<char>) -> Option<Seq<char>>
    decreases s.len(),
{
    if s.len() == 0 {
        None
    } else if s[0].0@ == k {
        Some(s[0].1@)
    } else {
        assoc_get(s.drop_first(), k)
    }
}

/// A string-keyed, string-valued attribute map, viewed as a
/// `Map<Seq<char>, Seq<char>>`.
#[derive(Debug)]
pub struct AttrMap {
    entries: Vec<(String, String)>,
}

impl View for AttrMap {
    type V = Map<Seq<char>, Seq<char>>;

    closed spec fn view(&self) -> Map<Seq<char>, Seq<char>> {
        Map::new(
            |k: Seq<char>| assoc_get(self.entries@, k) is Some,
            |k: Seq<char>| assoc_get(self.entries@, k)->Some_0,
        )
    }
}

/// If the first `i` entries do not carry key `k`, the scan may start at `i`.
proof fn lemma_assoc_get_skip(s: Seq<(String, String)>, k: Seq<char>, i: int)
    requires
        0 <= i <= s.len(),
        forall|j: int| #![trigger s[j]] 0 <= j < i ==> s[j].0@ != k,
    ensures
        assoc_get(s, k) == assoc_get(s.skip(i), k),
    decreases i,
{
    if i > 0 {
        assert(s[0].0@ != k);
        lemma_assoc_get_skip(s.drop_first(), k, i - 1);
        assert(s.drop_first().skip(i - 1) =~= s.skip(i));
    } else {
        assert(s.skip(0) =~= s);
    }
}

impl AttrMap {
    pub fn new() -> (m: AttrMap)
        ensures
            m@ == Map::<Seq<char>, Seq<char>>::empty(),
            m.spec_len() == 0,
    {
        let m = AttrMap { entries: Vec::new() };
        proof {
            assert(m@ =~= Map::<Seq<char>, Seq<char>>::empty());
        }
        m
    }

    pub closed spec fn spec_len(&self) -> nat {
        self.entries@.len()
    }

    pub fn len(&self) -> (n: usize)
        ensures
            n == self.spec_len(),
    {
        self.entries.len()
    }

    /// The value under `k`, or `None` when `k` is absent.
    pub fn get<'a>(&'a self, k: &str) -> (r: Option<&'a String>)
        ensures
            match r {
                Some(v) => self@.contains_key(k@) && self@[k@] == v@,
                None => !self@.contains_key(k@),
            },
    {
        let n = self.entries.len();
        let mut i: usize = 0;
        while i < n
            invariant
                n == self.entries@.len(),
                i <= n,
                forall|j: int| #![trigger self.entries@[j]] 0 <= j < i ==> self.entries@[j].0@ != k@,
            decreases n - i,
        {
            if str_eq(self.entries[i].0.as_str(), k) {
                proof {
                    lemma_assoc_get_skip(self.entries@, k@, i as int);
                    assert(self.entries@.skip(i as int)[0] == self.entries@[i as int]);
                }
                return Some(&self.entries[i].1);
            }
            i += 1;
        }
        proof {
            lemma_assoc_get_skip(self.entries@, k@, n as int);
            assert(self.entries@.skip(n as int) =~= Seq::<(String, String)>::empty());
        }
        None
    }

    /// Binds `v` to `k`, replacing any earlier binding.
    pub fn insert(&mut self, k: String, v: String)
        ensures
            final(self)@ == old(self)@.insert(k@, v@),
    {
        let ghost pre = self.entries@;
        let n = self.entries.len();
        let mut i: usize = 0;
        while i < n
            invariant
                n == self.entries@.len(),
                i <= n,
                self.entries@ == pre,
                pre == old(self).entries@,
                forall|j: int| #![trigger self.entries@[j]] 0 <= j < i ==> self.entries@[j].0@ != k@,
            decreases n - i,
        {
            if str_eq(self.entries[i].0.as_str(), k.as_str()) {
                let ghost kv = k@;
                let ghost vv = v@;
                self.entries[i] = (k, v);
                proof {
                    lemma_insert_overwrite(pre, self.entries@, kv, i as int);
                    assert(self.entries@[i as int].1@ == vv);
                    assert(assoc_get(self.entries@, kv) == Some(vv));
                    assert(old(self).entries@ == pre);
                    assert forall|q: Seq<char>| #[trigger] self@.contains_key(q)
                        == old(self)@.insert(kv, vv).contains_key(q) && (self@.contains_key(q)
                        ==> self@[q] == old(self)@.insert(kv, vv)[q]) by {
                        if q != kv {
                            assert(assoc_get(self.entries@, q) == assoc_get(pre, q));
                        }
                    }
                    assert(self@ =~= old(self)@.insert(kv, vv));
                }
                return ;
            }
            i += 1;
        }
        let ghost kv = k@;
        let ghost vv = v@;
        self.entries.push((k, v));
        proof {
            lemma_insert_append(pre, self.entries@, kv);
            assert(self@ =~= old(self)@.insert(kv, vv));
        }
    }

    /// A deep copy with the same view.
    pub fn duplicate(&self) -> (r: AttrMap)
        ensures
            r@ == self@,
            r.spec_len() == self.spec_len(),
    {
        let n = self.entries.len();
        let mut out: Vec<(String, String)> = Vec::new();
        let mut i: usize = 0;
        while i < n
            invariant
                n == self.entries@.len(),
                i <= n,
                out@.len() == i,
                forall|j: int|
                    #![trigger out@[j]]
                    0 <= j < i ==> out@[j].0@ == self.entries@[j].0@ && out@[j].1@
                        == self.entries@[j].1@,
            decreases n - i,
        {
            let k = self.entries[i].0.clone();
            let v = self.entries[i].1.clone();
            out.push((k, v));
            i += 1;
        }
        let r = AttrMap { entries: out };
        proof {
            lemma_assoc_get_congruent(r.entries@, self.entries@);
            assert(r@ =~= self@);
        }
        r
    }
}

impl Clone for AttrMap {
    fn clone(&self) -> (r: AttrMap)
        ensures
            r@ == self@,
    {
        self.duplicate()
    }
}

/// Keys and values equal position by position means equal scans.
proof fn lemma_assoc_get_congruent(a: Seq<(String, String)>, b: Seq<(String, String)>)
    requires
        a.len() == b.len(),
        forall|j: int| #![trigger a[j]] 0 <= j < a.len() ==> a[j].0@ == b[j].0@ && a[j].1@ == b[j].1@,
    ensures
        forall|k: Seq<char>| #[trigger] assoc_get(a, k) == assoc_get(b, k),
    decreases a.len(),
{
    if a.len() > 0 {
        assert(forall|j: int|
            #![trigger a.drop_first()[j]]
            0 <= j < a.drop_first().len() ==> a.drop_first()[j] == a[j + 1]);
        lemma_assoc_get_congruent(a.drop_first(), b.drop_first());
        assert forall|k: Seq<char>| #[trigger] assoc_get(a, k) == assoc_get(b, k) by {
            assert(assoc_get(a.drop_first(), k) == assoc_get(b.drop_first(), k));
            assert(a[0].0@ == b[0].0@ && a[0].1@ == b[0].1@);
        }
    }
}

/// Replacing the first entry that carries `k` rebinds `k` and nothing else.
proof fn lemma_insert_overwrite(
    pre: Seq<(String, String)>,
    post: Seq<(String, String)>,
    k: Seq<char>,
    i: int,
)
    requires
        0 <= i < pre.len(),
        pre[i].0@ == k,
        forall|j: int| #![trigger pre[j]] 0 <= j < i ==> pre[j].0@ != k,
        post.len() == pre.len(),
        post[i].0@ == k,
        forall|j: int| #![trigger post[j]] 0 <= j < post.len() && j != i ==> post[j] == pre[j],
    ensures
        assoc_get(post, k) == Some(post[i].1@),
        forall|q: Seq<char>| q != k ==> #[trigger] assoc_get(post, q) == assoc_get(pre, q),
{
    assert(forall|j: int| #![trigger post[j]] 0 <= j < i ==> post[j].0@ != k);
    lemma_assoc_get_skip(post, k, i);
    assert(post.skip(i)[0] == post[i]);
    assert forall|q: Seq<char>| q != k implies #[trigger] assoc_get(post, q) == assoc_get(
        pre,
        q,
    ) by {
        lemma_assoc_get_agree_except(pre, post, k, q, 0);
        assert(post.skip(0) =~= post);
        assert(pre.skip(0) =~= pre);
    }
}

/// Scans for a key other than `k` agree when the two sequences differ only in
/// entries whose key is `k`.
proof fn lemma_assoc_get_agree_except(
    pre: Seq<(String, String)>,
    post: Seq<(String, String)>,
    k: Seq<char>,
    q: Seq<char>,
    from: int,
)
    requires
        post.len() >= pre.len(),
        forall|j: int| #![trigger post[j]] pre.len() <= j < post.len() ==> post[j].0@ == k,
        forall|j: int| #![trigger post[j]] 0 <= j < pre.len() ==> post[j] == pre[j] || (post[j].0@
            == k && pre[j].0@ == k),
        q != k,
        0 <= from <= pre.len(),
    ensures
        assoc_get(post.skip(from), q) == assoc_get(pre.skip(from), q),
    decreases post.len() - from,
{
    if from < pre.len() {
        assert(pre.skip(from)[0] == pre[from]);
        assert(post.skip(from)[0] == post[from]);
        assert(pre.skip(from).drop_first() =~= pre.skip(from + 1));
        assert(post.skip(from).drop_first() =~= post.skip(from + 1));
        lemma_assoc_get_agree_except(pre, post, k, q, from + 1);
    } else {
        assert(pre.skip(from) =~= Seq::<(String, String)>::empty());
        lemma_assoc_get_all_k(post, k, q, from);
    }
}

/// A scan for `q != k` over entries all keyed `k` finds nothing.
proof fn lemma_assoc_get_all_k(post: Seq<(String, String)>, k: Seq<char>, q: Seq<char>, from: int)
    requires
        forall|j: int| #![trigger post[j]] from <= j < post.len() ==> post[j].0@ == k,
        q != k,
        0 <= from <= post.len(),
    ensures
        assoc_get(post.skip(from), q) is None,
    decreases post.len() - from,
{
    if from < post.len() {
        assert(post.skip(from)[0] == post[from]);
        assert(post.skip(from).drop_first() =~= post.skip(from + 1));
        lemma_assoc_get_all_k(post, k, q, from + 1);
    } else {
        assert(post.skip(from) =~= Seq::<(String, String)>::empty());
    }
}

/// Appending an entry for an absent key binds that key and nothing else.
proof fn lemma_insert_append(pre: Seq<(String, String)>, post: Seq<(String, String)>, k: Seq<char>)
    requires
        forall|j: int| #![trigger pre[j]] 0 <= j < pre.len() ==> pre[j].0@ != k,
        post.len() == pre.len() + 1,
        post[post.len() - 1].0@ == k,
        forall|j: int| #![trigger post[j]] 0 <= j < pre.len() ==> post[j] == pre[j],
    ensures
        assoc_get(post, k) == Some(post[post.len() - 1].1@),
        forall|q: Seq<char>| q != k ==> #[trigger] assoc_get(post, q) == assoc_get(pre, q),
{
    let last = post.len() - 1;
    assert(forall|j: int| #![trigger post[j]] 0 <= j < last ==> post[j].0@ != k);
    lemma_assoc_get_skip(post, k, last);
    assert(post.skip(last)[0] == post[last]);
    assert forall|q: Seq<char>| q != k implies #[trigger] assoc_get(post, q) == assoc_get(
        pre,
        q,
    ) by {
        lemma_assoc_get_agree_except(pre, post, k, q, 0);
        assert(post.skip(0) =~= post);
        assert(pre.skip(0) =~= pre);
    }
}

/// Character-for-character equality of two string slices.
pub fn str_eq(a: &str, b: &str) -> (r: bool)
    ensures
        r == (a@ == b@),
{
    let sa = a.to_owned();
    let sb = b.to_owned();
    sa == sb
}

// ---------------------------------------------------------------------------
// Spans
// ---------------------------------------------------------------------------

/// Outcome of a span: success, or failure with a reason.
#[derive(Debug)]
pub enum SpanStatus {
    Okay,
    Error(String),
}

pub ghost enum SpanStatusModel {
    Okay,
    Error(Seq<char>),
}

impl View for SpanStatus {
    type V = SpanStatusModel;

    open spec fn view(&self) -> SpanStatusModel {
        match self {
            SpanStatus::Okay => SpanStatusModel::Okay,
            SpanStatus::Error(reason) => SpanStatusModel::Error(reason@),
        }
    }
}

impl Clone for SpanStatus {
    fn clone(&self) -> (r: SpanStatus)
        ensures
            r@ == self@,
    {
        match self {
            SpanStatus::Okay => SpanStatus::Okay,
            SpanStatus::Error(reason) => SpanStatus::Error(reason.clone()),
        }
    }
}

/// One timed operation within a distributed trace. Immutable once created;
/// timestamps are nanosecond-scale with `end_time >= start_time`.
#[derive(Debug)]
pub struct Span {
    pub trace_id: String,
    pub span_id: String,
    pub parent_span_id: Option<String>,
    pub operation_name: String,
    pub service_name: String,
    pub start_time: i64,
    pub end_time: i64,
    pub status: SpanStatus,
    pub attributes: AttrMap,
}

pub ghost struct SpanModel {
    pub trace_id: Seq<char>,
    pub span_id: Seq<char>,
    pub parent_span_id: Option<Seq<char>>,
    pub operation_name: Seq<char>,
    pub service_name: Seq<char>,
    pub start_time: int,
    pub end_time: int,
    pub status: SpanStatusModel,
    pub attributes: Map<Seq<char>, Seq<char>>,
}

impl SpanModel {
    /// A span is well formed when it ends no earlier than it starts.
    pub open spec fn wf(self) -> bool {
        self.start_time <= self.end_time
    }

    /// Nanoseconds between start and end.
    pub open spec fn latency(self) -> int {
        self.end_time - self.start_time
    }

    pub open spec fn is_error(self) -> bool {
        self.status is Error
    }
}

impl View for Span {
    type V = SpanModel;

    open spec fn view(&self) -> SpanModel {
        SpanModel {
            trace_id: self.trace_id@,
            span_id: self.span_id@,
            parent_span_id: match self.parent_span_id {
                Some(p) => Some(p@),
                None => None,
            },
            operation_name: self.operation_name@,
            service_name: self.service_name@,
            start_time: self.start_time as int,
            end_time: self.end_time as int,
            status: self.status@,
            attributes: self.attributes@,
        }
    }
}

impl Clone for Span {
    fn clone(&self) -> (r: Span)
        ensures
            r@ == self@,
    {
        Span {
            trace_id: self.trace_id.clone(),
            span_id: self.span_id.clone(),
            parent_span_id: match &self.parent_span_id {
                Some(p) => Some(p.clone()),
                None => None,
            },
            operation_name: self.operation_name.clone(),
            service_name: self.service_name.clone(),
            start_time: self.start_time,
            end_time: self.end_time,
            status: self.status.clone(),
            attributes: self.attributes.duplicate(),
        }
    }
}

/// The models of a sequence of spans.
pub open spec fn spans_model(s: Seq<Span>) -> Seq<SpanModel> {
    s.map_values(|x: Span| x@)
}

/// Every span of the sequence is well formed.
pub open spec fn spans_wf(s: Seq<SpanModel>) -> bool {
    forall|i: int| 0 <= i < s.len() ==> #[trigger] s[i].wf()
}

// ---------------------------------------------------------------------------
// Metrics
// ---------------------------------------------------------------------------

/// The sampling discipline of a metric.
#[derive(Debug, Clone, Copy, PartialEq, Eq, Structural)]
pub enum MetricType {
    Counter,
    Gauge,
    Histogram,
    Summary,
}

/// One numeric measurement. Values are fixed-point thousandths
/// (`value_milli = 1500` means 1.5), which keeps the anomaly arithmetic
/// exact.
#[derive(Debug)]
pub struct Metric {
    pub name: String,
    pub value_milli: i64,
    pub timestamp: i64,
    pub labels: AttrMap,
    pub metric_type: MetricType,
}

pub ghost struct MetricModel {
    pub name: Seq<char>,
    pub value_milli: int,
    pub timestamp: int,
    pub labels: Map<Seq<char>, Seq<char>>,
    pub metric_type: MetricType,
}

impl View for Metric {
    type V = MetricModel;

    open spec fn view(&self) -> MetricModel {
        MetricModel {
            name: self.name@,
            value_milli: self.value_milli as int,
            timestamp: self.timestamp as int,
            labels: self.labels@,
            metric_type: self.metric_type,
        }
    }
}

impl Clone for Metric {
    fn clone(&self) -> (r: Metric)
        ensures
            r@ == self@,
    {
        Metric {
            name: self.name.clone(),
            value_milli: self.value_milli,
            timestamp: self.timestamp,
            labels: self.labels.duplicate(),
            metric_type: self.metric_type,
        }
    }
}

/// The models of a sequence of metrics.
pub open spec fn metrics_model(s: Seq<Metric>) -> Seq<MetricModel> {
    s.map_values(|x: Metric| x@)
}

// ---------------------------------------------------------------------------
// Log records
// ---------------------------------------------------------------------------

/// One log line, optionally linked to a trace and span.
#[derive(Debug)]
pub struct LogRecord {
    pub timestamp: i64,
    pub severity: String,
    pub body: String,
    pub trace_id: Option<String>,
    pub span_id: Option<String>,
    pub attributes: AttrMap,
}

pub ghost struct LogRecordModel {
    pub timestamp: int,
    pub severity: Seq<char>,
    pub body: Seq<char>,
    pub trace_id: Option<Seq<char>>,
    pub span_id: Option<Seq<char>>,
    pub attributes: Map<Seq<char>, Seq<char>>,
}

impl View for LogRecord {
    type V = LogRecordModel;

    open spec fn view(&self) -> LogRecordModel {
        LogRecordModel {
            timestamp: self.timestamp as int,
            severity: self.severity@,
            body: self.body@,
            trace_id: match self.trace_id {
                Some(t) => Some(t@),
                None => None,
            },
            span_id: match self.span_id {
                Some(t) => Some(t@),
                None => None,
            },
            attributes: self.attributes@,
        }
    }
}

impl Clone for LogRecord {
    fn clone(&self) -> (r: LogRecord)
        ensures
            r@ == self@,
    {
        LogRecord {
            timestamp: self.timestamp,
            severity: self.severity.clone(),
            body: self.body.clone(),
            trace_id: match &self.trace_id {
                Some(t) => Some(t.clone()),
                None => None,
            },
            span_id: match &self.span_id {
                Some(t) => Some(t.clone()),
                None => None,
            },
            attributes: self.attributes.duplicate(),
        }
    }
}

/// The models of a sequence of log records.
pub open spec fn logs_model(s: Seq<LogRecord>) -> Seq<LogRecordModel> {
    s.map_values(|x: LogRecord| x@)
}

// ---------------------------------------------------------------------------
// Batches
// ---------------------------------------------------------------------------

/// One unit of pipeline dispatch: a batch holding exactly one kind of
/// telemetry.
#[derive(Debug)]
pub enum TelemetryData {
    Traces(Vec<Span>),
    Metrics(Vec<Metric>),
    Logs(Vec<LogRecord>),
}

pub ghost enum TelemetryDataModel {
    Traces(Seq<SpanModel>),
    Metrics(Seq<MetricModel>),
    Logs(Seq<LogRecordModel>),
}

impl View for TelemetryData {
    type V = TelemetryDataModel;

    open spec fn view(&self) -> TelemetryDataModel {
        match self {
            TelemetryData::Traces(spans) => TelemetryDataModel::Traces(spans_model(spans@)),
            TelemetryData::Metrics(metrics) => TelemetryDataModel::Metrics(metrics_model(metrics@)),
            TelemetryData::Logs(logs) => TelemetryDataModel::Logs(logs_model(logs@)),
        }
    }
}

/// Every span of a trace batch is well formed; other batches carry no
/// timing obligation.
pub open spec fn batch_wf(b: TelemetryDataModel) -> bool {
    match b {
        TelemetryDataModel::Traces(spans) => spans_wf(spans),
        TelemetryDataModel::Metrics(_) => true,
        TelemetryDataModel::Logs(_) => true,
    }
}

// ---------------------------------------------------------------------------
// Alerts
// ---------------------------------------------------------------------------

/// How grave an alert is.
#[derive(Debug, Clone, Copy, PartialEq, Eq, Structural)]
pub enum AlertSeverity {
    Info,
    Warning,
    Critical,
}

/// A finding of the anomaly detector, immutable after creation. The id is
/// globally unique and the timestamp is wall-clock milliseconds at emission.
#[derive(Debug)]
pub struct Alert {
    pub id: String,
    pub name: String,
    pub severity: AlertSeverity,
    pub message: String,
    pub timestamp: i64,
    pub labels: AttrMap,
}

pub ghost struct AlertModel {
    pub id: Seq<char>,
    pub name: Seq<char>,
    pub severity: AlertSeverity,
    pub message: Seq<char>,
    pub timestamp: int,
    pub labels: Map<Seq<char>, Seq<char>>,
}

impl View for Alert {
    type V = AlertModel;

    open spec fn view(&self) -> AlertModel {
        AlertModel {
            id: self.id@,
            name: self.name@,
            severity: self.severity,
            message: self.message@,
            timestamp: self.timestamp as int,
            labels: self.labels@,
        }
    }
}

impl Clone for Alert {
    fn clone(&self) -> (r: Alert)
        ensures
            r@ == self@,
    {
        Alert {
            id: self.id.clone(),
            name: self.name.clone(),
            severity: self.severity,
            message: self.message.clone(),
            timestamp: self.timestamp,
            labels: self.labels.duplicate(),
        }
    }
}

} // verus!
