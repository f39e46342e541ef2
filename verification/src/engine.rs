//! The stream engine: a bounded ingestion queue, the fixed dispatch of
//! each batch through trace correlation, topology discovery and anomaly
//! detection, the unconditional durable write, and the publication of any
//! alert to the fan-out. Batches are processed strictly one at a time, in
//! arrival order, and never partially applied.
use vstd::prelude::*;

use crate::QueueFull;
use crate::analytics::{
    AnomalyDetector, MetricBaseline, TopologyDiscovery, TraceCorrelator, TraceSignal, edges_grown,
    first_anomaly, is_anomaly_alert, is_error_rate_alert, is_latency_alert, retain_live,
    services_after, trace_signal, window_ingest,
};
use crate::config::Config;
use crate::fanout::AlertBus;
use crate::sinks::{StorageSink, sat_inc};
use crate::telemetry::{
    Alert, AlertModel, SpanModel, TelemetryData, TelemetryDataModel, batch_wf,
};

verus! {

/// How many batches the ingestion queue holds before `submit` pushes back.
pub const QUEUE_CAPACITY: usize = 10000;

/// How many alerts each fan-out subscriber may fall behind.
pub const ALERT_BUFFER_CAPACITY: usize = 1000;

pub open spec fn opt_model(r: Option<Alert>) -> Option<AlertModel> {
    match r {
        Some(a) => Some(a@),
        None => None,
    }
}

/// What one batch does to the trace window: when correlation runs, the
/// batch is folded in and expired traces are swept at some wall-clock
/// cutoff.
pub open spec fn correlator_effect(
    pre: Option<TraceCorrelator>,
    post: Option<TraceCorrelator>,
    s: Seq<SpanModel>,
) -> bool {
    match (pre, post) {
        (Some(c0), Some(c1)) => {
            &&& c1.wf()
            &&& c1.spec_window_seconds() == c0.spec_window_seconds()
            &&& exists|cutoff_ms: int|
                c1.window() == #[trigger] retain_live(window_ingest(c0.window(), s), cutoff_ms)
        },
        (None, None) => true,
        _ => false,
    }
}

/// What one batch does to the topology: when discovery runs, service and
/// edge counters grow by exactly the batch's share.
pub open spec fn topology_effect(
    pre: Option<TopologyDiscovery>,
    post: Option<TopologyDiscovery>,
    s: Seq<SpanModel>,
) -> bool {
    match (pre, post) {
        (Some(t0), Some(t1)) => {
            &&& t1.wf()
            &&& t1.services() == services_after(t0.services(), s)
            &&& edges_grown(t0.edges(), t1.edges(), s)
        },
        (None, None) => true,
        _ => false,
    }
}

/// What one batch does to the durable write counters: exactly one attempt
/// on the path matching the batch's variant.
pub open spec fn storage_effect(
    pre: Option<StorageSink>,
    post: Option<StorageSink>,
    batch: TelemetryDataModel,
) -> bool {
    match (pre, post) {
        (Some(s0), Some(s1)) => {
            &&& match batch {
                TelemetryDataModel::Traces(_) => s1.written_traces == sat_inc(
                    s0.written_traces as int,
                ) && s1.written_metrics == s0.written_metrics && s1.written_logs == s0.written_logs,
                TelemetryDataModel::Metrics(_) => s1.written_metrics == sat_inc(
                    s0.written_metrics as int,
                ) && s1.written_traces == s0.written_traces && s1.written_logs == s0.written_logs,
                TelemetryDataModel::Logs(_) => s1.written_logs == sat_inc(s0.written_logs as int)
                    && s1.written_traces == s0.written_traces && s1.written_metrics
                    == s0.written_metrics,
            }
        },
        (None, None) => true,
        _ => false,
    }
}

/// The alert the detector owes one batch, or `None` when the detector is
/// off or the batch carries no signal.
pub open spec fn detector_verdict(
    detector: Option<AnomalyDetector>,
    batch: TelemetryDataModel,
    r: Option<AlertModel>,
) -> bool {
    match detector {
        None => r is None,
        Some(d) => match batch {
            TelemetryDataModel::Traces(s) => match trace_signal(s) {
                TraceSignal::ErrorRate => r is Some && is_error_rate_alert(r->Some_0, s),
                TraceSignal::Latency => r is Some && is_latency_alert(r->Some_0, s),
                TraceSignal::Quiet => r is None,
            },
            TelemetryDataModel::Metrics(ms) => {
                let bs = d.baselines();
                let i = first_anomaly(bs, ms);
                if i < ms.len() {
                    r is Some && is_anomaly_alert(r->Some_0, ms[i], bs[ms[i].name])
                } else {
                    r is None
                }
            },
            TelemetryDataModel::Logs(_) => r is None,
        },
    }
}

/// Any alert is published to the fan-out exactly once; otherwise the
/// fan-out is untouched.
pub open spec fn publish_effect(pre: AlertBus, post: AlertBus, r: Option<AlertModel>) -> bool {
    &&& post.spec_capacity() == pre.spec_capacity()
    &&& post.num_subscribers() == pre.num_subscribers()
    &&& forall|i: int| 0 <= i < pre.num_subscribers() ==> #[trigger] post.cursor(i) == pre.cursor(i)
    &&& match r {
        Some(a) => {
            &&& post.published() == pre.published() + 1
            &&& post.buffered() == (if pre.buffered().len() < pre.spec_capacity() {
                pre.buffered().push(a)
            } else {
                pre.buffered().drop_first().push(a)
            })
        },
        None => post.published() == pre.published() && post.buffered() == pre.buffered(),
    }
}

/// Everything one batch does to the engine: analytics on the matching
/// variant, the verdict returned and published, the durable write, and
/// nothing else touched.
pub open spec fn batch_effect(
    pre: StreamEngine,
    post: StreamEngine,
    batch: TelemetryDataModel,
    r: Option<AlertModel>,
) -> bool {
    &&& post.config == pre.config
    &&& (post.anomaly_detector is Some <==> pre.anomaly_detector is Some)
    &&& (pre.anomaly_detector is Some ==> post.anomaly_detector->Some_0.baselines()
        == pre.anomaly_detector->Some_0.baselines())
    &&& match batch {
        TelemetryDataModel::Traces(s) => correlator_effect(
            pre.trace_correlator,
            post.trace_correlator,
            s,
        ) && topology_effect(pre.topology_discovery, post.topology_discovery, s),
        TelemetryDataModel::Metrics(_) => post.trace_correlator == pre.trace_correlator
            && post.topology_discovery == pre.topology_discovery,
        TelemetryDataModel::Logs(_) => post.trace_correlator == pre.trace_correlator
            && post.topology_discovery == pre.topology_discovery,
    }
    &&& detector_verdict(pre.anomaly_detector, batch, r)
    &&& publish_effect(pre.alert_bus, post.alert_bus, r)
    &&& storage_effect(pre.storage_sink, post.storage_sink, batch)
}

/// The engine: the ingestion queue, the analytics and sinks it owns, and
/// the alert fan-out. All per-batch state is owned here and mutated only
/// by batch processing.
pub struct StreamEngine {
    pub config: Config,
    pub queue: Vec<TelemetryData>,
    pub alert_bus: AlertBus,
    pub anomaly_detector: Option<AnomalyDetector>,
    pub trace_correlator: Option<TraceCorrelator>,
    pub topology_discovery: Option<TopologyDiscovery>,
    pub storage_sink: Option<StorageSink>,
}

impl StreamEngine {
    pub open spec fn wf(&self) -> bool {
        &&& self.alert_bus.wf()
        &&& (self.trace_correlator is Some ==> self.trace_correlator->Some_0.wf())
        &&& (self.topology_discovery is Some ==> self.topology_discovery->Some_0.wf())
        &&& forall|i: int| 0 <= i < self.queue@.len() ==> batch_wf(#[trigger] self.queue@[i]@)
    }

    /// An engine with an empty queue, a fresh fan-out and no components
    /// yet; `build_pipeline` installs the configured stages.
    pub fn new(config: Config) -> (e: StreamEngine)
        ensures
            e.wf(),
            e.config == config,
            e.queue@.len() == 0,
            e.alert_bus.published() == 0,
            e.alert_bus.num_subscribers() == 0,
            e.alert_bus.spec_capacity() == ALERT_BUFFER_CAPACITY as int,
            e.anomaly_detector is None,
            e.trace_correlator is None,
            e.topology_discovery is None,
            e.storage_sink is None,
    {
        StreamEngine {
            config,
            queue: Vec::new(),
            alert_bus: AlertBus::new(ALERT_BUFFER_CAPACITY),
            anomaly_detector: None,
            trace_correlator: None,
            topology_discovery: None,
            storage_sink: None,
        }
    }

    /// Installs the analytics the configuration enables, each with fresh
    /// state, and the storage sink; the queue and fan-out are untouched.
    pub fn build_pipeline(&mut self)
        requires
            old(self).wf(),
        ensures
            final(self).wf(),
            final(self).config == old(self).config,
            final(self).queue@ == old(self).queue@,
            final(self).alert_bus == old(self).alert_bus,
            old(self).config.analytics.anomaly_detection.enabled ==> final(self).anomaly_detector
                is Some && final(self).anomaly_detector->Some_0.baselines() == Map::<
                Seq<char>,
                MetricBaseline,
            >::empty(),
            !old(self).config.analytics.anomaly_detection.enabled ==> final(self).anomaly_detector
                == old(self).anomaly_detector,
            old(self).config.analytics.trace_correlation.enabled ==> final(self).trace_correlator
                is Some && final(self).trace_correlator->Some_0.window() == Map::<
                Seq<char>,
                Seq<SpanModel>,
            >::empty() && final(self).trace_correlator->Some_0.spec_window_seconds() == old(self).config.analytics.trace_correlation.window_seconds,
            !old(self).config.analytics.trace_correlation.enabled ==> final(self).trace_correlator
                == old(self).trace_correlator,
            old(self).config.analytics.topology_discovery.enabled ==> final(self).topology_discovery is Some && final(self).topology_discovery->Some_0.services()
                == Map::<Seq<char>, crate::analytics::ServiceStats>::empty() && final(self).topology_discovery->Some_0.edges() == Map::<
                Seq<char>,
                crate::analytics::EdgeStats,
            >::empty(),
            !old(self).config.analytics.topology_discovery.enabled ==> final(self).topology_discovery == old(self).topology_discovery,
            final(self).storage_sink is Some && final(self).storage_sink->Some_0.written_traces
                == 0 && final(self).storage_sink->Some_0.written_metrics == 0 && final(self).storage_sink->Some_0.written_logs == 0,
    {
        if self.config.analytics.anomaly_detection.enabled {
            self.anomaly_detector = Some(AnomalyDetector::new(&self.config.analytics.anomaly_detection));
        }
        if self.config.analytics.trace_correlation.enabled {
            self.trace_correlator = Some(TraceCorrelator::new(&self.config.analytics.trace_correlation));
        }
        if self.config.analytics.topology_discovery.enabled {
            self.topology_discovery = Some(TopologyDiscovery::new(&self.config.analytics.topology_discovery));
        }
        self.storage_sink = Some(StorageSink::new(&self.config.sinks.storage));
    }

    /// Seeds or replaces one metric baseline in the anomaly detector, when
    /// one is installed. Baselines come from outside; the detector never
    /// learns them from traffic.
    pub fn set_metric_baseline(&mut self, name: String, baseline: MetricBaseline)
        requires
            old(self).wf(),
        ensures
            final(self).wf(),
            final(self).config == old(self).config,
            final(self).queue@ == old(self).queue@,
            final(self).alert_bus == old(self).alert_bus,
            final(self).trace_correlator == old(self).trace_correlator,
            final(self).topology_discovery == old(self).topology_discovery,
            final(self).storage_sink == old(self).storage_sink,
            old(self).anomaly_detector is Some ==> final(self).anomaly_detector is Some && final(self).anomaly_detector->Some_0.baselines() == old(self).anomaly_detector->Some_0.baselines().insert(name@, baseline),
            old(self).anomaly_detector is None ==> final(self).anomaly_detector is None,
    {
        if let Some(d) = &mut self.anomaly_detector {
            d.set_baseline(name, baseline);
        }
    }

    /// Enqueues one batch, the system's only backpressure point: a full
    /// queue rejects the batch and the caller must retry or drop it.
    pub fn submit(&mut self, data: TelemetryData) -> (r: Result<(), QueueFull>)
        requires
            old(self).wf(),
            batch_wf(data@),
        ensures
            final(self).wf(),
            old(self).queue@.len() >= QUEUE_CAPACITY ==> r is Err && *final(self) == *old(self),
            old(self).queue@.len() < QUEUE_CAPACITY ==> r is Ok && final(self).queue@ == old(self).queue@.push(data) && final(self).config == old(self).config && final(self).alert_bus
                == old(self).alert_bus && final(self).anomaly_detector == old(self).anomaly_detector && final(self).trace_correlator == old(self).trace_correlator
                && final(self).topology_discovery == old(self).topology_discovery && final(self).storage_sink == old(self).storage_sink,
    {
        if self.queue.len() >= QUEUE_CAPACITY {
            return Err(QueueFull);
        }
        self.queue.push(data);
        Ok(())
    }

    /// Routes one batch through the pipeline in the fixed order:
    /// correlation and topology (traces only), anomaly detection, the
    /// durable write, and the publication of any alert. The batch is never
    /// partially applied, and the produced alert is both published and
    /// returned.
    pub fn process_data(&mut self, data: &TelemetryData) -> (r: Option<Alert>)
        requires
            old(self).wf(),
            batch_wf(data@),
            old(self).alert_bus.published() < u64::MAX,
        ensures
            final(self).wf(),
            final(self).queue@ == old(self).queue@,
            batch_effect(*old(self), *final(self), data@, opt_model(r)),
    {
        let mut produced: Option<Alert> = None;
        match data {
            TelemetryData::Traces(spans) => {
                if let Some(c) = &mut self.trace_correlator {
                    c.process(spans);
                }
                if let Some(t) = &mut self.topology_discovery {
                    t.process(spans);
                }
                if let Some(d) = &self.anomaly_detector {
                    produced = d.check_traces(spans);
                }
            },
            TelemetryData::Metrics(metrics) => {
                if let Some(d) = &self.anomaly_detector {
                    produced = d.check_metrics(metrics);
                }
            },
            TelemetryData::Logs(_) => {},
        }
        if let Some(sink) = &mut self.storage_sink {
            let _written = sink.write(data);
        }
        if let Some(a) = &produced {
            self.alert_bus.publish(a.clone());
        }
        produced
    }

    /// Takes the oldest queued batch, if any, and processes it to
    /// completion: `None` when the queue is empty, otherwise the verdict
    /// of the processed batch. Queued batches leave in arrival order.
    pub fn step(&mut self) -> (r: Option<Option<Alert>>)
        requires
            old(self).wf(),
            old(self).alert_bus.published() < u64::MAX,
        ensures
            final(self).wf(),
            old(self).queue@.len() == 0 ==> r is None && *final(self) == *old(self),
            old(self).queue@.len() > 0 ==> r is Some && final(self).queue@ == old(self).queue@.drop_first() && batch_effect(
                *old(self),
                *final(self),
                old(self).queue@[0]@,
                opt_model(r->Some_0),
            ),
    {
        if self.queue.len() == 0 {
            return None;
        }
        let batch = self.queue.remove(0);
        proof {
            assert(self.queue@ =~= old(self).queue@.drop_first());
        }
        let verdict = self.process_data(&batch);
        Some(verdict)
    }
}

} // verus!
