use stream_processor::analytics::MetricBaseline;
use stream_processor::config::Config;
use stream_processor::engine::{StreamEngine, QUEUE_CAPACITY};
use stream_processor::fanout::RecvOutcome;
use stream_processor::telemetry::{
    AlertSeverity, AttrMap, Metric, MetricType, Span, SpanStatus, TelemetryData,
};

fn span(id: &str, error: bool) -> Span {
    Span {
        trace_id: "trace-1".to_string(),
        span_id: id.to_string(),
        parent_span_id: None,
        operation_name: "op".to_string(),
        service_name: "svc".to_string(),
        start_time: 0,
        end_time: 100,
        status: if error {
            SpanStatus::Error("boom".to_string())
        } else {
            SpanStatus::Okay
        },
        attributes: AttrMap::new(),
    }
}

fn engine() -> StreamEngine {
    let mut e = StreamEngine::new(Config::defaults());
    e.build_pipeline();
    e
}

#[test]
fn traces_batch_writes_once_and_broadcasts_one_critical_alert() {
    let mut e = engine();
    let sub = e.alert_bus.subscribe();

    let mut spans = Vec::new();
    for i in 0..10 {
        spans.push(span(&format!("s{}", i), i < 2));
    }
    e.submit(TelemetryData::Traces(spans)).expect("queue must accept");
    let verdict = e.step().expect("one batch was queued");
    let alert = verdict.expect("20% error rate must alert");
    assert_eq!(alert.name, "High Error Rate");
    assert!(matches!(alert.severity, AlertSeverity::Critical));
    assert!(alert.message.contains("20.0%"));

    let sink = e.storage_sink.as_ref().unwrap();
    assert_eq!(sink.written_traces, 1);
    assert_eq!(sink.written_metrics, 0);

    match e.alert_bus.try_recv(sub) {
        RecvOutcome::Received(a) => {
            assert_eq!(a.id, alert.id);
            assert_eq!(a.name, "High Error Rate");
        },
        _ => panic!("exactly one alert must be broadcast"),
    }
    assert!(matches!(e.alert_bus.try_recv(sub), RecvOutcome::Empty));
}

#[test]
fn metrics_batch_scores_against_the_seeded_baseline() {
    let mut e = engine();
    let sub = e.alert_bus.subscribe();
    e.set_metric_baseline(
        "cpu".to_string(),
        MetricBaseline { mean_milli: 50_000, std_dev_milli: 10_000, count: 10 },
    );
    let batch = TelemetryData::Metrics(vec![Metric {
        name: "cpu".to_string(),
        value_milli: 95_000,
        timestamp: 1_700_000_000_000,
        labels: AttrMap::new(),
        metric_type: MetricType::Gauge,
    }]);
    e.submit(batch).unwrap();
    let alert = e.step().unwrap().expect("z = 4.5 must alert");
    assert_eq!(alert.name, "Anomaly in cpu");
    assert!(matches!(alert.severity, AlertSeverity::Warning));
    assert!(alert.message.contains("4.50"));
    assert_eq!(e.storage_sink.as_ref().unwrap().written_metrics, 1);
    assert!(matches!(e.alert_bus.try_recv(sub), RecvOutcome::Received(_)));
}

#[test]
fn quiet_batches_are_stored_but_raise_nothing() {
    let mut e = engine();
    let sub = e.alert_bus.subscribe();
    e.submit(TelemetryData::Traces(vec![span("s0", false)])).unwrap();
    e.submit(TelemetryData::Logs(Vec::new())).unwrap();
    assert!(e.step().unwrap().is_none());
    assert!(e.step().unwrap().is_none());
    assert!(e.step().is_none());
    let sink = e.storage_sink.as_ref().unwrap();
    assert_eq!(sink.written_traces, 1);
    assert_eq!(sink.written_logs, 1);
    assert!(matches!(e.alert_bus.try_recv(sub), RecvOutcome::Empty));
}

#[test]
fn batches_leave_the_queue_in_arrival_order() {
    let mut e = engine();
    let mut bad = Vec::new();
    for i in 0..10 {
        bad.push(span(&format!("b{}", i), i < 5));
    }
    e.submit(TelemetryData::Traces(vec![span("ok", false)])).unwrap();
    e.submit(TelemetryData::Traces(bad)).unwrap();
    assert!(e.step().unwrap().is_none(), "first in, first out: the quiet batch leads");
    assert!(e.step().unwrap().is_some());
}

#[test]
fn a_full_queue_pushes_back() {
    let mut e = engine();
    for _ in 0..QUEUE_CAPACITY {
        e.submit(TelemetryData::Logs(Vec::new())).expect("below capacity");
    }
    assert!(e.submit(TelemetryData::Logs(Vec::new())).is_err());
    // draining one slot makes room again
    assert!(e.step().is_some());
    assert!(e.submit(TelemetryData::Logs(Vec::new())).is_ok());
}

#[test]
fn disabled_analytics_leave_batches_unjudged() {
    let mut c = Config::defaults();
    c.analytics.anomaly_detection.enabled = false;
    let mut e = StreamEngine::new(c);
    e.build_pipeline();
    let mut spans = Vec::new();
    for i in 0..10 {
        spans.push(span(&format!("s{}", i), true));
    }
    e.submit(TelemetryData::Traces(spans)).unwrap();
    assert!(e.step().unwrap().is_none(), "no detector, no alert");
    assert_eq!(e.storage_sink.as_ref().unwrap().written_traces, 1);
}
