use stream_processor::analytics::{AnomalyDetector, MetricBaseline};
use stream_processor::config::AnomalyDetectionConfig;
use stream_processor::telemetry::{
    AlertSeverity, AttrMap, Metric, MetricType, Span, SpanStatus,
};

fn detector() -> AnomalyDetector {
    AnomalyDetector::new(&AnomalyDetectionConfig {
        enabled: true,
        algorithm: "zscore".to_string(),
        sensitivity_milli: 950,
    })
}

fn span(id: &str, start: i64, end: i64, error: bool) -> Span {
    Span {
        trace_id: "trace-1".to_string(),
        span_id: id.to_string(),
        parent_span_id: None,
        operation_name: "op".to_string(),
        service_name: "svc".to_string(),
        start_time: start,
        end_time: end,
        status: if error {
            SpanStatus::Error("boom".to_string())
        } else {
            SpanStatus::Okay
        },
        attributes: AttrMap::new(),
    }
}

fn metric(name: &str, value_milli: i64) -> Metric {
    Metric {
        name: name.to_string(),
        value_milli,
        timestamp: 1_700_000_000_000,
        labels: AttrMap::new(),
        metric_type: MetricType::Gauge,
    }
}

#[test]
fn error_rate_over_ten_percent_is_critical() {
    let d = detector();
    let mut spans = Vec::new();
    for i in 0..10 {
        spans.push(span(&format!("s{}", i), 0, 100, i < 2));
    }
    let alert = d.check_traces(&spans).expect("20% error rate must alert");
    assert_eq!(alert.name, "High Error Rate");
    assert!(matches!(alert.severity, AlertSeverity::Critical));
    assert_eq!(alert.message, "Error rate is 20.0%");
    assert_eq!(alert.id.len(), 36);
}

#[test]
fn error_rate_takes_precedence_over_latency() {
    let d = detector();
    // every span both fails and is slow: the error-rate rule must win
    let mut spans = Vec::new();
    for i in 0..4 {
        spans.push(span(&format!("s{}", i), 0, 5_000_000_000, true));
    }
    let alert = d.check_traces(&spans).unwrap();
    assert_eq!(alert.name, "High Error Rate");
    assert!(matches!(alert.severity, AlertSeverity::Critical));
    assert_eq!(alert.message, "Error rate is 100.0%");
}

#[test]
fn exactly_ten_percent_is_quiet() {
    let d = detector();
    let mut spans = Vec::new();
    for i in 0..10 {
        spans.push(span(&format!("s{}", i), 0, 100, i < 1));
    }
    assert!(d.check_traces(&spans).is_none());
}

#[test]
fn high_mean_latency_is_a_warning() {
    let d = detector();
    let mut spans = Vec::new();
    for i in 0..5 {
        spans.push(span(&format!("s{}", i), 1_000, 2_000_001_000, false));
    }
    let alert = d.check_traces(&spans).expect("2s mean latency must alert");
    assert_eq!(alert.name, "High Latency");
    assert!(matches!(alert.severity, AlertSeverity::Warning));
    assert_eq!(alert.message, "Average latency is 2000ms");
}

#[test]
fn latency_at_one_second_is_quiet() {
    let d = detector();
    let spans = vec![span("s0", 0, 1_000_000_000, false)];
    assert!(d.check_traces(&spans).is_none());
}

#[test]
fn empty_batch_is_no_signal() {
    let d = detector();
    assert!(d.check_traces(&Vec::new()).is_none());
}

#[test]
fn zscore_beyond_three_sigma_alerts_on_first_offender() {
    let mut d = detector();
    d.set_baseline(
        "cpu".to_string(),
        MetricBaseline { mean_milli: 50_000, std_dev_milli: 10_000, count: 10 },
    );
    d.set_baseline(
        "mem".to_string(),
        MetricBaseline { mean_milli: 1_000, std_dev_milli: 1_000, count: 10 },
    );
    // mem is within 3 sigma, disk has no baseline; cpu at 95 gives z = 4.5
    let metrics = vec![
        metric("mem", 2_000),
        metric("disk", 1_000_000),
        metric("cpu", 95_000),
    ];
    let alert = d.check_metrics(&metrics).expect("cpu must score as anomalous");
    assert_eq!(alert.name, "Anomaly in cpu");
    assert!(matches!(alert.severity, AlertSeverity::Warning));
    assert!(alert.message.contains("4.50"));
    assert_eq!(
        alert.message,
        "Value 95 deviates significantly from baseline (z-score: 4.50)"
    );
}

#[test]
fn negative_deviation_is_signed() {
    let mut d = detector();
    d.set_baseline(
        "cpu".to_string(),
        MetricBaseline { mean_milli: 50_000, std_dev_milli: 10_000, count: 10 },
    );
    let alert = d.check_metrics(&vec![metric("cpu", 5_000)]).unwrap();
    assert!(alert.message.contains("-4.50"));
    assert!(alert.message.starts_with("Value 5 deviates"));
}

#[test]
fn metrics_without_baseline_are_skipped() {
    let d = detector();
    assert!(d.check_metrics(&vec![metric("cpu", 1_000_000_000)]).is_none());
}

#[test]
fn zero_std_dev_is_no_signal() {
    let mut d = detector();
    d.set_baseline(
        "cpu".to_string(),
        MetricBaseline { mean_milli: 0, std_dev_milli: 0, count: 10 },
    );
    assert!(d.check_metrics(&vec![metric("cpu", 1_000_000)]).is_none());
}

#[test]
fn anomaly_alert_carries_metric_labels() {
    let mut d = detector();
    d.set_baseline(
        "cpu".to_string(),
        MetricBaseline { mean_milli: 50_000, std_dev_milli: 10_000, count: 10 },
    );
    let mut m = metric("cpu", 95_000);
    let mut labels = AttrMap::new();
    labels.insert("host".to_string(), "node-1".to_string());
    m.labels = labels;
    let alert = d.check_metrics(&vec![m]).unwrap();
    assert_eq!(alert.labels.get("host").unwrap(), "node-1");
}

#[test]
fn fractional_metric_value_renders_three_places() {
    let mut d = detector();
    d.set_baseline(
        "cpu".to_string(),
        MetricBaseline { mean_milli: 0, std_dev_milli: 1, count: 1 },
    );
    let alert = d.check_metrics(&vec![metric("cpu", 1_500)]).unwrap();
    assert!(alert.message.starts_with("Value 1.500 deviates"));
}
