use stream_processor::config::{
    default_algorithm, default_port, default_storage_type, default_true, default_update_interval,
    default_window, Config,
};
use stream_processor::fanout::{AlertBus, RecvOutcome};
use stream_processor::operators::EnrichOperator;
use stream_processor::sinks::chat_message;
use stream_processor::telemetry::{Alert, AlertSeverity, AttrMap};
use stream_processor::text::{decimal_string, push_signed_hundredths, push_signed_milli, push_tenths};

fn alert(name: &str, severity: AlertSeverity, message: &str) -> Alert {
    Alert {
        id: "00000000-0000-0000-0000-000000000000".to_string(),
        name: name.to_string(),
        severity,
        message: message.to_string(),
        timestamp: 0,
        labels: AttrMap::new(),
    }
}

#[test]
fn a_slow_subscriber_observes_lag_and_resynchronizes() {
    let mut bus = AlertBus::new(3);
    let sub = bus.subscribe();
    for i in 0..5 {
        bus.publish(alert(&format!("a{}", i), AlertSeverity::Info, "m"));
    }
    match bus.try_recv(sub) {
        RecvOutcome::Lagged(missed) => assert_eq!(missed, 2),
        _ => panic!("two alerts fell out of the buffer"),
    }
    for expected in ["a2", "a3", "a4"] {
        match bus.try_recv(sub) {
            RecvOutcome::Received(a) => assert_eq!(a.name, expected),
            _ => panic!("buffered alerts arrive in publish order"),
        }
    }
    assert!(matches!(bus.try_recv(sub), RecvOutcome::Empty));
}

#[test]
fn a_late_subscriber_sees_only_newer_alerts() {
    let mut bus = AlertBus::new(8);
    bus.publish(alert("early", AlertSeverity::Info, "m"));
    let sub = bus.subscribe();
    assert!(matches!(bus.try_recv(sub), RecvOutcome::Empty));
    bus.publish(alert("late", AlertSeverity::Info, "m"));
    match bus.try_recv(sub) {
        RecvOutcome::Received(a) => assert_eq!(a.name, "late"),
        _ => panic!("a subscription starts at the present"),
    }
}

#[test]
fn publishing_never_blocks_on_slow_subscribers() {
    let mut bus = AlertBus::new(2);
    let _sub = bus.subscribe();
    for i in 0..100 {
        bus.publish(alert(&format!("a{}", i), AlertSeverity::Info, "m"));
    }
    assert_eq!(bus.published_count(), 100);
}

#[test]
fn chat_message_leads_with_the_severity_icon() {
    let a = alert("High Error Rate", AlertSeverity::Critical, "Error rate is 20.0%");
    assert_eq!(
        chat_message(&a),
        ":red_circle:  *High Error Rate*\nError rate is 20.0%"
    );
    let w = alert("High Latency", AlertSeverity::Warning, "slow");
    assert_eq!(chat_message(&w), ":large_orange_circle:  *High Latency*\nslow");
    let i = alert("note", AlertSeverity::Info, "fyi");
    assert_eq!(chat_message(&i), ":large_blue_circle:  *note*\nfyi");
}

#[test]
fn decimal_renderings_are_exact() {
    assert_eq!(decimal_string(0), "0");
    assert_eq!(decimal_string(7), "7");
    assert_eq!(decimal_string(12345), "12345");
    assert_eq!(decimal_string(u64::MAX as u128), "18446744073709551615");

    let mut s = String::new();
    push_tenths(&mut s, 200);
    assert_eq!(s, "20.0");
    let mut s = String::new();
    push_tenths(&mut s, 5);
    assert_eq!(s, "0.5");

    let mut s = String::new();
    push_signed_hundredths(&mut s, false, 450);
    assert_eq!(s, "4.50");
    let mut s = String::new();
    push_signed_hundredths(&mut s, true, 450);
    assert_eq!(s, "-4.50");
    let mut s = String::new();
    push_signed_hundredths(&mut s, false, 7);
    assert_eq!(s, "0.07");

    let mut s = String::new();
    push_signed_milli(&mut s, false, 95_000);
    assert_eq!(s, "95");
    let mut s = String::new();
    push_signed_milli(&mut s, true, 1_500);
    assert_eq!(s, "-1.500");
    let mut s = String::new();
    push_signed_milli(&mut s, false, 42);
    assert_eq!(s, "0.042");
}

#[test]
fn attribute_maps_bind_and_overwrite() {
    let mut m = AttrMap::new();
    assert!(m.get("k").is_none());
    m.insert("k".to_string(), "v1".to_string());
    m.insert("other".to_string(), "x".to_string());
    assert_eq!(m.get("k").unwrap(), "v1");
    m.insert("k".to_string(), "v2".to_string());
    assert_eq!(m.get("k").unwrap(), "v2");
    assert_eq!(m.get("other").unwrap(), "x");
    assert_eq!(m.len(), 2);
    let copy = m.duplicate();
    assert_eq!(copy.get("k").unwrap(), "v2");
}

#[test]
fn enrich_operator_holds_its_decorations() {
    let mut m = AttrMap::new();
    m.insert("env".to_string(), "prod".to_string());
    let op = EnrichOperator::new(m);
    assert_eq!(op.enrichment("env").unwrap(), "prod");
    assert!(op.enrichment("region").is_none());
}

#[test]
fn configuration_defaults_match_the_documented_values() {
    assert!(default_true());
    assert_eq!(default_port(), 4317);
    assert_eq!(default_algorithm(), "isolation_forest");
    assert_eq!(default_window(), 300);
    assert_eq!(default_update_interval(), 10);
    assert_eq!(default_storage_type(), "clickhouse");

    let c = Config::defaults();
    assert!(c.analytics.anomaly_detection.enabled);
    assert_eq!(c.analytics.trace_correlation.window_seconds, 300);
    assert_eq!(c.sources.otlp.port, 4317);
    assert_eq!(c.sinks.storage.database, "ollystack");
    assert!(c.sinks.alerts.webhook_url.is_none());
}
