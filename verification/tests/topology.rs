use stream_processor::analytics::{ServiceInfo, TopologyDiscovery};
use stream_processor::config::TopologyDiscoveryConfig;
use stream_processor::telemetry::{AttrMap, Span, SpanStatus};

fn span(svc: &str, peer: Option<&str>, start: i64, end: i64, error: bool) -> Span {
    let mut attributes = AttrMap::new();
    if let Some(p) = peer {
        attributes.insert("peer.service".to_string(), p.to_string());
    }
    Span {
        trace_id: "t".to_string(),
        span_id: "s".to_string(),
        parent_span_id: None,
        operation_name: "op".to_string(),
        service_name: svc.to_string(),
        start_time: start,
        end_time: end,
        status: if error {
            SpanStatus::Error("boom".to_string())
        } else {
            SpanStatus::Okay
        },
        attributes,
    }
}

fn topology() -> TopologyDiscovery {
    TopologyDiscovery::new(&TopologyDiscoveryConfig { enabled: true, update_interval_seconds: 10 })
}

fn service<'a>(services: &'a [ServiceInfo], name: &str) -> &'a ServiceInfo {
    services.iter().find(|s| s.name == name).expect("service must exist")
}

#[test]
fn service_counters_accumulate() {
    let mut t = topology();
    t.process(&vec![
        span("api", None, 0, 100, false),
        span("api", None, 0, 250, true),
        span("db", None, 0, 40, false),
    ]);
    let services = t.get_services();
    let api = service(&services, "api");
    assert_eq!(api.span_count, 2);
    assert_eq!(api.error_count, 1);
    assert_eq!(api.total_latency_ns, 350);
    let db = service(&services, "db");
    assert_eq!(db.span_count, 1);
    assert_eq!(db.error_count, 0);
    assert_eq!(db.total_latency_ns, 40);
}

#[test]
fn edges_need_a_peer_service_attribute() {
    let mut t = topology();
    t.process(&vec![span("api", None, 0, 10, false)]);
    assert!(t.get_edges().is_empty());
    t.process(&vec![span("api", Some("db"), 0, 10, false)]);
    let edges = t.get_edges();
    assert_eq!(edges.len(), 1);
    assert_eq!(edges[0].source, "api");
    assert_eq!(edges[0].target, "db");
    assert_eq!(edges[0].request_count, 1);
    assert_eq!(edges[0].error_count, 0);
}

#[test]
fn edge_errors_follow_span_status() {
    let mut t = topology();
    t.process(&vec![
        span("api", Some("db"), 0, 10, true),
        span("api", Some("db"), 0, 10, false),
        span("api", Some("cache"), 0, 10, false),
    ]);
    let edges = t.get_edges();
    let db = edges.iter().find(|e| e.target == "db").unwrap();
    assert_eq!(db.request_count, 2);
    assert_eq!(db.error_count, 1);
    let cache = edges.iter().find(|e| e.target == "cache").unwrap();
    assert_eq!(cache.request_count, 1);
    assert_eq!(cache.error_count, 0);
}

#[test]
fn counters_are_order_insensitive() {
    let batch = vec![
        span("api", Some("db"), 0, 100, false),
        span("db", None, 0, 50, true),
        span("api", Some("db"), 0, 30, true),
        span("web", Some("api"), 0, 70, false),
        span("api", None, 0, 20, false),
    ];
    let mut reversed = batch.clone();
    reversed.reverse();

    let mut t1 = topology();
    t1.process(&batch);
    let mut t2 = topology();
    t2.process(&reversed);

    let s1 = t1.get_services();
    let s2 = t2.get_services();
    assert_eq!(s1.len(), s2.len());
    for a in &s1 {
        let b = service(&s2, &a.name);
        assert_eq!(a.span_count, b.span_count, "span count of {}", a.name);
        assert_eq!(a.error_count, b.error_count, "error count of {}", a.name);
        assert_eq!(a.total_latency_ns, b.total_latency_ns, "latency of {}", a.name);
    }
    let e1 = t1.get_edges();
    let e2 = t2.get_edges();
    assert_eq!(e1.len(), e2.len());
    for a in &e1 {
        let b = e2
            .iter()
            .find(|e| e.source == a.source && e.target == a.target)
            .expect("edge must exist in both");
        assert_eq!(a.request_count, b.request_count);
        assert_eq!(a.error_count, b.error_count);
    }
}

#[test]
fn counters_never_reset_across_batches() {
    let mut t = topology();
    t.process(&vec![span("api", None, 0, 10, false)]);
    t.process(&vec![span("api", None, 0, 15, true)]);
    let services = t.get_services();
    let api = service(&services, "api");
    assert_eq!(api.span_count, 2);
    assert_eq!(api.error_count, 1);
    assert_eq!(api.total_latency_ns, 25);
}
