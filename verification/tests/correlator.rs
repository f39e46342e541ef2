use stream_processor::analytics::TraceCorrelator;
use stream_processor::config::TraceCorrelationConfig;
use stream_processor::telemetry::{AttrMap, Span, SpanStatus};

fn span(trace: &str, id: &str, end: i64) -> Span {
    Span {
        trace_id: trace.to_string(),
        span_id: id.to_string(),
        parent_span_id: None,
        operation_name: "op".to_string(),
        service_name: "svc".to_string(),
        start_time: 0,
        end_time: end,
        status: SpanStatus::Okay,
        attributes: AttrMap::new(),
    }
}

fn correlator() -> TraceCorrelator {
    TraceCorrelator::new(&TraceCorrelationConfig { enabled: true, window_seconds: 300 })
}

const FAR_FUTURE: i64 = i64::MAX / 2;

#[test]
fn spans_of_one_trace_keep_arrival_order() {
    let mut c = correlator();
    c.process(&vec![span("t1", "s1", FAR_FUTURE), span("t1", "s2", FAR_FUTURE)]);
    let spans = c.get_trace("t1").expect("trace must be present");
    assert_eq!(spans.len(), 2);
    assert_eq!(spans[0].span_id, "s1");
    assert_eq!(spans[1].span_id, "s2");
}

#[test]
fn order_is_kept_across_calls() {
    let mut c = correlator();
    c.process(&vec![span("t1", "s1", FAR_FUTURE)]);
    c.process(&vec![span("t1", "s2", FAR_FUTURE)]);
    let spans = c.get_trace("t1").unwrap();
    assert_eq!(spans[0].span_id, "s1");
    assert_eq!(spans[1].span_id, "s2");
}

#[test]
fn trace_is_swept_once_every_span_expired() {
    let mut c = correlator();
    c.process(&vec![span("t1", "s1", FAR_FUTURE), span("t1", "s2", FAR_FUTURE)]);
    assert!(c.get_trace("t1").is_some());
    // advance past the window: nothing ends after this cutoff
    c.evict_older_than(i64::MAX);
    assert!(c.get_trace("t1").is_none());
}

#[test]
fn one_live_span_keeps_the_whole_trace() {
    let mut c = correlator();
    c.process(&vec![span("t1", "s1", 10), span("t1", "s2", FAR_FUTURE)]);
    c.evict_older_than(1_000);
    let spans = c.get_trace("t1").expect("a live span retains the trace");
    assert_eq!(spans.len(), 2);
}

#[test]
fn eviction_is_per_trace() {
    let mut c = correlator();
    c.process(&vec![span("old", "s1", 10), span("new", "s2", FAR_FUTURE)]);
    c.evict_older_than(1_000);
    assert!(c.get_trace("old").is_none());
    assert!(c.get_trace("new").is_some());
}

#[test]
fn process_sweeps_with_the_wall_clock() {
    let mut c = correlator();
    // ended a millisecond into 1970: far older than any 300 s window now
    c.process(&vec![span("ancient", "s1", 1)]);
    assert!(c.get_trace("ancient").is_none());
}

#[test]
fn unknown_trace_is_not_found() {
    let c = correlator();
    assert_eq!(c.window_seconds(), 300);
    assert!(c.get_trace("nope").is_none());
}

#[test]
fn traces_are_grouped_by_id() {
    let mut c = correlator();
    c.process(&vec![
        span("t1", "a", FAR_FUTURE),
        span("t2", "b", FAR_FUTURE),
        span("t1", "c", FAR_FUTURE),
    ]);
    assert_eq!(c.get_trace("t1").unwrap().len(), 2);
    assert_eq!(c.get_trace("t2").unwrap().len(), 1);
}
