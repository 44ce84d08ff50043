//! The producer-to-aggregator pipeline: id assignment, event transport,
//! aggregation, flushing, and the proxies in front of it all.

use metricus::aggregator::{Encoder, MetricsAggregator};
use metricus::agent::MetricsAgent;
use metricus::channel::channel_new;
use metricus::events::{ControlEvent, UpdateEvent};
use metricus::{
    get_metrics_backend_name, Counter, CounterOps, Histogram, HistogramOps, MetricsHandle,
    PreAllocatedMetric,
};

/// An agent wired to an aggregator over fresh channels, all on one thread.
fn pipeline(
    default_tags: &[(&str, &str)],
    flush_interval_ns: u64,
    now_ns: u64,
) -> (MetricsHandle, MetricsAggregator) {
    let (tx_upd, rx_upd) = channel_new(1024);
    let (tx_cnc, rx_cnc) = channel_new(1024);
    let owned: Vec<(String, String)> = default_tags
        .iter()
        .map(|t| (t.0.to_owned(), t.1.to_owned()))
        .collect();
    let agent = MetricsAgent::new(tx_upd, tx_cnc, owned);
    let aggregator = MetricsAggregator::new(
        rx_upd,
        rx_cnc,
        Encoder::LineProtocol,
        flush_interval_ns,
        now_ns,
    );
    (MetricsHandle::Agent(agent), aggregator)
}

#[test]
fn same_name_and_tag_set_same_id() {
    let (mut handle, _agg) = pipeline(&[], 1_000, 0);
    let id1 = handle.new_counter("a", &[("k", "v"), ("x", "y")]);
    let id2 = handle.new_counter("a", &[("x", "y"), ("k", "v")]);
    assert_eq!(id1, id2);
}

#[test]
fn different_name_or_tags_different_id() {
    let (mut handle, _agg) = pipeline(&[], 1_000, 0);
    let id1 = handle.new_counter("a", &[("k", "v")]);
    let id2 = handle.new_counter("b", &[("k", "v")]);
    let id3 = handle.new_counter("a", &[("k", "w")]);
    assert_ne!(id1, id2);
    assert_ne!(id1, id3);
    assert_ne!(id2, id3);
}

#[test]
fn counter_and_histogram_of_one_name_differ() {
    let (mut handle, _agg) = pipeline(&[], 1_000, 0);
    let id1 = handle.new_counter("a", &[]);
    let id2 = handle.new_histogram("a", &[]);
    assert_ne!(id1, id2);
}

#[test]
fn no_agent_increment_is_a_silent_no_op() {
    let mut handle = MetricsHandle::no_op();
    let counter = Counter::new(&mut handle, "anything", &[("k", "v")]);
    counter.increment(&mut handle);
    counter.increment_by(&mut handle, 17);
    counter.delete(&mut handle);
    assert_eq!(get_metrics_backend_name(&handle), "no-op");
}

#[test]
fn agent_backend_reports_its_name() {
    let (handle, _agg) = pipeline(&[], 1_000, 0);
    assert_eq!(get_metrics_backend_name(&handle), "metrics-agent");
}

#[test]
fn flush_scenario_counts_one_hundred_increments() {
    // flush_interval 10ms; counter "requests" tagged {env=prod};
    // 100 increments; at 20ms one export holds value 100.
    let (mut handle, mut agg) = pipeline(&[], 10_000_000, 0);
    let counter = Counter::new(&mut handle, "requests", &[("env", "prod")]);
    for _ in 0..100 {
        counter.increment(&mut handle);
    }
    let due = agg.poll(20_000_000).unwrap();
    assert!(due);
    let payload = agg.encode_counters_payload(20_000_000);
    assert_eq!(
        String::from_utf8(payload).unwrap(),
        "requests,env=prod,type=counter value=100u 20000000\n"
    );
    agg.finish_flush(20_000_000);
    let due_again = agg.poll(25_000_000).unwrap();
    assert!(!due_again);
}

#[test]
fn default_tags_join_the_canonical_set() {
    let (mut handle, mut agg) = pipeline(&[("host", "web1")], 10, 0);
    let counter = Counter::new(&mut handle, "m", &[("env", "prod")]);
    counter.increment(&mut handle);
    assert!(agg.poll(20).unwrap());
    let payload = agg.encode_counters_payload(20);
    assert_eq!(
        String::from_utf8(payload).unwrap(),
        "m,env=prod,host=web1,type=counter value=1u 20\n"
    );
}

#[test]
fn duplicate_registration_emits_one_create() {
    let (mut handle, mut agg) = pipeline(&[], 10, 0);
    let id1 = handle.new_counter("m", &[("a", "b")]);
    let id2 = handle.new_counter("m", &[("a", "b")]);
    assert_eq!(id1, id2);
    agg.poll(5).unwrap();
    assert_eq!(agg.counters_len(), 1);
}

#[test]
fn duplicate_create_never_resets_the_value() {
    let (_handle, mut agg) = pipeline(&[], 1_000, 0);
    agg.handle_control_event(ControlEvent::CounterCreate(1, "m".to_owned(), vec![]));
    agg.handle_update_event(UpdateEvent::CounterIncrement(1, 5)).unwrap();
    agg.handle_control_event(ControlEvent::CounterCreate(1, "m".to_owned(), vec![]));
    assert_eq!(agg.counter_value(1), Some(5));
}

#[test]
fn drained_increments_sum_in_any_order() {
    let deltas = [5u64, 1, 9, 2, 2, 81];
    let (_h1, mut agg1) = pipeline(&[], 1_000, 0);
    let (_h2, mut agg2) = pipeline(&[], 1_000, 0);
    agg1.handle_control_event(ControlEvent::CounterCreate(7, "m".to_owned(), vec![]));
    agg2.handle_control_event(ControlEvent::CounterCreate(7, "m".to_owned(), vec![]));
    for d in deltas.iter() {
        agg1.handle_update_event(UpdateEvent::CounterIncrement(7, *d)).unwrap();
    }
    for d in deltas.iter().rev() {
        agg2.handle_update_event(UpdateEvent::CounterIncrement(7, *d)).unwrap();
    }
    assert_eq!(agg1.counter_value(7), Some(100));
    assert_eq!(agg2.counter_value(7), Some(100));
}

#[test]
fn counter_saturates_at_the_top_of_the_type() {
    let (_handle, mut agg) = pipeline(&[], 1_000, 0);
    agg.handle_control_event(ControlEvent::CounterCreate(1, "m".to_owned(), vec![]));
    agg.handle_update_event(UpdateEvent::CounterIncrement(1, u64::MAX)).unwrap();
    agg.handle_update_event(UpdateEvent::CounterIncrement(1, 5)).unwrap();
    // The cumulative value stops at the maximum; it never wraps down.
    assert_eq!(agg.counter_value(1), Some(u64::MAX));
}

#[test]
fn unknown_id_updates_are_silent_no_ops() {
    let (_handle, mut agg) = pipeline(&[], 1_000, 0);
    agg.handle_update_event(UpdateEvent::CounterIncrement(99, 5)).unwrap();
    agg.handle_update_event(UpdateEvent::HistogramRecord(98, 5)).unwrap();
    assert_eq!(agg.counters_len(), 0);
    assert_eq!(agg.histograms_len(), 0);
    assert_eq!(agg.counter_value(99), None);
}

#[test]
fn delete_removes_the_aggregated_counter() {
    let (_handle, mut agg) = pipeline(&[], 1_000, 0);
    agg.handle_control_event(ControlEvent::CounterCreate(1, "m".to_owned(), vec![]));
    agg.handle_update_event(UpdateEvent::CounterIncrement(1, 5)).unwrap();
    agg.handle_control_event(ControlEvent::CounterDelete(1));
    assert_eq!(agg.counter_value(1), None);
    assert_eq!(agg.counters_len(), 0);
    // A late increment against the deleted id stays a no-op.
    agg.handle_update_event(UpdateEvent::CounterIncrement(1, 5)).unwrap();
    assert_eq!(agg.counter_value(1), None);
}

#[test]
fn flush_resets_histograms_and_keeps_counters() {
    let (_handle, mut agg) = pipeline(&[], 1_000, 0);
    agg.handle_control_event(ControlEvent::CounterCreate(1, "c".to_owned(), vec![]));
    agg.handle_control_event(ControlEvent::HistogramCreate(2, "h".to_owned(), vec![]));
    agg.handle_update_event(UpdateEvent::CounterIncrement(1, 5)).unwrap();
    for v in [10u64, 20, 30] {
        agg.handle_update_event(UpdateEvent::HistogramRecord(2, v)).unwrap();
    }
    assert_eq!(agg.histogram_count(2), Some(3));
    agg.finish_flush(500);
    // Statistics now reflect only post-flush recordings.
    assert_eq!(agg.histogram_count(2), Some(0));
    assert_eq!(agg.counter_value(1), Some(5));
    agg.handle_update_event(UpdateEvent::HistogramRecord(2, 40)).unwrap();
    agg.handle_update_event(UpdateEvent::HistogramRecord(2, 50)).unwrap();
    assert_eq!(agg.histogram_count(2), Some(2));
}

#[test]
fn pre_allocated_duplicates_are_one_metric() {
    let (tx_upd, rx_upd) = channel_new(1024);
    let (tx_cnc, rx_cnc) = channel_new(1024);
    let twice = vec![
        PreAllocatedMetric::counter("global_allocator", 42, &[("fn_name", "alloc")]),
        PreAllocatedMetric::counter("global_allocator", 42, &[("fn_name", "alloc")]),
    ];
    let agent = MetricsAgent::with_pre_allocated(tx_upd, tx_cnc, Vec::new(), twice);
    let mut handle = MetricsHandle::Agent(agent);
    let mut agg = MetricsAggregator::new(rx_upd, rx_cnc, Encoder::LineProtocol, 1_000, 0);

    let counter = Counter::new_with_id(42);
    counter.increment_by(&mut handle, 7);
    agg.poll(5).unwrap();
    assert_eq!(agg.counters_len(), 1);
    assert_eq!(agg.counter_value(42), Some(7));
}

#[test]
fn span_records_exactly_one_value() {
    let (mut handle, mut agg) = pipeline(&[], 1_000, 0);
    let histogram = Histogram::new(&mut handle, "latency", &[]);
    let span = histogram.span();
    span.finish(&mut handle);
    agg.poll(5).unwrap();
    assert_eq!(agg.histograms_len(), 1);
    let count = agg.histogram_at(0).count();
    assert_eq!(count, 1);
}

#[test]
fn record_forwards_to_the_aggregated_histogram() {
    let (mut handle, mut agg) = pipeline(&[], 1_000, 0);
    let histogram = Histogram::new(&mut handle, "latency", &[]);
    histogram.record(&mut handle, 250);
    histogram.record(&mut handle, 800);
    agg.poll(5).unwrap();
    assert_eq!(agg.histograms_len(), 1);
    assert_eq!(agg.histogram_at(0).count(), 2);
}

#[test]
fn json_mode_encodes_counters_and_omits_histograms() {
    let (tx_upd, rx_upd) = channel_new::<UpdateEvent>(64);
    let (tx_cnc, rx_cnc) = channel_new::<ControlEvent>(64);
    drop(tx_upd);
    drop(tx_cnc);
    let mut agg = MetricsAggregator::new(rx_upd, rx_cnc, Encoder::Json, 1_000, 0);
    agg.handle_control_event(ControlEvent::CounterCreate(
        1,
        "m".to_owned(),
        vec![("env".to_owned(), "prod".to_owned())],
    ));
    agg.handle_control_event(ControlEvent::HistogramCreate(2, "h".to_owned(), vec![]));
    agg.handle_update_event(UpdateEvent::CounterIncrement(1, 9)).unwrap();
    agg.handle_update_event(UpdateEvent::HistogramRecord(2, 40)).unwrap();
    let counters = agg.encode_counters_payload(5);
    assert_eq!(
        String::from_utf8(counters).unwrap(),
        "{\"timestamp\":5,\"value\":9,\"name\":\"m\",\"tags\":{\"env\":\"prod\"}}\n"
    );
    let stats = vec![metricus::encoder::HistogramStats {
        count: 1,
        min: 40,
        max: 40,
        mean_text: "40.0".to_owned(),
        p50: 40,
        p75: 40,
        p90: 40,
        p95: 40,
        p99: 40,
        p999: 40,
        p9999: 40,
    }];
    let histograms = agg.encode_histograms_payload(&stats, 5);
    assert!(histograms.is_empty());
}

#[test]
fn control_applies_before_updates_in_one_poll() {
    let (mut handle, mut agg) = pipeline(&[], 1_000, 0);
    // Registration and its increments arrive in one pass; the create must
    // be applied first, so the increments land.
    let counter = Counter::new(&mut handle, "m", &[]);
    counter.increment_by(&mut handle, 3);
    counter.increment(&mut handle);
    agg.poll(5).unwrap();
    let payload = agg.encode_counters_payload(6);
    assert_eq!(
        String::from_utf8(payload).unwrap(),
        "m,type=counter value=4u 6\n"
    );
}
