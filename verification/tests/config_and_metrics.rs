//! Configuration rules, affinity selection, the allocator's metric
//! catalogue, and the error type.

use metricus::alloc_metrics::{
    get_aligned_size, CountingAllocator, ALLOC_BYTES_COUNTER_ID, ALLOC_COUNTER_ID,
    DEALLOC_BYTES_COUNTER_ID, DEALLOC_COUNTER_ID,
};
use metricus::config::{
    select_core, Affinity, ExporterSource, MetricsConfig, DEFAULT_EVENT_CHANNEL_SIZE,
    DEFAULT_FLUSH_INTERVAL_NS,
};
use metricus::error::Error;
use metricus::PreAllocatedMetric;

#[test]
fn default_config_values() {
    let config = MetricsConfig::default();
    assert_eq!(config.flush_interval, DEFAULT_FLUSH_INTERVAL_NS);
    assert_eq!(config.event_channel_size, DEFAULT_EVENT_CHANNEL_SIZE);
    assert!(config.default_tags.is_empty());
    assert!(config.pre_allocated_metrics.is_empty());
    assert!(matches!(config.exporter, ExporterSource::NoOp));
    assert_eq!(config.aggregator_affinity_cpu_id, None);
    assert_eq!(config.aggregator_affinity_cpu_index, None);
}

#[test]
fn with_default_tags_appends() {
    let config = MetricsConfig::default()
        .with_default_tags(vec![("a".to_owned(), "1".to_owned())])
        .with_default_tags(vec![("b".to_owned(), "2".to_owned())]);
    assert_eq!(
        config.default_tags,
        vec![
            ("a".to_owned(), "1".to_owned()),
            ("b".to_owned(), "2".to_owned())
        ]
    );
}

#[test]
fn with_pre_allocated_metrics_appends() {
    let config = MetricsConfig::default().with_pre_allocated_metrics(CountingAllocator::counters);
    assert_eq!(config.pre_allocated_metrics.len(), 4);
}

#[test]
fn conflicting_affinity_fails() {
    let mut config = MetricsConfig::default();
    config.aggregator_affinity_cpu_id = Some(1);
    config.aggregator_affinity_cpu_index = Some(2);
    let outcome = config.affinity();
    assert!(matches!(outcome, Err(Error::Other(_))));
}

#[test]
fn affinity_variants() {
    let mut config = MetricsConfig::default();
    assert!(matches!(config.affinity(), Ok(Affinity::NoOp)));
    config.aggregator_affinity_cpu_id = Some(3);
    assert!(matches!(config.affinity(), Ok(Affinity::CpuId(3))));
    config.aggregator_affinity_cpu_id = None;
    config.aggregator_affinity_cpu_index = Some(1);
    assert!(matches!(config.affinity(), Ok(Affinity::CpuIndex(1))));
}

#[test]
fn select_core_cases() {
    let cores = vec![0usize, 2, 4];
    assert_eq!(select_core(&Affinity::NoOp, &cores), None);
    assert_eq!(select_core(&Affinity::CpuId(2), &cores), Some(2));
    assert_eq!(select_core(&Affinity::CpuId(3), &cores), None);
    assert_eq!(select_core(&Affinity::CpuIndex(1), &cores), Some(2));
    assert_eq!(select_core(&Affinity::CpuIndex(9), &cores), None);
}

#[test]
fn allocator_counter_catalogue() {
    let counters = CountingAllocator::counters();
    assert_eq!(counters.len(), 4);
    let expected = [
        (ALLOC_COUNTER_ID, "alloc"),
        (ALLOC_BYTES_COUNTER_ID, "alloc_bytes"),
        (DEALLOC_COUNTER_ID, "dealloc"),
        (DEALLOC_BYTES_COUNTER_ID, "dealloc_bytes"),
    ];
    for (metric, (expected_id, expected_fn)) in counters.iter().zip(expected.iter()) {
        match metric {
            PreAllocatedMetric::Counter { name, id, tags } => {
                assert_eq!(name, "global_allocator");
                assert_eq!(id, expected_id);
                assert_eq!(tags, &vec![("fn_name".to_owned(), (*expected_fn).to_owned())]);
            },
            PreAllocatedMetric::Histogram { .. } => panic!("expected a counter"),
        }
    }
}

#[test]
fn aligned_size_rounds_up() {
    assert_eq!(get_aligned_size(0, 8), 0);
    assert_eq!(get_aligned_size(1, 8), 8);
    assert_eq!(get_aligned_size(8, 8), 8);
    assert_eq!(get_aligned_size(9, 8), 16);
    assert_eq!(get_aligned_size(13, 1), 13);
    assert_eq!(get_aligned_size(100, 64), 128);
}

#[test]
fn error_carries_its_text() {
    let e = Error::other("something odd");
    assert!(matches!(&e, Error::Other(_)));
    assert_eq!(e.message(), "something odd");
    let io = Error::io("disk gone");
    assert!(matches!(&io, Error::IO(_)));
    assert_eq!(io.message(), "disk gone");
}
