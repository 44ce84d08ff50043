//! Instrumentation facade and reference telemetry agent.
//!
//! Application code creates counters and histograms through a process-wide
//! backend abstraction; the reference backend (the agent) canonicalizes tags,
//! assigns stable ids, buffers events through bounded single-producer
//! channels, aggregates them, and encodes snapshots for export.

use vstd::prelude::*;

pub mod agent;
pub mod aggregator;
pub mod alloc_metrics;
pub mod backend;
pub mod channel;
pub mod config;
pub mod counter;
pub mod encoder;
pub mod error;
pub mod events;
pub mod hdr;
pub mod histogram;
pub mod tags;

pub use backend::{get_metrics_backend_name, Metrics, MetricsHandle, NoOpMetrics};
pub use counter::{Counter, CounterOps};
pub use histogram::{Histogram, HistogramOps, Span};

verus! {

/// Metric id.
pub type Id = u64;

/// Metric tag expressed as a key-value pair.
pub type Tag<'a> = (&'a str, &'a str);

/// Metric tags expressed as a borrowed list of key-value pairs.
pub type Tags<'a> = &'a [(&'a str, &'a str)];

/// Returns empty tags.
pub fn empty_tags() -> (r: Tags<'static>)
    ensures
        r@.len() == 0,
{
    &[]
}

/// A metric that must exist before the agent becomes the active backend: its
/// name, an explicitly chosen id, and its tags.
pub enum PreAllocatedMetric {
    Counter { name: String, id: Id, tags: Vec<(String, String)> },
    Histogram { name: String, id: Id, tags: Vec<(String, String)> },
}

impl PreAllocatedMetric {
    /// Declares a counter under an explicitly chosen id.
    pub fn counter(name: &str, id: Id, tags: &[Tag<'_>]) -> (r: Self)
        ensures
            r matches PreAllocatedMetric::Counter { name: n, id: i, tags: t } && n@ == name@ && i
                == id && t.deep_view() == tags.deep_view(),
    {
        PreAllocatedMetric::Counter {
            name: name.to_owned(),
            id,
            tags: tags::to_owned_tags(tags),
        }
    }

    /// Declares a histogram under an explicitly chosen id.
    pub fn histogram(name: &str, id: Id, tags: &[Tag<'_>]) -> (r: Self)
        ensures
            r matches PreAllocatedMetric::Histogram { name: n, id: i, tags: t } && n@ == name@ && i
                == id && t.deep_view() == tags.deep_view(),
    {
        PreAllocatedMetric::Histogram {
            name: name.to_owned(),
            id,
            tags: tags::to_owned_tags(tags),
        }
    }
}

} // verus!
