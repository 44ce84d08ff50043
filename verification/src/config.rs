//! The agent's configuration, as plain structured values.
//!
//! Loading a configuration document from a file or text is outside the
//! verified core; the agent consumes the parsed configuration verbatim.
//! Times are nanosecond counts.

use crate::aggregator::Encoder;
use crate::error::Error;
use crate::PreAllocatedMetric;
use vstd::prelude::*;

verus! {

/// One second, in nanoseconds.
pub const NANOS_PER_SECOND: u64 = 1_000_000_000;

/// The default flush interval: ten seconds.
pub const DEFAULT_FLUSH_INTERVAL_NS: u64 = 10_000_000_000;

/// The default event channel size.
pub const DEFAULT_EVENT_CHANNEL_SIZE: usize = 1_048_576;

/// A serialization format an exporter can be configured with.
pub enum Format {
    LineProtocol,
    Json,
}

/// Where a UDP exporter sends its datagrams, and how it encodes them.
pub struct UdpConfig {
    pub host: String,
    pub port: u16,
    pub encoder: Encoder,
}

/// Which file a file exporter appends to, and how it encodes records.
pub struct FileConfig {
    pub path: String,
    pub encoder: Encoder,
}

/// Which Unix socket a socket exporter connects to, and how it encodes
/// records.
pub struct UnixSocketConfig {
    pub path: String,
    pub encoder: Encoder,
}

/// The exporter a configuration selects.
pub enum ExporterSource {
    NoOp,
    Udp(UdpConfig),
    File(FileConfig),
    UnixStream(UnixSocketConfig),
    UnixDatagram(UnixSocketConfig),
}

/// Where the aggregator thread is pinned: nowhere, to a core id, or to an
/// index into the available core set.
pub enum Affinity {
    NoOp,
    CpuId(usize),
    CpuIndex(usize),
}

/// The core a thread should be pinned to, of the cores that are available:
/// an explicit id must be present in the set, an index selects from it, and
/// no request pins nothing.  Failure to select is not an error — pinning is
/// best effort.
#[verifier::loop_isolation(false)]
pub fn select_core(affinity: &Affinity, cores: &Vec<usize>) -> (r: Option<usize>)
    ensures
        (*affinity) is NoOp ==> r is None,
        (*affinity) matches Affinity::CpuId(id) ==> r == if cores@.contains(id) {
            Some(id)
        } else {
            None
        },
        (*affinity) matches Affinity::CpuIndex(ix) ==> r == if ix < cores@.len() {
            Some(cores@[ix as int])
        } else {
            None
        },
{
    match affinity {
        Affinity::NoOp => None,
        Affinity::CpuId(id) => {
            let len = cores.len();
            let mut i: usize = 0;
            while i < len
                invariant
                    i <= len,
                    len == cores@.len(),
                    forall|k: int| 0 <= k < i ==> cores@[k] != *id,
                decreases len - i,
            {
                if cores[i] == *id {
                    proof {
                        assert(cores@[i as int] == *id);
                        assert(cores@.contains(*id));
                    }
                    return Some(*id);
                }
                i = i + 1;
            }
            proof {
                assert(!cores@.contains(*id));
            }
            None
        },
        Affinity::CpuIndex(ix) => {
            if *ix < cores.len() {
                Some(cores[*ix])
            } else {
                None
            }
        },
    }
}

/// Metrics configuration handed to the agent at initialisation.
pub struct MetricsConfig {
    /// Interval at which snapshots are exported, in nanoseconds.
    pub flush_interval: u64,
    /// Tags added to every metric.
    pub default_tags: Vec<(String, String)>,
    /// Capacity of the update event channel.
    pub event_channel_size: usize,
    /// The exporter to build.
    pub exporter: ExporterSource,
    /// Metrics registered before the agent becomes the active backend.
    pub pre_allocated_metrics: Vec<PreAllocatedMetric>,
    /// Pin the aggregator thread to this core id.  Cannot be combined with
    /// `aggregator_affinity_cpu_index`.
    pub aggregator_affinity_cpu_id: Option<usize>,
    /// Pin the aggregator thread to this index of the available core set.
    /// Cannot be combined with `aggregator_affinity_cpu_id`.
    pub aggregator_affinity_cpu_index: Option<usize>,
}

impl Default for MetricsConfig {
    /// Ten-second flushes, no tags, the default channel size, no exporter,
    /// nothing pre-allocated, no pinning.
    fn default() -> (r: MetricsConfig)
        ensures
            r.flush_interval == DEFAULT_FLUSH_INTERVAL_NS,
            r.default_tags@.len() == 0,
            r.event_channel_size == DEFAULT_EVENT_CHANNEL_SIZE,
            r.exporter is NoOp,
            r.pre_allocated_metrics@.len() == 0,
            r.aggregator_affinity_cpu_id is None,
            r.aggregator_affinity_cpu_index is None,
    {
        MetricsConfig {
            flush_interval: DEFAULT_FLUSH_INTERVAL_NS,
            default_tags: Vec::new(),
            event_channel_size: DEFAULT_EVENT_CHANNEL_SIZE,
            exporter: ExporterSource::NoOp,
            pre_allocated_metrics: Vec::new(),
            aggregator_affinity_cpu_id: None,
            aggregator_affinity_cpu_index: None,
        }
    }
}

impl MetricsConfig {
    /// The configuration with further default tags appended.
    pub fn with_default_tags(self, default_tags: Vec<(String, String)>) -> (r: MetricsConfig)
        ensures
            r.default_tags@ == self.default_tags@ + default_tags@,
            r.flush_interval == self.flush_interval,
            r.event_channel_size == self.event_channel_size,
            r.exporter == self.exporter,
            r.pre_allocated_metrics == self.pre_allocated_metrics,
            r.aggregator_affinity_cpu_id == self.aggregator_affinity_cpu_id,
            r.aggregator_affinity_cpu_index == self.aggregator_affinity_cpu_index,
    {
        let MetricsConfig {
            flush_interval,
            default_tags: mut merged,
            event_channel_size,
            exporter,
            pre_allocated_metrics,
            aggregator_affinity_cpu_id,
            aggregator_affinity_cpu_index,
        } = self;
        let mut extra = default_tags;
        merged.append(&mut extra);
        MetricsConfig {
            flush_interval,
            default_tags: merged,
            event_channel_size,
            exporter,
            pre_allocated_metrics,
            aggregator_affinity_cpu_id,
            aggregator_affinity_cpu_index,
        }
    }

    /// The configuration with further pre-allocated metrics appended, drawn
    /// from the given producer.
    pub fn with_pre_allocated_metrics<F: FnOnce() -> Vec<PreAllocatedMetric>>(
        self,
        pre_allocated_metrics: F,
    ) -> (r: MetricsConfig)
        requires
            pre_allocated_metrics.requires(()),
        ensures
            exists|produced: Vec<PreAllocatedMetric>|
                pre_allocated_metrics.ensures((), produced) && r.pre_allocated_metrics@
                    == self.pre_allocated_metrics@ + produced@,
            r.default_tags == self.default_tags,
            r.flush_interval == self.flush_interval,
            r.event_channel_size == self.event_channel_size,
            r.exporter == self.exporter,
            r.aggregator_affinity_cpu_id == self.aggregator_affinity_cpu_id,
            r.aggregator_affinity_cpu_index == self.aggregator_affinity_cpu_index,
    {
        let ghost f = pre_allocated_metrics;
        let MetricsConfig {
            flush_interval,
            default_tags,
            event_channel_size,
            exporter,
            pre_allocated_metrics: mut merged,
            aggregator_affinity_cpu_id,
            aggregator_affinity_cpu_index,
        } = self;
        let mut produced = pre_allocated_metrics();
        let ghost produced0 = produced;
        merged.append(&mut produced);
        let r = MetricsConfig {
            flush_interval,
            default_tags,
            event_channel_size,
            exporter,
            pre_allocated_metrics: merged,
            aggregator_affinity_cpu_id,
            aggregator_affinity_cpu_index,
        };
        proof {
            assert(f.ensures((), produced0) && r.pre_allocated_metrics@
                == self.pre_allocated_metrics@ + produced0@);
        }
        r
    }

    /// Which affinity the configuration requests.  Requesting both a core
    /// id and a core index is a configuration conflict, and fails.
    pub fn affinity(&self) -> (r: Result<Affinity, Error>)
        ensures
            match (self.aggregator_affinity_cpu_id, self.aggregator_affinity_cpu_index) {
                (Some(_), Some(_)) => r is Err,
                (Some(id), None) => r == Ok::<Affinity, Error>(Affinity::CpuId(id)),
                (None, Some(ix)) => r == Ok::<Affinity, Error>(Affinity::CpuIndex(ix)),
                (None, None) => r == Ok::<Affinity, Error>(Affinity::NoOp),
            },
    {
        match (self.aggregator_affinity_cpu_id, self.aggregator_affinity_cpu_index) {
            (Some(_), Some(_)) => Err(Error::other("cannot specify both cpu and cpu_index")),
            (Some(id), None) => Ok(Affinity::CpuId(id)),
            (None, Some(ix)) => Ok(Affinity::CpuIndex(ix)),
            (None, None) => Ok(Affinity::NoOp),
        }
    }
}

} // verus!
