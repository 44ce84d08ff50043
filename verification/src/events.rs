//! Events flowing from the agent frontend to the aggregator.
//!
//! Registration traffic and update traffic travel on separate channels, so a
//! backlog of hot-path updates can never starve (de)registration and the
//! other way round.

use vstd::prelude::*;

verus! {

/// Create and delete traffic.
pub enum ControlEvent {
    CounterCreate(u64, String, Vec<(String, String)>),
    CounterDelete(u64),
    HistogramCreate(u64, String, Vec<(String, String)>),
    HistogramDelete(u64),
}

/// Increment and record traffic.
pub enum UpdateEvent {
    CounterIncrement(u64, u64),
    HistogramRecord(u64, u64),
}

} // verus!
