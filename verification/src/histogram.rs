//! A `Histogram` proxy and its scoped timer.
//!
//! The proxy owns an id and a monotonic clock source.  A `Span` captures a
//! start reading; finishing it records the elapsed nanoseconds exactly once
//! — the span is consumed, so it cannot record twice.

use crate::agent::{canonical_key_of, register};
use crate::backend::{handle_state_unchanged, MetricsHandle};
use crate::{Id, Tags};
use vstd::prelude::*;

verus! {

#[verifier::external_type_specification]
#[verifier::external_body]
pub struct ExClock(quanta::Clock);

/// Relies on quanta::Clock::new, which calibrates a clock against the best
/// available time source.
#[verifier::external_body]
fn clock_new() -> quanta::Clock {
    quanta::Clock::new()
}

/// Relies on quanta::Clock::raw, which reads the raw counter; the reading
/// depends on the machine and the moment, so nothing is promised of it.
#[verifier::external_body]
fn clock_raw(clock: &quanta::Clock) -> u64 {
    clock.raw()
}

/// Relies on quanta::Clock::delta_as_nanos, which scales the difference of
/// two raw readings to nanoseconds and yields zero whenever the end does not
/// lie after the start.
#[verifier::external_body]
fn clock_delta_as_nanos(clock: &quanta::Clock, start: u64, end: u64) -> (r: u64)
    ensures
        end <= start ==> r == 0,
{
    clock.delta_as_nanos(start, end)
}

/// A histogram proxy: a registered id plus the clock its spans read.
pub struct Histogram {
    id: Id,
    clock: quanta::Clock,
}

impl Histogram {
    /// The id this proxy forwards to.
    pub closed spec fn spec_id(&self) -> Id {
        self.id
    }

    /// Registers a histogram with the active backend, reading time from a
    /// freshly calibrated clock.
    pub fn new(handle: &mut MetricsHandle, name: &str, tags: Tags<'_>) -> (r: Histogram)
        requires
            old(handle).wf(),
        ensures
            final(handle).wf(),
            (*old(handle)) is NoOp ==> *final(handle) == *old(handle) && r.spec_id() == 0,
            (*old(handle)) matches MetricsHandle::Agent(a) ==> (*final(handle)) matches
                MetricsHandle::Agent(b) && b.spec_default_tags() == a.spec_default_tags() && (
            b.key_map(),
            b.spec_next_id(),
            r.spec_id(),
            ) == register(
                a.key_map(),
                a.spec_next_id(),
                canonical_key_of(name@, tags.deep_view(), "histogram"@, a.spec_default_tags()),
            ),
    {
        let clock = clock_new();
        Histogram::new_with_clock(handle, name, tags, clock)
    }

    /// Registers a histogram that reads time from the given clock.
    pub fn new_with_clock(
        handle: &mut MetricsHandle,
        name: &str,
        tags: Tags<'_>,
        clock: quanta::Clock,
    ) -> (r: Histogram)
        requires
            old(handle).wf(),
        ensures
            final(handle).wf(),
            (*old(handle)) is NoOp ==> *final(handle) == *old(handle) && r.spec_id() == 0,
            (*old(handle)) matches MetricsHandle::Agent(a) ==> (*final(handle)) matches
                MetricsHandle::Agent(b) && b.spec_default_tags() == a.spec_default_tags() && (
            b.key_map(),
            b.spec_next_id(),
            r.spec_id(),
            ) == register(
                a.key_map(),
                a.spec_next_id(),
                canonical_key_of(name@, tags.deep_view(), "histogram"@, a.spec_default_tags()),
            ),
    {
        let id = handle.new_histogram(name, tags);
        Histogram { id, clock }
    }

    /// Unregisters the histogram.  Consuming the proxy makes a second
    /// deletion impossible.
    pub fn delete(self, handle: &mut MetricsHandle)
        requires
            old(handle).wf(),
        ensures
            final(handle).wf(),
            handle_state_unchanged(*old(handle), *final(handle)),
    {
        handle.delete_histogram(self.id);
    }
}

/// The operations a histogram offers.
pub trait HistogramOps {
    /// Records one value.
    fn record(&self, handle: &mut MetricsHandle, value: u64)
        requires
            old(handle).wf(),
        ensures
            final(handle).wf(),
            handle_state_unchanged(*old(handle), *final(handle)),
    ;

    /// Opens a scoped timer on this histogram.
    fn span(&self) -> Span<'_>;
}

impl HistogramOps for Histogram {
    fn record(&self, handle: &mut MetricsHandle, value: u64) {
        handle.record(self.id, value);
    }

    fn span(&self) -> Span<'_> {
        Span { histogram: self, start_raw: clock_raw(&self.clock) }
    }
}

/// A scoped timer: a start reading bound to its histogram.  Finishing it
/// records the elapsed nanoseconds — a non-negative value, exactly once,
/// since the span is consumed.
pub struct Span<'a> {
    histogram: &'a Histogram,
    start_raw: u64,
}

impl<'a> Span<'a> {
    /// Records the nanoseconds elapsed since the span was opened.
    pub fn finish(self, handle: &mut MetricsHandle)
        requires
            old(handle).wf(),
        ensures
            final(handle).wf(),
            handle_state_unchanged(*old(handle), *final(handle)),
    {
        let end_raw = clock_raw(&self.histogram.clock);
        let elapsed = clock_delta_as_nanos(&self.histogram.clock, self.start_raw, end_raw);
        handle.record(self.histogram.id, elapsed);
    }
}

} // verus!
