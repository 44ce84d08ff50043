//! The dispatch core: the process-wide backend abstraction.
//!
//! Every instrumentation call routes through the active `MetricsHandle`.
//! The handle is a tagged variant over the known backends, dispatched by one
//! match: before any agent is installed it is the no-op backend, so
//! instrumented code is safe to call at any time.  The process-wide storage
//! of the active handle, being global mutable state, lives outside the
//! verified core; everything here takes the handle it should act on.

use crate::agent::{canonical_key_of, register, MetricsAgent};
use crate::{Id, Tags};
use vstd::prelude::*;

verus! {

/// Common interface for metrics backends.  Each backend carries its own
/// invariant, which every operation preserves.
pub trait Metrics {
    spec fn inv(&self) -> bool;

    fn name(&self) -> &'static str;

    fn new_counter(&mut self, name: &str, tags: Tags<'_>) -> (id: Id)
        requires
            old(self).inv(),
        ensures
            final(self).inv(),
    ;

    fn delete_counter(&mut self, id: Id)
        requires
            old(self).inv(),
        ensures
            final(self).inv(),
    ;

    fn increment_counter_by(&mut self, id: Id, delta: u64)
        requires
            old(self).inv(),
        ensures
            final(self).inv(),
    ;

    fn increment_counter(&mut self, id: Id)
        requires
            old(self).inv(),
        ensures
            final(self).inv(),
    ;

    fn new_histogram(&mut self, name: &str, tags: Tags<'_>) -> (id: Id)
        requires
            old(self).inv(),
        ensures
            final(self).inv(),
    ;

    fn delete_histogram(&mut self, id: Id)
        requires
            old(self).inv(),
        ensures
            final(self).inv(),
    ;

    fn record(&mut self, id: Id, value: u64)
        requires
            old(self).inv(),
        ensures
            final(self).inv(),
    ;
}

/// The backend of the uninitialized state: every operation is a no-op, and
/// every registration yields the default id.
pub struct NoOpMetrics;

impl NoOpMetrics {
    /// Every registration yields id 0, and nothing is recorded anywhere.
    pub fn no_op_register(&mut self) -> (id: Id)
        ensures
            id == 0,
    {
        0
    }
}

impl Metrics for NoOpMetrics {
    open spec fn inv(&self) -> bool {
        true
    }

    fn name(&self) -> &'static str {
        "no-op"
    }

    fn new_counter(&mut self, _name: &str, _tags: Tags<'_>) -> Id {
        self.no_op_register()
    }

    fn delete_counter(&mut self, _id: Id) {
    }

    fn increment_counter_by(&mut self, _id: Id, _delta: u64) {
    }

    fn increment_counter(&mut self, _id: Id) {
    }

    fn new_histogram(&mut self, _name: &str, _tags: Tags<'_>) -> Id {
        self.no_op_register()
    }

    fn delete_histogram(&mut self, _id: Id) {
    }

    fn record(&mut self, _id: Id, _value: u64) {
    }
}

impl Metrics for MetricsAgent {
    open spec fn inv(&self) -> bool {
        self.wf()
    }

    fn name(&self) -> &'static str {
        MetricsAgent::name(self)
    }

    fn new_counter(&mut self, name: &str, tags: Tags<'_>) -> Id {
        MetricsAgent::new_counter(self, name, tags)
    }

    fn delete_counter(&mut self, id: Id) {
        MetricsAgent::delete_counter(self, id)
    }

    fn increment_counter_by(&mut self, id: Id, delta: u64) {
        MetricsAgent::increment_counter_by(self, id, delta)
    }

    fn increment_counter(&mut self, id: Id) {
        MetricsAgent::increment_counter_by(self, id, 1)
    }

    fn new_histogram(&mut self, name: &str, tags: Tags<'_>) -> Id {
        MetricsAgent::new_histogram(self, name, tags)
    }

    fn delete_histogram(&mut self, id: Id) {
        MetricsAgent::delete_histogram(self, id)
    }

    fn record(&mut self, id: Id, value: u64) {
        MetricsAgent::record(self, id, value)
    }
}

/// The active backend: a tagged variant over the known backends, so that
/// dispatch is one match on the tag — no allocation, no indirection beyond
/// it.
pub enum MetricsHandle {
    NoOp(NoOpMetrics),
    Agent(MetricsAgent),
}

impl MetricsHandle {
    /// The handle of the uninitialized state.
    pub fn no_op() -> (r: MetricsHandle)
        ensures
            r is NoOp,
            r.wf(),
    {
        MetricsHandle::NoOp(NoOpMetrics)
    }

    /// The backend's invariant, whichever backend is active.
    pub open spec fn wf(&self) -> bool {
        match self {
            MetricsHandle::NoOp(_) => true,
            MetricsHandle::Agent(a) => a.wf(),
        }
    }

    /// The active backend's display name.
    pub fn name(&self) -> (r: &'static str)
        ensures
            self is NoOp ==> r@ == "no-op"@,
            self is Agent ==> r@ == "metrics-agent"@,
    {
        match self {
            MetricsHandle::NoOp(_) => "no-op",
            MetricsHandle::Agent(a) => a.name(),
        }
    }

    /// Registers a counter with the active backend.  The no-op backend
    /// yields id 0 and retains nothing; the agent assigns an id for the
    /// canonical key.
    pub fn new_counter(&mut self, name: &str, tags: Tags<'_>) -> (id: Id)
        requires
            old(self).wf(),
        ensures
            final(self).wf(),
            (*old(self)) is NoOp ==> *final(self) == *old(self) && id == 0,
            (*old(self)) matches MetricsHandle::Agent(a) ==> (*final(self)) matches MetricsHandle::Agent(
                b,
            ) && b.spec_default_tags() == a.spec_default_tags() && (
            b.key_map(),
            b.spec_next_id(),
            id,
            ) == register(
                a.key_map(),
                a.spec_next_id(),
                canonical_key_of(name@, tags.deep_view(), "counter"@, a.spec_default_tags()),
            ),
    {
        match self {
            MetricsHandle::NoOp(m) => m.no_op_register(),
            MetricsHandle::Agent(a) => a.new_counter(name, tags),
        }
    }

    /// Registers a histogram with the active backend.
    pub fn new_histogram(&mut self, name: &str, tags: Tags<'_>) -> (id: Id)
        requires
            old(self).wf(),
        ensures
            final(self).wf(),
            (*old(self)) is NoOp ==> *final(self) == *old(self) && id == 0,
            (*old(self)) matches MetricsHandle::Agent(a) ==> (*final(self)) matches MetricsHandle::Agent(
                b,
            ) && b.spec_default_tags() == a.spec_default_tags() && (
            b.key_map(),
            b.spec_next_id(),
            id,
            ) == register(
                a.key_map(),
                a.spec_next_id(),
                canonical_key_of(name@, tags.deep_view(), "histogram"@, a.spec_default_tags()),
            ),
    {
        match self {
            MetricsHandle::NoOp(m) => m.no_op_register(),
            MetricsHandle::Agent(a) => a.new_histogram(name, tags),
        }
    }

    /// Deletes a counter with the active backend.  Neither backend's
    /// observable state changes: the agent only emits an event.
    pub fn delete_counter(&mut self, id: Id)
        requires
            old(self).wf(),
        ensures
            final(self).wf(),
            handle_state_unchanged(*old(self), *final(self)),
    {
        match self {
            MetricsHandle::NoOp(_) => {},
            MetricsHandle::Agent(a) => a.delete_counter(id),
        }
    }

    /// Deletes a histogram with the active backend.
    pub fn delete_histogram(&mut self, id: Id)
        requires
            old(self).wf(),
        ensures
            final(self).wf(),
            handle_state_unchanged(*old(self), *final(self)),
    {
        match self {
            MetricsHandle::NoOp(_) => {},
            MetricsHandle::Agent(a) => a.delete_histogram(id),
        }
    }

    /// Increments a counter by a delta with the active backend: a no-op for
    /// the no-op backend, an event for the agent; never an error, whatever
    /// the id.
    pub fn increment_counter_by(&mut self, id: Id, delta: u64)
        requires
            old(self).wf(),
        ensures
            final(self).wf(),
            handle_state_unchanged(*old(self), *final(self)),
    {
        match self {
            MetricsHandle::NoOp(_) => {},
            MetricsHandle::Agent(a) => a.increment_counter_by(id, delta),
        }
    }

    /// Increments a counter by one.
    pub fn increment_counter(&mut self, id: Id)
        requires
            old(self).wf(),
        ensures
            final(self).wf(),
            handle_state_unchanged(*old(self), *final(self)),
    {
        self.increment_counter_by(id, 1)
    }

    /// Records a histogram value with the active backend.
    pub fn record(&mut self, id: Id, value: u64)
        requires
            old(self).wf(),
        ensures
            final(self).wf(),
            handle_state_unchanged(*old(self), *final(self)),
    {
        match self {
            MetricsHandle::NoOp(_) => {},
            MetricsHandle::Agent(a) => a.record(id, value),
        }
    }
}

/// Holds when an operation left the active backend's observable state — its
/// kind, its id map, its allocation cursor and its default tags — as it was.
pub open spec fn handle_state_unchanged(a: MetricsHandle, b: MetricsHandle) -> bool {
    match (a, b) {
        (MetricsHandle::NoOp(_), MetricsHandle::NoOp(_)) => true,
        (MetricsHandle::Agent(x), MetricsHandle::Agent(y)) => x.key_map() == y.key_map()
            && x.spec_next_id() == y.spec_next_id() && x.spec_default_tags()
            == y.spec_default_tags(),
        _ => false,
    }
}

/// The active backend's display name.
pub fn get_metrics_backend_name(handle: &MetricsHandle) -> (r: &'static str)
    ensures
        handle is NoOp ==> r@ == "no-op"@,
        handle is Agent ==> r@ == "metrics-agent"@,
{
    handle.name()
}

} // verus!
