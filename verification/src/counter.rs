//! A `Counter` proxy for managing a metrics counter.
//!
//! The proxy owns only the metric's id; every operation forwards to the
//! active backend handle.  Dropping a counter's registration is an explicit,
//! consuming call, so it happens at most once.

use crate::agent::{canonical_key_of, register};
use crate::backend::{handle_state_unchanged, MetricsHandle};
use crate::{Id, Tags};
use vstd::prelude::*;

verus! {

/// A counter proxy: a registered id, cheap to carry to hot paths.
pub struct Counter {
    id: Id,
}

impl Counter {
    /// The id this proxy forwards to.
    pub closed spec fn spec_id(&self) -> Id {
        self.id
    }

    /// Registers a counter with the active backend and wraps the assigned
    /// id.
    pub fn new(handle: &mut MetricsHandle, name: &str, tags: Tags<'_>) -> (r: Counter)
        requires
            old(handle).wf(),
        ensures
            final(handle).wf(),
            (*old(handle)) is NoOp ==> *final(handle) == *old(handle) && r.spec_id() == 0,
            (*old(handle)) matches MetricsHandle::Agent(a) ==> (*final(handle)) matches
                MetricsHandle::Agent(b) && b.spec_default_tags() == a.spec_default_tags() && (
            b.key_map(),
            b.spec_next_id(),
            r.spec_id(),
            ) == register(
                a.key_map(),
                a.spec_next_id(),
                canonical_key_of(name@, tags.deep_view(), "counter"@, a.spec_default_tags()),
            ),
    {
        let id = handle.new_counter(name, tags);
        Counter { id }
    }

    /// Wraps an already-assigned id without registering it: for metrics
    /// registered out of band before the backend exists.
    pub fn new_with_id(id: Id) -> (r: Counter)
        ensures
            r.spec_id() == id,
    {
        Counter { id }
    }

    /// Unregisters the counter.  Consuming the proxy makes a second
    /// deletion impossible.
    pub fn delete(self, handle: &mut MetricsHandle)
        requires
            old(handle).wf(),
        ensures
            final(handle).wf(),
            handle_state_unchanged(*old(handle), *final(handle)),
    {
        handle.delete_counter(self.id);
    }
}

/// The operations a counter offers.
pub trait CounterOps {
    /// Increments the counter by 1.
    fn increment(&self, handle: &mut MetricsHandle)
        requires
            old(handle).wf(),
        ensures
            final(handle).wf(),
            handle_state_unchanged(*old(handle), *final(handle)),
    ;

    /// Increments the counter by a specified amount.
    fn increment_by(&self, handle: &mut MetricsHandle, delta: usize)
        requires
            old(handle).wf(),
        ensures
            final(handle).wf(),
            handle_state_unchanged(*old(handle), *final(handle)),
    ;
}

impl CounterOps for Counter {
    fn increment(&self, handle: &mut MetricsHandle) {
        handle.increment_counter(self.id);
    }

    fn increment_by(&self, handle: &mut MetricsHandle, delta: usize) {
        handle.increment_counter_by(self.id, delta as u64);
    }
}

} // verus!
