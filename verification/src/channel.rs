//! The event transport: bounded, non-blocking, single-producer
//! single-consumer channels, provided by the `rtrb` ring buffer.
//!
//! Nothing is promised about a channel's contents: what a producer pushed on
//! one thread and what a consumer later pops on another cannot be related
//! here, so every function that drains a channel is verified for every value
//! the channel could hand it.

use vstd::prelude::*;

verus! {

#[verifier::external_type_specification]
#[verifier::external_body]
#[verifier::reject_recursive_types(T)]
pub struct ExProducer<T>(rtrb::Producer<T>);

#[verifier::external_type_specification]
#[verifier::external_body]
#[verifier::reject_recursive_types(T)]
pub struct ExConsumer<T>(rtrb::Consumer<T>);

/// Relies on rtrb::RingBuffer::new, which creates a bounded queue of the
/// given capacity and hands back its two endpoints.
#[verifier::external_body]
pub fn channel_new<T>(capacity: usize) -> (rtrb::Producer<T>, rtrb::Consumer<T>) {
    rtrb::RingBuffer::new(capacity)
}

/// Relies on rtrb::Producer::push, which moves the value into the queue and
/// returns it instead when the queue is full.  Returns whether the value was
/// accepted; a refused value is dropped, since producers never block.
#[verifier::external_body]
pub fn channel_push<T>(tx: &mut rtrb::Producer<T>, value: T) -> (accepted: bool) {
    tx.push(value).is_ok()
}

/// Relies on rtrb::Consumer::pop, which moves the oldest element out of the
/// queue, or reports the queue empty at the time of the call.
#[verifier::external_body]
pub fn channel_pop<T>(rx: &mut rtrb::Consumer<T>) -> (r: Option<T>) {
    rx.pop().ok()
}

/// Relies on rtrb::Consumer::slots, which reports how many elements were
/// available for reading at the moment of the call; more may arrive at any
/// time.
#[verifier::external_body]
pub fn channel_slots<T>(rx: &rtrb::Consumer<T>) -> usize {
    rx.slots()
}

} // verus!
