//! The histogram accumulator, provided by the `hdrhistogram` crate.
//!
//! The accumulator is held behind `ValueRecorder`, a struct the verifier
//! treats as opaque.  What it holds is named, not written out: `hist_values`
//! is the multiset of recorded values, and each operation says how it
//! changes.  The accumulator's statistics (mean, percentiles) are
//! floating-point work and are read outside the verified core, through the
//! recorder's inner field.

use hdrhistogram::Histogram as HdrHistogram;
use vstd::multiset::Multiset;
use vstd::prelude::*;

verus! {

/// Holds the outside accumulator; opaque to the verifier.
#[verifier::external_body]
pub struct ValueRecorder {
    pub inner: HdrHistogram<u64>,
}

/// The multiset of values a recorder holds.
pub uninterp spec fn hist_values(h: ValueRecorder) -> Multiset<u64>;

/// Relies on hdrhistogram::Histogram::new: three significant digits are an
/// accepted precision, so construction cannot fail, and the new accumulator
/// is empty, auto-resizing as recorded values demand.
#[verifier::external_body]
pub fn hist_new() -> (h: ValueRecorder)
    ensures
        hist_values(h) == Multiset::<u64>::empty(),
{
    ValueRecorder { inner: HdrHistogram::<u64>::new(3).unwrap() }
}

/// Relies on hdrhistogram::Histogram::record: with auto-resize on, a
/// recording is counted unless growing the value range fails; a refused
/// recording leaves the accumulator as it was, and the error's text is
/// handed back.
#[verifier::external_body]
pub fn hist_record(h: &mut ValueRecorder, value: u64) -> (r: Result<(), String>)
    ensures
        r is Ok ==> hist_values(*final(h)) == hist_values(*old(h)).insert(value),
        r is Err ==> hist_values(*final(h)) == hist_values(*old(h)),
{
    match h.inner.record(value) {
        Ok(()) => Ok(()),
        Err(e) => Err(format!("{}", e)),
    }
}

/// Relies on hdrhistogram::Histogram::reset: empties the accumulator and
/// resets its running statistics, keeping only its configuration.
#[verifier::external_body]
pub fn hist_reset(h: &mut ValueRecorder)
    ensures
        hist_values(*final(h)) == Multiset::<u64>::empty(),
{
    h.inner.reset()
}

/// Relies on hdrhistogram::Histogram::len: the total count of recorded
/// values, which saturates at the counter type's maximum.
#[verifier::external_body]
pub fn hist_len(h: &ValueRecorder) -> (r: u64)
    ensures
        hist_values(*h).len() <= u64::MAX ==> r == hist_values(*h).len(),
        hist_values(*h).len() > u64::MAX ==> r == u64::MAX,
{
    h.inner.len()
}

} // verus!
