//! Metrics of the counting allocator.
//!
//! The allocator itself wraps the global allocator and cannot live in the
//! verified core; what lives here is its metric catalogue — the fixed
//! (name, id, tags) triples registered before the agent becomes the active
//! backend — and the size rounding its byte counters use.

use crate::{Id, PreAllocatedMetric};
use vstd::prelude::*;

verus! {

pub const ALLOC_COUNTER_ID: Id = 18446744073709550611;

pub const ALLOC_BYTES_COUNTER_ID: Id = 18446744073709550612;

pub const DEALLOC_COUNTER_ID: Id = 18446744073709550613;

pub const DEALLOC_BYTES_COUNTER_ID: Id = 18446744073709550614;

/// Counts allocations and de-allocations of the program through
/// pre-allocated counters, delegating the actual memory work to a concrete
/// allocator.
pub struct CountingAllocator;

impl CountingAllocator {
    /// The default counters to register for the counting allocator: the
    /// allocation and de-allocation counts and byte totals, each under its
    /// fixed id and tagged with the operation's name.
    pub fn counters() -> (r: Vec<PreAllocatedMetric>)
        ensures
            r@.len() == 4,
            r@[0] matches PreAllocatedMetric::Counter { name, id, tags } && name@
                == "global_allocator"@ && id == ALLOC_COUNTER_ID && tags.deep_view() =~= seq![
                ("fn_name"@, "alloc"@),
            ],
            r@[1] matches PreAllocatedMetric::Counter { name, id, tags } && name@
                == "global_allocator"@ && id == ALLOC_BYTES_COUNTER_ID && tags.deep_view()
                =~= seq![("fn_name"@, "alloc_bytes"@)],
            r@[2] matches PreAllocatedMetric::Counter { name, id, tags } && name@
                == "global_allocator"@ && id == DEALLOC_COUNTER_ID && tags.deep_view() =~= seq![
                ("fn_name"@, "dealloc"@),
            ],
            r@[3] matches PreAllocatedMetric::Counter { name, id, tags } && name@
                == "global_allocator"@ && id == DEALLOC_BYTES_COUNTER_ID && tags.deep_view()
                =~= seq![("fn_name"@, "dealloc_bytes"@)],
    {
        let mut r: Vec<PreAllocatedMetric> = Vec::new();
        r.push(PreAllocatedMetric::counter(
            "global_allocator",
            ALLOC_COUNTER_ID,
            &[("fn_name", "alloc")],
        ));
        r.push(PreAllocatedMetric::counter(
            "global_allocator",
            ALLOC_BYTES_COUNTER_ID,
            &[("fn_name", "alloc_bytes")],
        ));
        r.push(PreAllocatedMetric::counter(
            "global_allocator",
            DEALLOC_COUNTER_ID,
            &[("fn_name", "dealloc")],
        ));
        r.push(PreAllocatedMetric::counter(
            "global_allocator",
            DEALLOC_BYTES_COUNTER_ID,
            &[("fn_name", "dealloc_bytes")],
        ));
        r
    }
}

/// Rounds an allocation size up to the alignment's next multiple: the
/// smallest aligned size that holds the request.
pub fn get_aligned_size(size: usize, align: usize) -> (r: usize)
    requires
        1 <= align,
        size + align <= usize::MAX,
    ensures
        r % align == 0,
        size <= r,
        r < size + align,
{
    let rem = size % align;
    if rem == 0 {
        size
    } else {
        let r = size + (align - rem);
        proof {
            assert(r % align == 0 && size <= r < size + align) by (nonlinear_arith)
                requires
                    1 <= align,
                    rem == size % align,
                    rem != 0,
                    r == size + (align - rem),
                    size + align <= usize::MAX,
            ;
        }
        r
    }
}

} // verus!
