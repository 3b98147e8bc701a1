//! A comparator-parameterized merge sort, offered in two execution
//! strategies over the same divide-and-conquer algorithm: a single-threaded
//! recursive merge sort and a fork-join parallel merge sort that spawns
//! worker threads until a thread budget is exhausted.
//!
//! Both strategies return a newly allocated, stably sorted copy of the
//! selected range; the input is never mutated.

use vstd::prelude::*;

pub mod merge;
pub mod order;
pub mod parallel;
pub mod sequential;
pub mod sort_spec;

verus! {

/// The midpoint used by every split step: the lower half receives
/// `ceil(len / 2)` elements, the upper half the rest.
pub open spec fn split_point(len: int) -> int {
    len - len / 2
}

} // verus!
