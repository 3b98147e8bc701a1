//! The single-threaded merge sort: recursively halves a slice, sorts each
//! half, and merges the results.

use vstd::prelude::*;
use crate::merge::merge;
use crate::order::{Comparator, DefaultOrder};
use crate::sort_spec::{le_of, merge_sort_seq};
use crate::split_point;

verus! {

/// Sorts the given array using the default order. Uses a merge sort.
pub fn sort<T: Copy>(array: &[T]) -> (r: Vec<T>) where DefaultOrder: Comparator<T>
    ensures
        r@ == merge_sort_seq(array@, le_of(DefaultOrder)),
{
    sort_by(array, DefaultOrder)
}

/// A sorter parameterized by a comparison function. Uses a merge sort.
///
/// It uses the given comparator and sorts the whole array, returning a
/// newly allocated, stably sorted copy.
pub fn sort_by<T: Copy, C: Comparator<T>>(array: &[T], compare: C) -> (r: Vec<T>)
    ensures
        r@ == merge_sort_seq(array@, le_of(compare)),
{
    split(array, &compare)
}

/// Performs the "split" step of the merge sort algorithm, and then merges
/// the sorted halves. The base case is a slice of at most one element,
/// returned as a freshly copied vector.
pub(crate) fn split<T: Copy, C: Comparator<T>>(array: &[T], compare: &C) -> (r: Vec<T>)
    ensures
        r@ == merge_sort_seq(array@, le_of(*compare)),
    decreases array@.len(),
{
    if array.len() > 1 {
        // The middle index: the lower half receives ceil(length / 2)
        // elements, written so that it cannot overflow.
        let half = array.len() - array.len() / 2;
        proof {
            assert(half as int == split_point(array@.len() as int));
        }

        // Splits the slice in two.
        let (lower_slice, upper_slice) = array.split_at(half);

        // Sorts each half.
        let lower = split(lower_slice, compare);
        let upper = split(upper_slice, compare);

        // Merges the two halves.
        merge(lower, upper, compare)
    } else {
        // Copies the short slice into an owned vector.
        vstd::slice::slice_to_vec(array)
    }
}

} // verus!
