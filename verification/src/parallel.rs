//! The fork-join parallel merge sort: the same divide-and-conquer algorithm
//! as the sequential strategy, additionally carrying a thread budget. While
//! the budget allows, the recursive solve of the upper half is offloaded to
//! a freshly spawned worker thread and the budget is halved for each
//! branch; once the budget is exhausted both halves are solved on the
//! current thread.
//!
//! The input array and the comparator are shared read-only across the
//! recursion tree through reference-counted handles; every call returns a
//! newly allocated vector, so no worker ever writes to shared state.

use vstd::prelude::*;
use vstd::*;
use std::sync::Arc;

use core::marker::PhantomData;
use core::ops::Range;
use crate::merge::merge;
use crate::order::{Comparator, DefaultOrder, Reversed};
use crate::sort_spec::{le_of, merge_sort_seq};
use crate::split_point;

verus! {

/// Relies on num_cpus::get: the number of logical CPUs, always at least 1.
#[verifier::external_body]
fn logical_cpus() -> (n: usize)
    ensures
        n >= 1,
{
    num_cpus::get()
}

/// Relies on num_cpus::get_physical: the number of physical CPUs, always at
/// least 1.
#[verifier::external_body]
fn physical_cpus() -> (n: usize)
    ensures
        n >= 1,
{
    num_cpus::get_physical()
}

/// Relies on Arc::clone: a new handle to the same shared value; vstd gives
/// it no specification.
#[verifier::external_body]
fn clone_arc<T>(arc: &Arc<T>) -> (r: Arc<T>)
    ensures
        r == *arc,
{
    Arc::clone(arc)
}

/// A parallel merge sort. This function uses the default order, sorts the
/// whole array, and spawns one thread per logical CPU. For customization,
/// see [`SortOptions`].
pub fn sort<T>(array: &Arc<Vec<T>>) -> (r: Vec<T>) where
    T: Copy + Send + Sync + 'static,
    DefaultOrder: Comparator<T>,

    ensures
        r@ == merge_sort_seq(array@, le_of(DefaultOrder)),
{
    let r = default_order().sort(array);
    proof {
        assert(array@.subrange(0, array@.len() as int) =~= array@);
    }
    r
}

/// A parallel merge sort over the sub-range `[range.start, range.end)` of
/// the array, in natural ascending order, with one thread per logical CPU.
pub fn sort_range<T>(array: &Arc<Vec<T>>, range: Range<usize>) -> (r: Vec<T>) where
    T: Copy + Send + Sync + 'static,
    DefaultOrder: Comparator<T>,

    requires
        range.start <= range.end <= array@.len(),
    ensures
        r@ == merge_sort_seq(
            array@.subrange(range.start as int, range.end as int),
            le_of(DefaultOrder),
        ),
{
    default_order().range(range).sort(array)
}

/// A parallel merge sort over the sub-range `[range.start, range.end)` of
/// the array, ordered by a caller-supplied comparator, with one thread per
/// logical CPU.
pub fn sort_range_by<T, C>(array: &Arc<Vec<T>>, range: Range<usize>, compare: C) -> (r: Vec<
    T,
>) where
    T: Copy + Send + Sync + 'static,
    C: Comparator<T> + Send + Sync + 'static,

    requires
        range.start <= range.end <= array@.len(),
    ensures
        r@ == merge_sort_seq(
            array@.subrange(range.start as int, range.end as int),
            le_of(compare),
        ),
{
    custom_order(compare).range(range).sort(array)
}

/// Options for a parallel sort in the element type's natural ascending
/// order, over the full array, with one thread per logical CPU.
pub fn default_order<T: Copy>() -> (r: SortOptions<T, DefaultOrder>) where
    DefaultOrder: Comparator<T>,

    ensures
        r.ordering() == le_of::<T, DefaultOrder>(DefaultOrder),
        r.selected_range() is None,
        r.thread_count() >= 1,
{
    SortOptions {
        threads: logical_cpus(),
        compare: Arc::new(DefaultOrder),
        range: None,
        _marker: PhantomData,
    }
}

/// Options for a parallel sort in the element type's natural descending
/// order, over the full array, with one thread per logical CPU.
pub fn reverse_order<T: Copy>() -> (r: SortOptions<T, Reversed<DefaultOrder>>) where
    DefaultOrder: Comparator<T>,

    ensures
        r.ordering() == le_of::<T, Reversed<DefaultOrder>>(Reversed(DefaultOrder)),
        r.selected_range() is None,
        r.thread_count() >= 1,
{
    SortOptions {
        threads: logical_cpus(),
        compare: Arc::new(Reversed(DefaultOrder)),
        range: None,
        _marker: PhantomData,
    }
}

/// Options for a parallel sort with a caller-supplied comparator, over the
/// full array, with one thread per logical CPU.
pub fn custom_order<T, C: Comparator<T>>(compare: C) -> (r: SortOptions<T, C>)
    ensures
        r.ordering() == le_of(compare),
        r.selected_range() is None,
        r.thread_count() >= 1,
{
    SortOptions {
        threads: logical_cpus(),
        compare: Arc::new(compare),
        range: None,
        _marker: PhantomData,
    }
}

/// Options to configure the parallel merge sort.
pub struct SortOptions<T, C> {
    /// On how many threads the sorting will be executed.
    threads: usize,
    /// Comparison function.
    compare: Arc<C>,
    /// What range of the array will be sorted. `None` automatically selects
    /// the full array.
    range: Option<Range<usize>>,
    /// Here so we can have T as a type parameter.
    _marker: PhantomData<T>,
}

impl<T, C: Comparator<T>> SortOptions<T, C> {
    /// The configured thread budget.
    pub closed spec fn thread_count(&self) -> usize {
        self.threads
    }

    /// The configured sub-range, if one is set.
    pub closed spec fn selected_range(&self) -> Option<(int, int)> {
        match self.range {
            Some(r) => Some((r.start as int, r.end as int)),
            None => None,
        }
    }

    /// The ordering of the configured comparator.
    pub closed spec fn ordering(&self) -> spec_fn(T, T) -> bool {
        le_of(*self.compare)
    }

    /// The start of the range that a run on `array` would sort.
    pub open spec fn effective_start(&self, array: Seq<T>) -> int {
        match self.selected_range() {
            Some(r) => r.0,
            None => 0,
        }
    }

    /// The end of the range that a run on `array` would sort.
    pub open spec fn effective_end(&self, array: Seq<T>) -> int {
        match self.selected_range() {
            Some(r) => r.1,
            None => array.len() as int,
        }
    }

    /// Whether the configured range fits `array`: a set range must satisfy
    /// `start <= end <= length`, the same trust boundary as indexing.
    pub open spec fn valid_for(&self, array: Seq<T>) -> bool {
        match self.selected_range() {
            Some(r) => 0 <= r.0 <= r.1 <= array.len(),
            None => true,
        }
    }

    /// Sets the number of threads used.
    pub fn threads(self, threads: usize) -> (r: Self)
        ensures
            r.thread_count() == threads,
            r.selected_range() == self.selected_range(),
            r.ordering() == self.ordering(),
    {
        Self { threads, ..self }
    }

    /// Sets the number of threads to the number of logical CPUs (default).
    pub fn thread_per_cpu(self) -> (r: Self)
        ensures
            r.thread_count() >= 1,
            r.selected_range() == self.selected_range(),
            r.ordering() == self.ordering(),
    {
        let n = logical_cpus();
        self.threads(n)
    }

    /// Sets the number of threads to the number of physical CPUs.
    pub fn thread_per_physical_cpu(self) -> (r: Self)
        ensures
            r.thread_count() >= 1,
            r.selected_range() == self.selected_range(),
            r.ordering() == self.ordering(),
    {
        let n = physical_cpus();
        self.threads(n)
    }

    /// Sets the range of the array on which sort will happen.
    pub fn range(self, range: Range<usize>) -> (r: Self)
        ensures
            r.selected_range() == Some((range.start as int, range.end as int)),
            r.thread_count() == self.thread_count(),
            r.ordering() == self.ordering(),
    {
        Self { range: Some(range), ..self }
    }

    /// Sets the array to be fully sorted (default).
    pub fn full_range(self) -> (r: Self)
        ensures
            r.selected_range() is None,
            r.thread_count() == self.thread_count(),
            r.ordering() == self.ordering(),
    {
        Self { range: None, ..self }
    }

    /// Sorts the given array using the given options: resolves the
    /// effective range (the full array if none is set) and runs the
    /// parallel recursion over it with the configured comparator and
    /// thread budget. The result never depends on the thread budget.
    pub fn sort(&self, array: &Arc<Vec<T>>) -> (r: Vec<T>) where
        T: Copy + Send + Sync + 'static,
        C: Send + Sync + 'static,

        requires
            self.valid_for(array@),
        ensures
            r@ == merge_sort_seq(
                array@.subrange(self.effective_start(array@), self.effective_end(array@)),
                self.ordering(),
            ),
    {
        let (start, end) = match &self.range {
            Some(r) => (r.start, r.end),
            None => (0, array.len()),
        };
        split(array, start, end, &self.compare, self.threads)
    }
}

/// Performs the "split" step of the merge sort algorithm over the range
/// `[start, end)`, and then merges the sorted halves. While the thread
/// budget is above one, the upper half is solved on a freshly spawned
/// worker thread with half the budget; otherwise both halves are solved on
/// the current thread. The result never depends on the budget.
fn split<T, C>(
    array: &Arc<Vec<T>>,
    start: usize,
    end: usize,
    compare: &Arc<C>,
    threads: usize,
) -> (r: Vec<T>) where
    T: Copy + Send + Sync + 'static,
    C: Comparator<T> + Send + Sync + 'static,

    requires
        start <= end <= array@.len(),
    ensures
        r@ == merge_sort_seq(array@.subrange(start as int, end as int), le_of(**compare)),
    decreases end - start,
{
    if end - start > 1 {
        // The middle index: the lower half receives ceil(length / 2)
        // elements, written so that it cannot overflow.
        let half = end - (end - start) / 2;
        proof {
            assert(half - start == split_point(end - start));
            assert(array@.subrange(start as int, end as int).subrange(0, half - start)
                =~= array@.subrange(start as int, half as int));
            assert(array@.subrange(start as int, end as int).subrange(half - start, end - start)
                =~= array@.subrange(half as int, end as int));
        }

        let (lower, upper) = if threads > 1 {
            // Spawns the thread that sorts the upper half, handing it its
            // own handles to the shared array and comparator.
            let upper_handle = {
                let array = clone_arc(array);
                let compare = clone_arc(compare);

                thread::spawn(move || -> (v: Vec<T>)
                    ensures
                        v@ == merge_sort_seq(
                            array@.subrange(half as int, end as int),
                            le_of(*compare),
                        ),
                    {
                        split(&array, half, end, &compare, threads / 2)
                    })
            };

            // Sorts the lower half on the current thread.
            let lower = split(array, start, half, compare, threads / 2);
            // Joins the upper thread. A worker that could not deliver its
            // result is made up for on the current thread.
            let upper = match upper_handle.join() {
                Ok(v) => v,
                Err(_) => split(array, half, end, compare, 1),
            };

            (lower, upper)
        } else {
            // Budget exhausted: sorts both halves on the current thread.
            let lower = split(array, start, half, compare, 1);
            let upper = split(array, half, end, compare, 1);

            (lower, upper)
        };

        // Merges the two halves.
        merge(lower, upper, &**compare)
    } else {
        // Copies the short range of the shared array into an owned vector.
        let mut out: Vec<T> = Vec::new();
        if end > start {
            out.push(array[start]);
        }
        proof {
            if end > start {
                assert(array@.subrange(start as int, end as int) =~= seq![array@[start as int]]);
                assert(out@ =~= seq![array@[start as int]]);
            } else {
                assert(array@.subrange(start as int, end as int) =~= Seq::<T>::empty());
            }
        }
        out
    }
}

} // verus!
