//! The comparator abstraction: a total-order predicate over two elements,
//! injectable by the caller.
//!
//! A [`Comparator`] carries a specification-level ordering `le` (a total
//! preorder: total and transitive, but not necessarily antisymmetric, so
//! distinct elements may compare equal) and an executable three-way
//! comparison that agrees with it. Sorting never distinguishes elements
//! beyond what `le` says, which is what makes stability meaningful.

use vstd::prelude::*;
use core::cmp::Ordering;

verus! {

/// A total-order predicate over two elements of `T`.
///
/// `le(a, b)` is the comparator's notion of "`a` is not greater than `b`".
/// It must be total and transitive; it need not be antisymmetric, so two
/// distinct elements may be equivalent under the comparator.
pub trait Comparator<T>: Sized {
    /// The ordering this comparator decides by.
    spec fn le(&self, a: T, b: T) -> bool;

    /// Any two elements are comparable.
    proof fn total(&self, a: T, b: T)
        ensures
            self.le(a, b) || self.le(b, a),
    ;

    /// The ordering is transitive.
    proof fn transitive(&self, a: T, b: T, c: T)
        requires
            self.le(a, b),
            self.le(b, c),
        ensures
            self.le(a, c),
    ;

    /// Three-way comparison, consistent with `le`.
    fn compare(&self, a: &T, b: &T) -> (r: Ordering)
        ensures
            r == Ordering::Less <==> (self.le(*a, *b) && !self.le(*b, *a)),
            r == Ordering::Equal <==> (self.le(*a, *b) && self.le(*b, *a)),
            r == Ordering::Greater <==> (self.le(*b, *a) && !self.le(*a, *b)),
    ;
}

/// A comparator turned around: orders by the underlying comparator's
/// ordering with the operands swapped, so ascending becomes descending.
pub struct Reversed<C>(pub C);

impl<T, C: Comparator<T>> Comparator<T> for Reversed<C> {
    open spec fn le(&self, a: T, b: T) -> bool {
        self.0.le(b, a)
    }

    proof fn total(&self, a: T, b: T) {
        self.0.total(b, a);
    }

    proof fn transitive(&self, a: T, b: T, c: T) {
        self.0.transitive(c, b, a);
    }

    fn compare(&self, a: &T, b: &T) -> (r: Ordering) {
        self.0.compare(b, a)
    }
}

/// The element type's natural ascending order.
#[derive(Clone, Copy)]
pub struct DefaultOrder;

/// A caller-supplied order that compares only parity: every even number
/// comes before every odd one, and numbers of equal parity are equivalent.
/// Distinct numbers the comparator cannot tell apart make the sort's
/// stability observable.
#[derive(Clone, Copy)]
pub struct ParityOnly;

impl Comparator<i64> for ParityOnly {
    open spec fn le(&self, a: i64, b: i64) -> bool {
        a & 1 <= b & 1
    }

    proof fn total(&self, a: i64, b: i64) {
    }

    proof fn transitive(&self, a: i64, b: i64, c: i64) {
    }

    fn compare(&self, a: &i64, b: &i64) -> (r: Ordering) {
        let pa = *a & 1;
        let pb = *b & 1;
        if pa < pb {
            Ordering::Less
        } else if pa == pb {
            Ordering::Equal
        } else {
            Ordering::Greater
        }
    }
}

/// A caller-supplied order separating even numbers from odd ones: every
/// even number comes before every odd one, and numbers of equal parity
/// come in ascending order.
#[derive(Clone, Copy)]
pub struct EvenFirst;

impl Comparator<i64> for EvenFirst {
    open spec fn le(&self, a: i64, b: i64) -> bool {
        if a & 1 == b & 1 {
            a <= b
        } else {
            a & 1 < b & 1
        }
    }

    proof fn total(&self, a: i64, b: i64) {
    }

    proof fn transitive(&self, a: i64, b: i64, c: i64) {
    }

    fn compare(&self, a: &i64, b: &i64) -> (r: Ordering) {
        let pa = *a & 1;
        let pb = *b & 1;
        if pa == pb {
            if *a < *b {
                Ordering::Less
            } else if *a == *b {
                Ordering::Equal
            } else {
                Ordering::Greater
            }
        } else if pa < pb {
            Ordering::Less
        } else {
            Ordering::Greater
        }
    }
}

impl Comparator<i64> for DefaultOrder {
    open spec fn le(&self, a: i64, b: i64) -> bool {
        a <= b
    }

    proof fn total(&self, a: i64, b: i64) {
    }

    proof fn transitive(&self, a: i64, b: i64, c: i64) {
    }

    fn compare(&self, a: &i64, b: &i64) -> (r: Ordering) {
        if *a < *b {
            Ordering::Less
        } else if *a == *b {
            Ordering::Equal
        } else {
            Ordering::Greater
        }
    }
}

impl Comparator<i8> for DefaultOrder {
    open spec fn le(&self, a: i8, b: i8) -> bool {
        a <= b
    }

    proof fn total(&self, a: i8, b: i8) {
    }

    proof fn transitive(&self, a: i8, b: i8, c: i8) {
    }

    fn compare(&self, a: &i8, b: &i8) -> (r: Ordering) {
        if *a < *b {
            Ordering::Less
        } else if *a == *b {
            Ordering::Equal
        } else {
            Ordering::Greater
        }
    }
}

impl Comparator<i16> for DefaultOrder {
    open spec fn le(&self, a: i16, b: i16) -> bool {
        a <= b
    }

    proof fn total(&self, a: i16, b: i16) {
    }

    proof fn transitive(&self, a: i16, b: i16, c: i16) {
    }

    fn compare(&self, a: &i16, b: &i16) -> (r: Ordering) {
        if *a < *b {
            Ordering::Less
        } else if *a == *b {
            Ordering::Equal
        } else {
            Ordering::Greater
        }
    }
}

impl Comparator<i32> for DefaultOrder {
    open spec fn le(&self, a: i32, b: i32) -> bool {
        a <= b
    }

    proof fn total(&self, a: i32, b: i32) {
    }

    proof fn transitive(&self, a: i32, b: i32, c: i32) {
    }

    fn compare(&self, a: &i32, b: &i32) -> (r: Ordering) {
        if *a < *b {
            Ordering::Less
        } else if *a == *b {
            Ordering::Equal
        } else {
            Ordering::Greater
        }
    }
}

impl Comparator<u8> for DefaultOrder {
    open spec fn le(&self, a: u8, b: u8) -> bool {
        a <= b
    }

    proof fn total(&self, a: u8, b: u8) {
    }

    proof fn transitive(&self, a: u8, b: u8, c: u8) {
    }

    fn compare(&self, a: &u8, b: &u8) -> (r: Ordering) {
        if *a < *b {
            Ordering::Less
        } else if *a == *b {
            Ordering::Equal
        } else {
            Ordering::Greater
        }
    }
}

impl Comparator<u16> for DefaultOrder {
    open spec fn le(&self, a: u16, b: u16) -> bool {
        a <= b
    }

    proof fn total(&self, a: u16, b: u16) {
    }

    proof fn transitive(&self, a: u16, b: u16, c: u16) {
    }

    fn compare(&self, a: &u16, b: &u16) -> (r: Ordering) {
        if *a < *b {
            Ordering::Less
        } else if *a == *b {
            Ordering::Equal
        } else {
            Ordering::Greater
        }
    }
}

impl Comparator<u32> for DefaultOrder {
    open spec fn le(&self, a: u32, b: u32) -> bool {
        a <= b
    }

    proof fn total(&self, a: u32, b: u32) {
    }

    proof fn transitive(&self, a: u32, b: u32, c: u32) {
    }

    fn compare(&self, a: &u32, b: &u32) -> (r: Ordering) {
        if *a < *b {
            Ordering::Less
        } else if *a == *b {
            Ordering::Equal
        } else {
            Ordering::Greater
        }
    }
}

impl Comparator<u64> for DefaultOrder {
    open spec fn le(&self, a: u64, b: u64) -> bool {
        a <= b
    }

    proof fn total(&self, a: u64, b: u64) {
    }

    proof fn transitive(&self, a: u64, b: u64, c: u64) {
    }

    fn compare(&self, a: &u64, b: &u64) -> (r: Ordering) {
        if *a < *b {
            Ordering::Less
        } else if *a == *b {
            Ordering::Equal
        } else {
            Ordering::Greater
        }
    }
}

impl Comparator<usize> for DefaultOrder {
    open spec fn le(&self, a: usize, b: usize) -> bool {
        a <= b
    }

    proof fn total(&self, a: usize, b: usize) {
    }

    proof fn transitive(&self, a: usize, b: usize, c: usize) {
    }

    fn compare(&self, a: &usize, b: &usize) -> (r: Ordering) {
        if *a < *b {
            Ordering::Less
        } else if *a == *b {
            Ordering::Equal
        } else {
            Ordering::Greater
        }
    }
}

impl Comparator<isize> for DefaultOrder {
    open spec fn le(&self, a: isize, b: isize) -> bool {
        a <= b
    }

    proof fn total(&self, a: isize, b: isize) {
    }

    proof fn transitive(&self, a: isize, b: isize, c: isize) {
    }

    fn compare(&self, a: &isize, b: &isize) -> (r: Ordering) {
        if *a < *b {
            Ordering::Less
        } else if *a == *b {
            Ordering::Equal
        } else {
            Ordering::Greater
        }
    }
}

} // verus!
