//! The merge step shared by both execution strategies, implemented with the
//! pivot-carrying interleave: a single "current pivot" element is carried
//! between alternating drain passes over the two sorted halves, instead of
//! comparing the two heads directly at every step.
//!
//! A drain pass pulls elements from one half while they come before the
//! pivot, then appends the old pivot and installs the element that stopped
//! the pass as the new pivot. Ties must go to the lower half: when the
//! pivot came from the upper half, an equal element of the lower half is
//! still drained, so that equivalent elements keep lower-before-upper order
//! (stability).

use vstd::prelude::*;
use core::cmp::Ordering;
use crate::order::Comparator;
use crate::sort_spec::{le_of, merge_seq};

verus! {

/// Whether a drain pass consumes `elem` when `pivot` is the carried
/// element: strictly-before when the pass may not take ties (draining the
/// upper half), not-greater when it may (draining the lower half).
spec fn drained<T>(elem: T, pivot: T, take_equal: bool, leq: spec_fn(T, T) -> bool) -> bool {
    if take_equal {
        leq(elem, pivot)
    } else {
        !leq(pivot, elem)
    }
}

/// What one drain pass does, given the remaining elements `rem` of the half
/// being drained and the carried pivot: the elements it appends, the new
/// pivot (none if the half ran out), and how many elements of `rem` it
/// consumed.
spec fn drain_seq<T>(
    rem: Seq<T>,
    pivot: T,
    take_equal: bool,
    leq: spec_fn(T, T) -> bool,
) -> (Seq<T>, Option<T>, int)
    decreases rem.len(),
{
    if rem.len() == 0 {
        (seq![pivot], None::<T>, 0)
    } else if drained(rem[0], pivot, take_equal, leq) {
        let (emitted, new_pivot, consumed) = drain_seq(rem.drop_first(), pivot, take_equal, leq);
        (seq![rem[0]] + emitted, new_pivot, consumed + 1)
    } else {
        (seq![pivot], Some(rem[0]), 1)
    }
}

/// Bounds on what a drain pass consumes: never more elements than remain,
/// everything exactly when the half ran out, and at least the element that
/// became the new pivot otherwise.
proof fn lemma_drain_seq_consumed<T>(
    rem: Seq<T>,
    pivot: T,
    take_equal: bool,
    leq: spec_fn(T, T) -> bool,
)
    ensures
        0 <= drain_seq(rem, pivot, take_equal, leq).2 <= rem.len(),
        drain_seq(rem, pivot, take_equal, leq).1 is None ==> drain_seq(
            rem,
            pivot,
            take_equal,
            leq,
        ).2 == rem.len(),
        drain_seq(rem, pivot, take_equal, leq).1 is Some ==> drain_seq(
            rem,
            pivot,
            take_equal,
            leq,
        ).2 >= 1,
    decreases rem.len(),
{
    if rem.len() == 0 {
    } else if drained(rem[0], pivot, take_equal, leq) {
        lemma_drain_seq_consumed(rem.drop_first(), pivot, take_equal, leq);
    }
}

/// A drain pass that consumed a prefix of drained elements behaves, on the
/// whole remainder, as that prefix followed by the pass on what is left.
proof fn lemma_drain_seq_prefix<T>(
    rem: Seq<T>,
    k: int,
    pivot: T,
    take_equal: bool,
    leq: spec_fn(T, T) -> bool,
)
    requires
        0 <= k <= rem.len(),
        forall|i: int| 0 <= i < k ==> drained(#[trigger] rem[i], pivot, take_equal, leq),
    ensures
        ({
            let (emitted, new_pivot, consumed) = drain_seq(rem.skip(k), pivot, take_equal, leq);
            drain_seq(rem, pivot, take_equal, leq) == (
                rem.take(k) + emitted,
                new_pivot,
                consumed + k,
            )
        }),
    decreases k,
{
    let (emitted, new_pivot, consumed) = drain_seq(rem.skip(k), pivot, take_equal, leq);
    if k == 0 {
        assert(rem.skip(0) =~= rem);
        assert(rem.take(0) + emitted =~= emitted);
    } else {
        lemma_drain_seq_prefix(rem.drop_first(), k - 1, pivot, take_equal, leq);
        assert(rem.drop_first().skip(k - 1) =~= rem.skip(k));
        let (e1, np1, c1) = drain_seq(rem.drop_first(), pivot, take_equal, leq);
        assert(e1 == rem.drop_first().take(k - 1) + emitted);
        assert(drain_seq(rem, pivot, take_equal, leq) == (seq![rem[0]] + e1, np1, c1 + 1));
        assert(seq![rem[0]] + (rem.drop_first().take(k - 1) + emitted) =~= rem.take(k) + emitted);
    }
}

/// Draining the upper half against a pivot taken from the lower half
/// advances the pending merge: what the pass emits, followed by the merge
/// of what is left, is the merge of what was pending.
proof fn lemma_drain_upper<T>(lo_rest: Seq<T>, pivot: T, rem: Seq<T>, leq: spec_fn(T, T) -> bool)
    ensures
        ({
            let (emitted, new_pivot, consumed) = drain_seq(rem, pivot, false, leq);
            merge_seq(seq![pivot] + lo_rest, rem, leq) == emitted + (match new_pivot {
                Some(q) => merge_seq(lo_rest, seq![q] + rem.skip(consumed), leq),
                None => lo_rest,
            })
        }),
    decreases rem.len(),
{
    let (emitted, new_pivot, consumed) = drain_seq(rem, pivot, false, leq);
    let lo = seq![pivot] + lo_rest;
    assert(lo[0] == pivot);
    assert(lo.drop_first() =~= lo_rest);
    if rem.len() == 0 {
        assert(merge_seq(lo, rem, leq) == lo);
        assert(emitted + lo_rest =~= seq![pivot] + lo_rest);
    } else if drained(rem[0], pivot, false, leq) {
        // The upper head comes strictly before the pivot, so the merge
        // takes it, exactly as the pass does.
        assert(merge_seq(lo, rem, leq) == seq![rem[0]] + merge_seq(lo, rem.drop_first(), leq));
        lemma_drain_upper(lo_rest, pivot, rem.drop_first(), leq);
        lemma_drain_seq_consumed(rem.drop_first(), pivot, false, leq);
        let (e1, np1, c1) = drain_seq(rem.drop_first(), pivot, false, leq);
        assert(rem.drop_first().skip(c1) =~= rem.skip(consumed));
        let rest = (match new_pivot {
            Some(q) => merge_seq(lo_rest, seq![q] + rem.skip(consumed), leq),
            None => lo_rest,
        });
        assert(merge_seq(lo, rem.drop_first(), leq) == e1 + rest);
        assert(seq![rem[0]] + (e1 + rest) =~= (seq![rem[0]] + e1) + rest);
    } else {
        // The upper head is not strictly before the pivot, so the merge
        // takes the pivot; the pass appends it and carries the upper head.
        assert(leq(lo[0], rem[0]));
        assert(merge_seq(lo, rem, leq) == seq![pivot] + merge_seq(lo_rest, rem, leq));
        assert(seq![rem[0]] + rem.skip(1) =~= rem);
    }
}

/// Draining the lower half against a pivot taken from the upper half
/// advances the pending merge in the same way; here ties are drained, so
/// equivalent lower-half elements precede the pivot.
proof fn lemma_drain_lower<T>(hi_rest: Seq<T>, pivot: T, rem: Seq<T>, leq: spec_fn(T, T) -> bool)
    ensures
        ({
            let (emitted, new_pivot, consumed) = drain_seq(rem, pivot, true, leq);
            merge_seq(rem, seq![pivot] + hi_rest, leq) == emitted + (match new_pivot {
                Some(q) => merge_seq(seq![q] + rem.skip(consumed), hi_rest, leq),
                None => hi_rest,
            })
        }),
    decreases rem.len(),
{
    let (emitted, new_pivot, consumed) = drain_seq(rem, pivot, true, leq);
    let hi = seq![pivot] + hi_rest;
    assert(hi[0] == pivot);
    assert(hi.drop_first() =~= hi_rest);
    if rem.len() == 0 {
        assert(merge_seq(rem, hi, leq) == hi);
    } else if drained(rem[0], pivot, true, leq) {
        // The lower head is not greater than the pivot, so the merge takes
        // it (ties go to the lower half), exactly as the pass does.
        assert(leq(rem[0], hi[0]));
        assert(merge_seq(rem, hi, leq) == seq![rem[0]] + merge_seq(rem.drop_first(), hi, leq));
        lemma_drain_lower(hi_rest, pivot, rem.drop_first(), leq);
        lemma_drain_seq_consumed(rem.drop_first(), pivot, true, leq);
        let (e1, np1, c1) = drain_seq(rem.drop_first(), pivot, true, leq);
        assert(rem.drop_first().skip(c1) =~= rem.skip(consumed));
        let rest = (match new_pivot {
            Some(q) => merge_seq(seq![q] + rem.skip(consumed), hi_rest, leq),
            None => hi_rest,
        });
        assert(merge_seq(rem.drop_first(), hi, leq) == e1 + rest);
        assert(seq![rem[0]] + (e1 + rest) =~= (seq![rem[0]] + e1) + rest);
    } else {
        // The lower head is greater than the pivot, so the merge takes the
        // pivot; the pass appends it and carries the lower head.
        assert(!leq(rem[0], hi[0]));
        assert(merge_seq(rem, hi, leq) == seq![pivot] + merge_seq(rem, hi_rest, leq));
        assert(seq![rem[0]] + rem.skip(1) =~= rem);
    }
}

/// One drain pass of the merge: appends to `merged` every element of
/// `half` after `pos` that comes before the pivot, then the old pivot, and
/// installs the element that stopped the pass as the new pivot. With no
/// pivot left it appends everything that remains. Returns whether there
/// was a pivot, i.e. whether the merge must go on.
fn merge_while_less<T: Copy, C: Comparator<T>>(
    half: &Vec<T>,
    pos: &mut usize,
    pivot: &mut Option<T>,
    merged: &mut Vec<T>,
    take_equal: bool,
    compare: &C,
) -> (more: bool)
    requires
        *old(pos) <= half@.len(),
    ensures
        *old(pivot) is None ==> {
            &&& !more
            &&& *final(pivot) is None
            &&& *final(pos) == half@.len()
            &&& final(merged)@ == old(merged)@ + half@.skip(*old(pos) as int)
        },
        *old(pivot) matches Some(p) ==> {
            let (emitted, new_pivot, consumed) = drain_seq(
                half@.skip(*old(pos) as int),
                p,
                take_equal,
                le_of(*compare),
            );
            &&& more
            &&& final(merged)@ == old(merged)@ + emitted
            &&& *final(pivot) == new_pivot
            &&& *final(pos) == *old(pos) + consumed
        },
{
    let ghost leq = le_of::<T, C>(*compare);
    let pivot_elem = match pivot.take() {
        Some(elem) => elem,
        None => {
            // No pivot: the other half is exhausted, so everything that
            // remains here is already in order.
            proof {
                assert(merged@ + half@.subrange(*old(pos) as int, *pos as int) =~= merged@);
            }
            while *pos < half.len()
                invariant
                    *old(pos) <= *pos <= half@.len(),
                    merged@ == old(merged)@ + half@.subrange(*old(pos) as int, *pos as int),
                decreases half@.len() - *pos,
            {
                let ghost prev: int = *pos as int;
                merged.push(half[*pos]);
                *pos = *pos + 1;
                proof {
                    assert(half@.subrange(*old(pos) as int, prev + 1) =~= half@.subrange(
                        *old(pos) as int,
                        prev,
                    ).push(half@[prev]));
                    assert(old(merged)@ + half@.subrange(*old(pos) as int, prev).push(half@[prev])
                        =~= (old(merged)@ + half@.subrange(*old(pos) as int, prev)).push(
                        half@[prev],
                    ));
                }
            }
            proof {
                assert(half@.subrange(*old(pos) as int, half@.len() as int) =~= half@.skip(
                    *old(pos) as int,
                ));
            }
            return false;
        },
    };
    let ghost p = pivot_elem;
    let ghost rem = half@.skip(*old(pos) as int);
    loop
        invariant
            *old(pivot) == Some(p),
            pivot_elem == p,
            *pivot is None,
            *old(pos) <= *pos <= half@.len(),
            rem == half@.skip(*old(pos) as int),
            forall|i: int|
                *old(pos) <= i < *pos ==> drained(#[trigger] half@[i], p, take_equal, leq),
            merged@ == old(merged)@ + half@.subrange(*old(pos) as int, *pos as int),
            leq == le_of::<T, C>(*compare),
        decreases half@.len() - *pos,
    {
        let ghost k: int = *pos - *old(pos);
        proof {
            assert forall|i: int| 0 <= i < k implies drained(
                #[trigger] rem[i],
                p,
                take_equal,
                leq,
            ) by {
                assert(rem[i] == half@[*old(pos) + i]);
            }
            lemma_drain_seq_prefix(rem, k, p, take_equal, leq);
            assert(rem.skip(k) =~= half@.skip(*pos as int));
            assert(rem.take(k) =~= half@.subrange(*old(pos) as int, *pos as int));
        }
        if *pos >= half.len() {
            // This half ran out first: emit the pivot; the next pass sees
            // no pivot and finishes the merge.
            merged.push(pivot_elem);
            proof {
                assert(half@.skip(*pos as int) =~= Seq::<T>::empty());
                assert(drain_seq(half@.skip(*pos as int), p, take_equal, leq) == (
                    seq![p],
                    None::<T>,
                    0int,
                ));
                assert(drain_seq(rem, p, take_equal, leq) == (
                    rem.take(k) + seq![p],
                    None::<T>,
                    k,
                ));
                assert(old(merged)@ + rem.take(k).push(p) =~= (old(merged)@ + rem.take(k)).push(
                    p,
                ));
                assert(rem.take(k) + seq![p] =~= rem.take(k).push(p));
            }
            return true;
        }
        let elem = half[*pos];
        let less = match compare.compare(&elem, &pivot_elem) {
            Ordering::Less => true,
            Ordering::Equal => take_equal,
            Ordering::Greater => false,
        };
        proof {
            compare.total(elem, pivot_elem);
            assert(leq(elem, pivot_elem) == compare.le(elem, pivot_elem));
            assert(leq(pivot_elem, elem) == compare.le(pivot_elem, elem));
            assert(half@.skip(*pos as int)[0] == half@[*pos as int]);
            assert(half@.skip(*pos as int).drop_first() =~= half@.skip(*pos as int + 1));
        }
        if !less {
            // Found an element that must come after the pivot: emit the
            // old pivot and carry this element instead.
            *pivot = Some(elem);
            merged.push(pivot_elem);
            *pos = *pos + 1;
            proof {
                assert(!drained(elem, p, take_equal, leq));
                assert(drain_seq(half@.skip(*old(pos) + k), p, take_equal, leq) == (
                    seq![p],
                    Some(elem),
                    1int,
                ));
                assert(drain_seq(rem, p, take_equal, leq) == (
                    rem.take(k) + seq![p],
                    Some(elem),
                    k + 1,
                ));
                assert(old(merged)@ + rem.take(k).push(p) =~= (old(merged)@ + rem.take(k)).push(
                    p,
                ));
                assert(rem.take(k) + seq![p] =~= rem.take(k).push(p));
            }
            return true;
        }
        merged.push(elem);
        *pos = *pos + 1;
        proof {
            assert(drained(elem, p, take_equal, leq));
            assert(half@.subrange(*old(pos) as int, *old(pos) + k + 1) =~= half@.subrange(
                *old(pos) as int,
                *old(pos) + k,
            ).push(half@[*old(pos) + k]));
            assert(old(merged)@ + half@.subrange(*old(pos) as int, *old(pos) + k).push(
                half@[*old(pos) + k],
            ) =~= (old(merged)@ + half@.subrange(*old(pos) as int, *old(pos) + k)).push(
                half@[*old(pos) + k],
            ));
        }
    }
}

/// Merges two halves of a sorting target: alternating drain passes carry
/// the pivot back and forth until both halves are exhausted. Computes the
/// stable merge of the two sequences, whatever order they are in.
pub(crate) fn merge<T: Copy, C: Comparator<T>>(lower: Vec<T>, upper: Vec<T>, compare: &C) -> (r: Vec<T>)
    ensures
        r@ == merge_seq(lower@, upper@, le_of(*compare)),
{
    let ghost leq = le_of::<T, C>(*compare);
    let ghost total = merge_seq(lower@, upper@, leq);
    let mut merged: Vec<T> = Vec::new();
    let mut lower_pos: usize = 0;
    let mut upper_pos: usize = 0;

    // The pivot starts as the first element of the lower half, if any.
    let mut pivot: Option<T> = if lower.len() > 0 {
        lower_pos = 1;
        Some(lower[0])
    } else {
        None
    };
    proof {
        assert(upper@.skip(0) =~= upper@);
        if lower@.len() > 0 {
            assert(seq![lower@[0]] + lower@.skip(1) =~= lower@);
            assert(merged@ + merge_seq(seq![lower@[0]] + lower@.skip(1), upper@.skip(0), leq)
                =~= total);
        } else {
            assert(lower@.skip(0) =~= lower@);
            assert(merge_seq(lower@, upper@, leq) == upper@);
            assert(merged@ + upper@.skip(0) =~= total);
        }
    }

    loop
        invariant
            lower_pos <= lower@.len(),
            upper_pos <= upper@.len(),
            leq == le_of::<T, C>(*compare),
            total == merge_seq(lower@, upper@, leq),
            match pivot {
                Some(p) => merged@ + merge_seq(
                    seq![p] + lower@.skip(lower_pos as int),
                    upper@.skip(upper_pos as int),
                    leq,
                ) == total,
                None => lower_pos == lower@.len() && merged@ + upper@.skip(upper_pos as int)
                    == total,
            },
        ensures
            merged@ == total,
        decreases
            lower@.len() - lower_pos + upper@.len() - upper_pos + (if pivot is Some {
                1int
            } else {
                0int
            }),
    {
        let ghost pivot0 = pivot;
        let ghost merged0 = merged@;
        let ghost upper_pos0: usize = upper_pos;
        proof {
            match pivot0 {
                Some(p) => {
                    lemma_drain_upper(
                        lower@.skip(lower_pos as int),
                        p,
                        upper@.skip(upper_pos0 as int),
                        leq,
                    );
                    lemma_drain_seq_consumed(upper@.skip(upper_pos0 as int), p, false, leq);
                },
                None => {},
            }
        }
        if !merge_while_less(&upper, &mut upper_pos, &mut pivot, &mut merged, false, compare) {
            // The pivot was gone: the lower half was exhausted and the
            // rest of the upper half has been appended.
            proof {
                assert(merged@ =~= total);
            }
            break;
        }
        proof {
            let p = pivot0->Some_0;
            let (emitted, new_pivot, consumed) = drain_seq(
                upper@.skip(upper_pos0 as int),
                p,
                false,
                leq,
            );
            assert(upper@.skip(upper_pos0 as int).skip(consumed) =~= upper@.skip(
                upper_pos0 + consumed,
            ));
            let rest = (match new_pivot {
                Some(q) => merge_seq(
                    lower@.skip(lower_pos as int),
                    seq![q] + upper@.skip(upper_pos as int),
                    leq,
                ),
                None => lower@.skip(lower_pos as int),
            });
            assert(merge_seq(
                seq![p] + lower@.skip(lower_pos as int),
                upper@.skip(upper_pos0 as int),
                leq,
            ) == emitted + rest);
            assert((merged0 + emitted) + rest =~= merged0 + (emitted + rest));
            assert(merged@ + rest == total);
        }
        let ghost pivot1 = pivot;
        let ghost merged1 = merged@;
        let ghost lower_pos1: usize = lower_pos;
        proof {
            match pivot1 {
                Some(q) => {
                    lemma_drain_lower(
                        upper@.skip(upper_pos as int),
                        q,
                        lower@.skip(lower_pos1 as int),
                        leq,
                    );
                    lemma_drain_seq_consumed(lower@.skip(lower_pos1 as int), q, true, leq);
                },
                None => {},
            }
        }
        if !merge_while_less(&lower, &mut lower_pos, &mut pivot, &mut merged, true, compare) {
            // The pivot was gone again: the upper half was exhausted and
            // the rest of the lower half has been appended.
            proof {
                assert(merged@ =~= total);
            }
            break;
        }
        proof {
            let q = pivot1->Some_0;
            let (emitted, new_pivot, consumed) = drain_seq(
                lower@.skip(lower_pos1 as int),
                q,
                true,
                leq,
            );
            assert(lower@.skip(lower_pos1 as int).skip(consumed) =~= lower@.skip(
                lower_pos1 + consumed,
            ));
            let rest = (match new_pivot {
                Some(l) => merge_seq(
                    seq![l] + lower@.skip(lower_pos as int),
                    upper@.skip(upper_pos as int),
                    leq,
                ),
                None => upper@.skip(upper_pos as int),
            });
            assert(merge_seq(
                lower@.skip(lower_pos1 as int),
                seq![q] + upper@.skip(upper_pos as int),
                leq,
            ) == emitted + rest);
            assert((merged1 + emitted) + rest =~= merged1 + (emitted + rest));
            assert(merged@ + rest == total);
        }
    }
    merged
}

} // verus!
