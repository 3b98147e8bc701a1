//! The mathematical model of the sort: a specification-level stable merge
//! sort that every execution strategy is proved to compute, together with
//! the laws that hold of it (the multiset of elements is preserved, the
//! output is sorted, equivalent elements keep their input order, and a
//! sorted input comes back unchanged).

use vstd::prelude::*;
use vstd::multiset::Multiset;
use vstd::relations::{sorted_by, strongly_connected, transitive};
use vstd::seq_lib::lemma_multiset_commutative;
use crate::order::Comparator;
use crate::split_point;

verus! {

/// What the sort demands of an ordering: any two elements are comparable
/// and the ordering is transitive. Antisymmetry is not demanded, so
/// distinct elements may be equivalent; stability decides their order.
pub open spec fn total_preorder<T>(leq: spec_fn(T, T) -> bool) -> bool {
    &&& strongly_connected(leq)
    &&& transitive(leq)
}

/// Equivalence under an ordering: neither element is strictly before the
/// other.
pub open spec fn equiv_under<T>(leq: spec_fn(T, T) -> bool, x: T) -> spec_fn(T) -> bool {
    |y: T| leq(x, y) && leq(y, x)
}

/// The comparator's ordering as a binary relation on `T`, the form in which
/// the specification functions below consume it.
pub open spec fn le_of<T, C: Comparator<T>>(c: C) -> spec_fn(T, T) -> bool {
    |a: T, b: T| c.le(a, b)
}

/// Every comparator's ordering is a total preorder: that is exactly what
/// its `total` and `transitive` obligations say.
pub proof fn lemma_comparator_total_preorder<T, C: Comparator<T>>(c: C)
    ensures
        total_preorder(le_of(c)),
{
    let leq = le_of(c);
    assert forall|x: T, y: T| #[trigger] leq(x, y) || #[trigger] leq(y, x) by {
        c.total(x, y);
    }
    assert forall|x: T, y: T, z: T| #[trigger] leq(x, y) && #[trigger] leq(y, z) implies leq(
        x,
        z,
    ) by {
        c.transitive(x, y, z);
    }
}

/// The stable merge of two sequences: whenever both are nonempty, the left
/// head is taken exactly when it is not greater than the right head, so
/// that equivalent elements of the left sequence precede those of the
/// right.
pub open spec fn merge_seq<T>(lo: Seq<T>, hi: Seq<T>, leq: spec_fn(T, T) -> bool) -> Seq<T>
    decreases lo.len() + hi.len(),
{
    if lo.len() == 0 {
        hi
    } else if hi.len() == 0 {
        lo
    } else if leq(lo[0], hi[0]) {
        seq![lo[0]] + merge_seq(lo.drop_first(), hi, leq)
    } else {
        seq![hi[0]] + merge_seq(lo, hi.drop_first(), leq)
    }
}

/// The merge sort itself: split at `split_point` (the lower half gets
/// `ceil(len / 2)` elements, as every execution strategy splits), sort each
/// half, and merge stably.
pub open spec fn merge_sort_seq<T>(s: Seq<T>, leq: spec_fn(T, T) -> bool) -> Seq<T>
    decreases s.len(),
{
    if s.len() <= 1 {
        s
    } else {
        let mid = split_point(s.len() as int);
        merge_seq(
            merge_sort_seq(s.subrange(0, mid), leq),
            merge_sort_seq(s.subrange(mid, s.len() as int), leq),
            leq,
        )
    }
}

/// A merge contains one element for each element of its operands.
pub proof fn lemma_merge_seq_len<T>(lo: Seq<T>, hi: Seq<T>, leq: spec_fn(T, T) -> bool)
    ensures
        merge_seq(lo, hi, leq).len() == lo.len() + hi.len(),
    decreases lo.len() + hi.len(),
{
    if lo.len() == 0 {
    } else if hi.len() == 0 {
    } else if leq(lo[0], hi[0]) {
        lemma_merge_seq_len(lo.drop_first(), hi, leq);
    } else {
        lemma_merge_seq_len(lo, hi.drop_first(), leq);
    }
}

/// A merge contains exactly the elements of its operands: nothing is
/// added, lost, or duplicated.
pub proof fn lemma_merge_seq_multiset<T>(lo: Seq<T>, hi: Seq<T>, leq: spec_fn(T, T) -> bool)
    ensures
        merge_seq(lo, hi, leq).to_multiset() == lo.to_multiset().add(hi.to_multiset()),
    decreases lo.len() + hi.len(),
{
    broadcast use vstd::seq_lib::group_to_multiset_ensures;

    if lo.len() == 0 {
        assert(lo.to_multiset() =~= Multiset::<T>::empty());
        assert(lo.to_multiset().add(hi.to_multiset()) =~= hi.to_multiset());
    } else if hi.len() == 0 {
        assert(hi.to_multiset() =~= Multiset::<T>::empty());
        assert(lo.to_multiset().add(hi.to_multiset()) =~= lo.to_multiset());
    } else if leq(lo[0], hi[0]) {
        lemma_merge_seq_multiset(lo.drop_first(), hi, leq);
        lemma_multiset_commutative(seq![lo[0]], merge_seq(lo.drop_first(), hi, leq));
        lemma_multiset_commutative(seq![lo[0]], lo.drop_first());
        assert(seq![lo[0]] + lo.drop_first() =~= lo);
        assert(merge_seq(lo, hi, leq).to_multiset() =~= lo.to_multiset().add(hi.to_multiset()));
    } else {
        lemma_merge_seq_multiset(lo, hi.drop_first(), leq);
        lemma_multiset_commutative(seq![hi[0]], merge_seq(lo, hi.drop_first(), leq));
        lemma_multiset_commutative(seq![hi[0]], hi.drop_first());
        assert(seq![hi[0]] + hi.drop_first() =~= hi);
        assert(merge_seq(lo, hi, leq).to_multiset() =~= lo.to_multiset().add(hi.to_multiset()));
    }
}

/// The sort preserves the multiset of elements of the input.
pub proof fn lemma_merge_sort_seq_multiset<T>(s: Seq<T>, leq: spec_fn(T, T) -> bool)
    ensures
        merge_sort_seq(s, leq).to_multiset() == s.to_multiset(),
    decreases s.len(),
{
    if s.len() <= 1 {
    } else {
        let mid = split_point(s.len() as int);
        let lo = s.subrange(0, mid);
        let hi = s.subrange(mid, s.len() as int);
        lemma_merge_sort_seq_multiset(lo, leq);
        lemma_merge_sort_seq_multiset(hi, leq);
        lemma_merge_seq_multiset(merge_sort_seq(lo, leq), merge_sort_seq(hi, leq), leq);
        lemma_multiset_commutative(lo, hi);
        assert(lo + hi =~= s);
    }
}

/// Prepending an element that is not greater than any element of a sorted
/// sequence keeps it sorted.
proof fn lemma_sorted_cons<T>(x: T, s: Seq<T>, leq: spec_fn(T, T) -> bool)
    requires
        sorted_by(s, leq),
        forall|j: int| 0 <= j < s.len() ==> leq(x, #[trigger] s[j]),
    ensures
        sorted_by(seq![x] + s, leq),
{
    let t = seq![x] + s;
    assert forall|i: int, j: int| 0 <= i < j < t.len() implies leq(t[i], t[j]) by {
        assert(t[j] == s[j - 1]);
        if i > 0 {
            assert(t[i] == s[i - 1]);
        }
    }
}

/// The tail of a sorted sequence is sorted.
proof fn lemma_sorted_drop_first<T>(s: Seq<T>, leq: spec_fn(T, T) -> bool)
    requires
        s.len() > 0,
        sorted_by(s, leq),
    ensures
        sorted_by(s.drop_first(), leq),
{
    assert forall|i: int, j: int| 0 <= i < j < s.drop_first().len() implies leq(
        #[trigger] s.drop_first()[i],
        #[trigger] s.drop_first()[j],
    ) by {
        assert(s.drop_first()[i] == s[i + 1]);
        assert(s.drop_first()[j] == s[j + 1]);
    }
}

/// The merge of two sorted sequences is sorted.
pub proof fn lemma_merge_seq_sorted<T>(lo: Seq<T>, hi: Seq<T>, leq: spec_fn(T, T) -> bool)
    requires
        total_preorder(leq),
        sorted_by(lo, leq),
        sorted_by(hi, leq),
    ensures
        sorted_by(merge_seq(lo, hi, leq), leq),
    decreases lo.len() + hi.len(),
{
    broadcast use vstd::seq_lib::group_to_multiset_ensures;

    if lo.len() == 0 || hi.len() == 0 {
    } else if leq(lo[0], hi[0]) {
        lemma_sorted_drop_first(lo, leq);
        lemma_merge_seq_sorted(lo.drop_first(), hi, leq);
        let m = merge_seq(lo.drop_first(), hi, leq);
        lemma_merge_seq_multiset(lo.drop_first(), hi, leq);
        assert forall|j: int| 0 <= j < m.len() implies leq(lo[0], #[trigger] m[j]) by {
            assert(m.contains(m[j]));
            assert(m.to_multiset().count(m[j]) > 0);
            if lo.drop_first().contains(m[j]) {
                let k = choose|k: int| 0 <= k < lo.drop_first().len() && lo.drop_first()[k]
                    == m[j];
                assert(lo[k + 1] == m[j]);
            } else {
                assert(hi.contains(m[j]));
                let k = choose|k: int| 0 <= k < hi.len() && hi[k] == m[j];
                if k > 0 {
                    assert(leq(hi[0], hi[k]));
                }
            }
        }
        lemma_sorted_cons(lo[0], m, leq);
    } else {
        assert(leq(hi[0], lo[0]));
        lemma_sorted_drop_first(hi, leq);
        lemma_merge_seq_sorted(lo, hi.drop_first(), leq);
        let m = merge_seq(lo, hi.drop_first(), leq);
        lemma_merge_seq_multiset(lo, hi.drop_first(), leq);
        assert forall|j: int| 0 <= j < m.len() implies leq(hi[0], #[trigger] m[j]) by {
            assert(m.contains(m[j]));
            assert(m.to_multiset().count(m[j]) > 0);
            if lo.contains(m[j]) {
                let k = choose|k: int| 0 <= k < lo.len() && lo[k] == m[j];
                if k > 0 {
                    assert(leq(lo[0], lo[k]));
                }
            } else {
                assert(hi.drop_first().contains(m[j]));
                let k = choose|k: int| 0 <= k < hi.drop_first().len() && hi.drop_first()[k]
                    == m[j];
                assert(hi[k + 1] == m[j]);
            }
        }
        lemma_sorted_cons(hi[0], m, leq);
    }
}

/// The sort's output is sorted: for every pair of output positions in
/// order, the earlier element is not greater than the later.
pub proof fn lemma_merge_sort_seq_sorted<T>(s: Seq<T>, leq: spec_fn(T, T) -> bool)
    requires
        total_preorder(leq),
    ensures
        sorted_by(merge_sort_seq(s, leq), leq),
    decreases s.len(),
{
    if s.len() <= 1 {
    } else {
        let mid = split_point(s.len() as int);
        lemma_merge_sort_seq_sorted(s.subrange(0, mid), leq);
        lemma_merge_sort_seq_sorted(s.subrange(mid, s.len() as int), leq);
        lemma_merge_seq_sorted(
            merge_sort_seq(s.subrange(0, mid), leq),
            merge_sort_seq(s.subrange(mid, s.len() as int), leq),
            leq,
        );
    }
}

/// A sequence none of whose elements satisfies a predicate filters to the
/// empty sequence.
proof fn lemma_filter_all_out<T>(s: Seq<T>, pred: spec_fn(T) -> bool)
    requires
        forall|i: int| 0 <= i < s.len() ==> !pred(#[trigger] s[i]),
    ensures
        s.filter(pred) == Seq::<T>::empty(),
{
    broadcast use vstd::seq_lib::group_filter_ensures;
    broadcast use Seq::lemma_filter_contains_rev;

    if s.filter(pred).len() > 0 {
        let elem = s.filter(pred)[0];
        assert(pred(elem));
        assert(s.filter(pred).contains(elem));
        assert(s.contains(elem));
        let k = choose|k: int| 0 <= k < s.len() && s[k] == elem;
        assert(false);
    }
    assert(s.filter(pred) =~= Seq::<T>::empty());
}

/// What a singleton filters to.
proof fn lemma_filter_singleton<T>(x: T, pred: spec_fn(T) -> bool)
    ensures
        pred(x) ==> seq![x].filter(pred) == seq![x],
        !pred(x) ==> seq![x].filter(pred) == Seq::<T>::empty(),
{
    reveal_with_fuel(Seq::filter, 2);
    assert(seq![x].drop_last() =~= Seq::<T>::empty());
    assert(seq![x].last() == x);
    if pred(x) {
        assert(seq![x].filter(pred) =~= Seq::<T>::empty().push(x));
        assert(Seq::<T>::empty().push(x) =~= seq![x]);
    }
}

/// The stable merge keeps, within each equivalence class of the ordering,
/// every element of the lower half before every element of the upper half,
/// and each half's elements in their own order: filtering the merge by a
/// class gives the lower half's members of the class followed by the upper
/// half's.
pub proof fn lemma_merge_seq_stable<T>(lo: Seq<T>, hi: Seq<T>, leq: spec_fn(T, T) -> bool, x: T)
    requires
        total_preorder(leq),
        sorted_by(lo, leq),
        sorted_by(hi, leq),
    ensures
        merge_seq(lo, hi, leq).filter(equiv_under(leq, x)) == lo.filter(equiv_under(leq, x))
            + hi.filter(equiv_under(leq, x)),
    decreases lo.len() + hi.len(),
{
    broadcast use Seq::filter_distributes_over_add;

    let cls = equiv_under(leq, x);
    if lo.len() == 0 {
        assert(lo.filter(cls) == Seq::<T>::empty()) by {
            lemma_filter_all_out(lo, cls);
        }
        assert(lo.filter(cls) + hi.filter(cls) =~= hi.filter(cls));
    } else if hi.len() == 0 {
        assert(hi.filter(cls) == Seq::<T>::empty()) by {
            lemma_filter_all_out(hi, cls);
        }
        assert(lo.filter(cls) + hi.filter(cls) =~= lo.filter(cls));
    } else if leq(lo[0], hi[0]) {
        // The merge takes the lower head; whether or not it is in the
        // class, it stays in front, where the claim wants it.
        lemma_sorted_drop_first(lo, leq);
        lemma_merge_seq_stable(lo.drop_first(), hi, leq, x);
        assert(seq![lo[0]] + lo.drop_first() =~= lo);
        assert((seq![lo[0]] + lo.drop_first()).filter(cls) == seq![lo[0]].filter(cls)
            + lo.drop_first().filter(cls));
        assert(merge_seq(lo, hi, leq).filter(cls) == seq![lo[0]].filter(cls) + merge_seq(
            lo.drop_first(),
            hi,
            leq,
        ).filter(cls));
        assert(seq![lo[0]].filter(cls) + (lo.drop_first().filter(cls) + hi.filter(cls))
            =~= (seq![lo[0]].filter(cls) + lo.drop_first().filter(cls)) + hi.filter(cls));
    } else {
        // The merge takes the upper head, which is strictly before the
        // lower head. If it belongs to the class, no element of the lower
        // half does, so moving it in front of the lower half's (empty)
        // class members is sound.
        assert(leq(hi[0], lo[0]) && !leq(lo[0], hi[0]));
        lemma_sorted_drop_first(hi, leq);
        lemma_merge_seq_stable(lo, hi.drop_first(), leq, x);
        assert(seq![hi[0]] + hi.drop_first() =~= hi);
        assert((seq![hi[0]] + hi.drop_first()).filter(cls) == seq![hi[0]].filter(cls)
            + hi.drop_first().filter(cls));
        assert(merge_seq(lo, hi, leq).filter(cls) == seq![hi[0]].filter(cls) + merge_seq(
            lo,
            hi.drop_first(),
            leq,
        ).filter(cls));
        lemma_filter_singleton(hi[0], cls);
        if cls(hi[0]) {
            assert forall|i: int| 0 <= i < lo.len() implies !cls(#[trigger] lo[i]) by {
                if cls(lo[i]) {
                    // lo[0] <= lo[i] <= x <= hi[0] would contradict
                    // hi[0] being strictly before lo[0].
                    assert(leq(lo[0], lo[i]));
                    assert(leq(lo[i], x));
                    assert(leq(x, hi[0]));
                    assert(leq(lo[0], hi[0]));
                    assert(false);
                }
            }
            lemma_filter_all_out(lo, cls);
            assert(seq![hi[0]].filter(cls) + (lo.filter(cls) + hi.drop_first().filter(cls))
                =~= lo.filter(cls) + (seq![hi[0]].filter(cls) + hi.drop_first().filter(cls)));
        } else {
            assert(seq![hi[0]].filter(cls) + (lo.filter(cls) + hi.drop_first().filter(cls))
                =~= lo.filter(cls) + (seq![hi[0]].filter(cls) + hi.drop_first().filter(cls)));
        }
    }
}

/// The sort is stable: filtering its output by any equivalence class of
/// the ordering gives exactly the input's members of that class, in their
/// input order. Elements the comparator cannot tell apart therefore keep
/// their relative order.
pub proof fn lemma_merge_sort_seq_stable<T>(s: Seq<T>, leq: spec_fn(T, T) -> bool, x: T)
    requires
        total_preorder(leq),
    ensures
        merge_sort_seq(s, leq).filter(equiv_under(leq, x)) == s.filter(equiv_under(leq, x)),
    decreases s.len(),
{
    broadcast use Seq::filter_distributes_over_add;

    let cls = equiv_under(leq, x);
    if s.len() <= 1 {
    } else {
        let mid = split_point(s.len() as int);
        let lo = s.subrange(0, mid);
        let hi = s.subrange(mid, s.len() as int);
        lemma_merge_sort_seq_stable(lo, leq, x);
        lemma_merge_sort_seq_stable(hi, leq, x);
        lemma_merge_sort_seq_sorted(lo, leq);
        lemma_merge_sort_seq_sorted(hi, leq);
        lemma_merge_seq_stable(merge_sort_seq(lo, leq), merge_sort_seq(hi, leq), leq, x);
        assert(lo + hi =~= s);
        assert((lo + hi).filter(cls) == lo.filter(cls) + hi.filter(cls));
    }
}

/// Any contiguous part of a sorted sequence is sorted.
proof fn lemma_sorted_subrange<T>(s: Seq<T>, a: int, b: int, leq: spec_fn(T, T) -> bool)
    requires
        sorted_by(s, leq),
        0 <= a <= b <= s.len(),
    ensures
        sorted_by(s.subrange(a, b), leq),
{
    assert forall|i: int, j: int| 0 <= i < j < s.subrange(a, b).len() implies leq(
        #[trigger] s.subrange(a, b)[i],
        #[trigger] s.subrange(a, b)[j],
    ) by {
        assert(s.subrange(a, b)[i] == s[a + i]);
        assert(s.subrange(a, b)[j] == s[a + j]);
    }
}

/// Merging two sequences of which no element of the second is strictly
/// before any element of the first just concatenates them.
proof fn lemma_merge_seq_ordered_concat<T>(lo: Seq<T>, hi: Seq<T>, leq: spec_fn(T, T) -> bool)
    requires
        forall|i: int, j: int|
            0 <= i < lo.len() && 0 <= j < hi.len() ==> leq(#[trigger] lo[i], #[trigger] hi[j]),
    ensures
        merge_seq(lo, hi, leq) == lo + hi,
    decreases lo.len() + hi.len(),
{
    if lo.len() == 0 {
        assert(lo + hi =~= hi);
    } else if hi.len() == 0 {
        assert(lo + hi =~= lo);
    } else {
        assert(leq(lo[0], hi[0]));
        lemma_merge_seq_ordered_concat(lo.drop_first(), hi, leq);
        assert(seq![lo[0]] + (lo.drop_first() + hi) =~= lo + hi);
    }
}

/// Sorting an already-sorted sequence yields the identical sequence.
pub proof fn lemma_merge_sort_seq_of_sorted<T>(s: Seq<T>, leq: spec_fn(T, T) -> bool)
    requires
        sorted_by(s, leq),
    ensures
        merge_sort_seq(s, leq) == s,
    decreases s.len(),
{
    if s.len() <= 1 {
    } else {
        let mid = split_point(s.len() as int);
        let lo = s.subrange(0, mid);
        let hi = s.subrange(mid, s.len() as int);
        lemma_sorted_subrange(s, 0, mid, leq);
        lemma_sorted_subrange(s, mid, s.len() as int, leq);
        lemma_merge_sort_seq_of_sorted(lo, leq);
        lemma_merge_sort_seq_of_sorted(hi, leq);
        assert forall|i: int, j: int| 0 <= i < lo.len() && 0 <= j < hi.len() implies leq(
            #[trigger] lo[i],
            #[trigger] hi[j],
        ) by {
            assert(lo[i] == s[i]);
            assert(hi[j] == s[mid + j]);
        }
        lemma_merge_seq_ordered_concat(lo, hi, leq);
        assert(lo + hi =~= s);
    }
}

/// Sorting twice is the same as sorting once.
pub proof fn lemma_merge_sort_seq_idempotent<T>(s: Seq<T>, leq: spec_fn(T, T) -> bool)
    requires
        total_preorder(leq),
    ensures
        merge_sort_seq(merge_sort_seq(s, leq), leq) == merge_sort_seq(s, leq),
{
    lemma_merge_sort_seq_sorted(s, leq);
    lemma_merge_sort_seq_of_sorted(merge_sort_seq(s, leq), leq);
}

/// The laws above, stated of a comparator's ordering: what any of the
/// library's sort functions returns is a permutation of its input range
/// (same multiset), it is sorted by the comparator, elements the
/// comparator cannot tell apart keep their input order, and a sorted input
/// comes back unchanged.
pub proof fn lemma_sort_laws<T, C: Comparator<T>>(c: C, s: Seq<T>)
    ensures
        merge_sort_seq(s, le_of(c)).to_multiset() == s.to_multiset(),
        sorted_by(merge_sort_seq(s, le_of(c)), le_of(c)),
        forall|x: T| #[trigger] merge_sort_seq(s, le_of(c)).filter(equiv_under(le_of(c), x))
            == s.filter(equiv_under(le_of(c), x)),
        sorted_by(s, le_of(c)) ==> merge_sort_seq(s, le_of(c)) == s,
{
    let leq = le_of(c);
    lemma_comparator_total_preorder(c);
    lemma_merge_sort_seq_multiset(s, leq);
    lemma_merge_sort_seq_sorted(s, leq);
    assert forall|x: T| #[trigger] merge_sort_seq(s, leq).filter(equiv_under(leq, x))
        == s.filter(equiv_under(leq, x)) by {
        lemma_merge_sort_seq_stable(s, leq, x);
    }
    if sorted_by(s, leq) {
        lemma_merge_sort_seq_of_sorted(s, leq);
    }
}

/// Sorting does not change a sequence's length.
pub proof fn lemma_merge_sort_seq_len<T>(s: Seq<T>, leq: spec_fn(T, T) -> bool)
    ensures
        merge_sort_seq(s, leq).len() == s.len(),
    decreases s.len(),
{
    if s.len() <= 1 {
    } else {
        let mid = split_point(s.len() as int);
        lemma_merge_sort_seq_len(s.subrange(0, mid), leq);
        lemma_merge_sort_seq_len(s.subrange(mid, s.len() as int), leq);
        lemma_merge_seq_len(
            merge_sort_seq(s.subrange(0, mid), leq),
            merge_sort_seq(s.subrange(mid, s.len() as int), leq),
            leq,
        );
    }
}

} // verus!
