//! Sorting functions
//!
//! | Method | Time Complexity | Space Complexity |
//! | --- | --- | --- |
//! | Insertion Sort | _O(n²)_ | _O(1)_ |
//! | Merge Sort | _O(n log(n))_ | _O(n)_ |
//! | Selection Sort | _O(n²)_ | _O(1)_ |
//!
//! Every sort here rearranges a slice in place: what comes out holds the same
//! elements, each as often, as what went in.

use vstd::prelude::*;
use crate::order::{le, sorted, sorted_desc, total_order, lemma_trichotomy};

pub mod insertion;
pub mod merge;
pub mod selection;

verus! {

/// The least element of a sorted sequence is at its front.
proof fn lemma_front_is_least<T: PartialOrd>(s: Seq<T>, x: T)
    requires
        sorted(s),
        s.contains(x),
    ensures
        le(s[0], x),
{
    let k = choose|k: int| 0 <= k < s.len() && s[k] == x;
    if k > 0 {
        assert(le(s[0], s[k]));
    }
}

/// Two sorted sequences with the same elements are equal: a sorted
/// arrangement of a multiset is unique.
pub proof fn lemma_sorted_unique<T: PartialOrd>(a: Seq<T>, b: Seq<T>)
    requires
        total_order::<T>(),
        sorted(a),
        sorted(b),
        a.to_multiset() == b.to_multiset(),
    ensures
        a == b,
    decreases a.len(),
{
    broadcast use vstd::seq_lib::group_to_multiset_ensures, vstd::multiset::group_multiset_axioms;
    assert(a.len() == a.to_multiset().len());
    assert(b.len() == b.to_multiset().len());
    if a.len() == 0 {
        assert(a =~= b);
    } else {
        assert(a.to_multiset().count(a[0]) > 0);
        assert(b.to_multiset().count(b[0]) > 0);
        lemma_front_is_least(b, a[0]);
        lemma_front_is_least(a, b[0]);
        lemma_trichotomy(a[0], b[0]);
        assert(a.remove(0) =~= a.drop_first());
        assert(b.remove(0) =~= b.drop_first());
        assert(a.remove(0).to_multiset() == a.to_multiset().remove(a[0]));
        assert(b.remove(0).to_multiset() == b.to_multiset().remove(b[0]));
        lemma_sorted_unique(a.drop_first(), b.drop_first());
        assert(a =~= b) by {
            assert forall|i: int| 0 <= i < a.len() implies a[i] == b[i] by {
                if i > 0 {
                    assert(a[i] == a.drop_first()[i - 1]);
                    assert(b[i] == b.drop_first()[i - 1]);
                }
            }
        }
    }
}

/// Two sequences sorted in nonincreasing order with the same elements are
/// equal.
pub proof fn lemma_sorted_desc_unique<T: PartialOrd>(a: Seq<T>, b: Seq<T>)
    requires
        total_order::<T>(),
        sorted_desc(a),
        sorted_desc(b),
        a.to_multiset() == b.to_multiset(),
    ensures
        a == b,
{
    a.lemma_reverse_to_multiset();
    b.lemma_reverse_to_multiset();
    assert(sorted(a.reverse())) by {
        assert forall|i: int, j: int| 0 <= i < j < a.len() implies le(
            #[trigger] a.reverse()[i],
            #[trigger] a.reverse()[j],
        ) by {
            assert(le(a[a.len() - 1 - i], a[a.len() - 1 - j]));
        }
    }
    assert(sorted(b.reverse())) by {
        assert forall|i: int, j: int| 0 <= i < j < b.len() implies le(
            #[trigger] b.reverse()[i],
            #[trigger] b.reverse()[j],
        ) by {
            assert(le(b[b.len() - 1 - i], b[b.len() - 1 - j]));
        }
    }
    lemma_sorted_unique(a.reverse(), b.reverse());
    assert(a =~= b) by {
        assert forall|i: int| 0 <= i < a.len() implies a[i] == b[i] by {
            assert(a[i] == a.reverse()[a.len() - 1 - i]);
            assert(b[i] == b.reverse()[b.len() - 1 - i]);
        }
    }
}

/// Swapping two positions keeps the elements of a sequence.
pub proof fn lemma_swap_perm<T>(s: Seq<T>, i: int, j: int)
    requires
        0 <= i < s.len(),
        0 <= j < s.len(),
    ensures
        s.update(i, s[j]).update(j, s[i]).to_multiset() == s.to_multiset(),
{
    broadcast use vstd::seq_lib::group_to_multiset_ensures, vstd::multiset::group_multiset_axioms;
    let s1 = s.update(i, s[j]);
    if i == j {
        assert(s1.update(j, s[i]) =~= s);
    } else {
        assert(s1[j] == s[j]);
        assert(s1.to_multiset() == s.to_multiset().insert(s[j]).remove(s[i]));
        assert(s1.update(j, s[i]).to_multiset() == s1.to_multiset().insert(s[i]).remove(s[j]));
        assert(s.to_multiset().insert(s[j]).remove(s[i]).insert(s[i]).remove(s[j]) =~= s.to_multiset());
    }
}

/// Relies on `<[T]>::swap`: the elements at `a` and `b` trade places.
#[verifier::external_body]
pub(crate) fn swap<T>(values: &mut [T], a: usize, b: usize)
    requires
        a < old(values)@.len(),
        b < old(values)@.len(),
    ensures
        final(values)@ == old(values)@.update(a as int, old(values)@[b as int]).update(
            b as int,
            old(values)@[a as int],
        ),
{
    values.swap(a, b)
}

} // verus!
