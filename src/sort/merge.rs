//! Merge sort
//!
//! Sorts elements in _O(n log(n))_ time, using a *divide-and-conquer*
//! approach: split the range in two halves, sort each recursively, then
//! merge the two sorted halves.
//!
//! The merge copies both halves into buffers and counts how many elements it
//! has taken from each, so no sentinel value is needed and any ordered
//! element type can be sorted. On ties the left half's element is taken
//! first.

use vstd::prelude::*;
use vstd::slice::slice_to_vec;
use crate::order::{le, sorted, total_order, lemma_trichotomy, lemma_le_trans};
use crate::sort::lemma_sorted_unique;

verus! {

/// The elements of `a + b` are those of `a` and those of `b`.
proof fn lemma_concat_multiset<T>(a: Seq<T>, b: Seq<T>)
    ensures
        (a + b).to_multiset() == a.to_multiset().add(b.to_multiset()),
{
    vstd::seq_lib::lemma_multiset_commutative(a, b);
}

/// Merges the sorted runs `left` and `right` into `values[p..p + left.len() + right.len()]`.
fn merge_runs<T: Copy + PartialOrd>(values: &mut [T], p: usize, left: &Vec<T>, right: &Vec<T>)
    requires
        total_order::<T>(),
        p + left@.len() + right@.len() <= old(values)@.len(),
        sorted(left@),
        sorted(right@),
    ensures
        final(values)@.len() == old(values)@.len(),
        sorted(final(values)@.subrange(p as int, p + left@.len() + right@.len())),
        final(values)@.subrange(p as int, p + left@.len() + right@.len()).to_multiset()
            == left@.to_multiset().add(right@.to_multiset()),
        forall|k: int|
            0 <= k < old(values)@.len() && !(p <= k < p + left@.len() + right@.len())
                ==> #[trigger] final(values)@[k] == old(values)@[k],
{
    broadcast use vstd::seq_lib::group_to_multiset_ensures, vstd::multiset::group_multiset_axioms;

    let n1 = left.len();
    let n2 = right.len();
    let mut i: usize = 0;
    let mut j: usize = 0;
    let len = values.len();
    let mut k: usize = p;
    let end = p + n1 + n2;
    while k < end
        invariant
            end == p + n1 + n2,
            len == values@.len(),
            total_order::<T>(),
            n1 == left@.len(),
            n2 == right@.len(),
            p + n1 + n2 <= values@.len(),
            values@.len() == old(values)@.len(),
            sorted(left@),
            sorted(right@),
            i <= n1,
            j <= n2,
            k == p + i + j,
            sorted(values@.subrange(p as int, k as int)),
            values@.subrange(p as int, k as int).to_multiset() == left@.subrange(0, i as int).to_multiset().add(
                right@.subrange(0, j as int).to_multiset(),
            ),
            forall|a: int| p <= a < k && i < n1 ==> le(#[trigger] values@[a], left@[i as int]),
            forall|a: int| p <= a < k && j < n2 ==> le(#[trigger] values@[a], right@[j as int]),
            forall|a: int|
                0 <= a < values@.len() && !(p <= a < p + n1 + n2) ==> #[trigger] values@[a] == old(values)@[a],
        decreases end - k,
    {
        let ghost before = values@;
        let take_left = i < n1 && (j >= n2 || left[i] <= right[j]);
        let x = if take_left { left[i] } else { right[j] };
        proof {
            if i < n1 && j < n2 {
                lemma_trichotomy(left@[i as int], right@[j as int]);
            }
        }
        values[k] = x;
        proof {
            assert(values@.subrange(p as int, k + 1) =~= before.subrange(p as int, k as int).push(x));
            let ml = left@.subrange(0, i as int).to_multiset();
            let mr = right@.subrange(0, j as int).to_multiset();
            vstd::seq_lib::to_multiset_build(before.subrange(p as int, k as int), x);
            vstd::seq_lib::to_multiset_build(left@.subrange(0, i as int), x);
            vstd::seq_lib::to_multiset_build(right@.subrange(0, j as int), x);
            assert(values@.subrange(p as int, k + 1).to_multiset() == ml.add(mr).insert(x));
            if take_left {
                assert(left@.subrange(0, i + 1) =~= left@.subrange(0, i as int).push(x));
                assert(left@.subrange(0, i + 1).to_multiset() == ml.insert(x));
                assert(ml.add(mr).insert(x) =~= ml.insert(x).add(mr));
            } else {
                assert(right@.subrange(0, j + 1) =~= right@.subrange(0, j as int).push(x));
                assert(right@.subrange(0, j + 1).to_multiset() == mr.insert(x));
                assert(ml.add(mr).insert(x) =~= ml.add(mr.insert(x)));
            }
            assert forall|a: int| p <= a < k + 1 && i + (if take_left { 1int } else { 0 }) < n1 implies le(
                #[trigger] values@[a],
                left@[i + (if take_left { 1int } else { 0 })],
            ) by {
                let ni = i + (if take_left { 1int } else { 0 });
                if take_left {
                    lemma_le_trans(values@[a], left@[i as int], left@[ni]);
                } else if a < k {
                    lemma_le_trans(values@[a], left@[i as int], left@[ni]);
                } else {
                    lemma_trichotomy(left@[i as int], right@[j as int]);
                }
            }
            assert forall|a: int| p <= a < k + 1 && j + (if take_left { 0int } else { 1 }) < n2 implies le(
                #[trigger] values@[a],
                right@[j + (if take_left { 0int } else { 1 })],
            ) by {
                let nj = j + (if take_left { 0int } else { 1 });
                if !take_left {
                    lemma_le_trans(values@[a], right@[j as int], right@[nj]);
                } else if a < k {
                    lemma_le_trans(values@[a], right@[j as int], right@[nj]);
                }
            }
            let s = values@.subrange(p as int, k + 1);
            assert forall|a: int, b: int| 0 <= a < b < s.len() implies le(#[trigger] s[a], #[trigger] s[b]) by {
                if b == s.len() - 1 {
                    assert(s[a] == before[p + a]);
                    assert(s[b] == x);
                    if take_left {
                        assert(le(before[p + a], left@[i as int]));
                    } else {
                        assert(le(before[p + a], right@[j as int]));
                    }
                } else {
                    assert(before.subrange(p as int, k as int)[a] == s[a]);
                    assert(before.subrange(p as int, k as int)[b] == s[b]);
                }
            }
        }
        if take_left {
            i += 1;
        } else {
            j += 1;
        }
        k += 1;
    }
    proof {
        assert(left@.subrange(0, n1 as int) =~= left@);
        assert(right@.subrange(0, n2 as int) =~= right@);
    }
}

/// Merges the sorted ranges `values[p..q]` and `values[q..r]` into a sorted
/// `values[p..r]`, in _O(n)_ time where _n = r - p_.
///
/// Both ranges are copied into buffers first; the merge then repeatedly
/// takes the smaller front element until each buffer has been used up.
pub fn clrs_merge<T: Copy + PartialOrd>(values: &mut [T], p: usize, q: usize, r: usize)
    requires
        total_order::<T>(),
        p <= q <= r <= old(values)@.len(),
        sorted(old(values)@.subrange(p as int, q as int)),
        sorted(old(values)@.subrange(q as int, r as int)),
    ensures
        final(values)@.len() == old(values)@.len(),
        sorted(final(values)@.subrange(p as int, r as int)),
        final(values)@.subrange(p as int, r as int).to_multiset() == old(values)@.subrange(
            p as int,
            r as int,
        ).to_multiset(),
        forall|k: int|
            0 <= k < old(values)@.len() && !(p <= k < r) ==> #[trigger] final(values)@[k] == old(values)@[k],
{
    let left = slice_to_vec(&values[p..q]);
    let right = slice_to_vec(&values[q..r]);
    proof {
        assert(old(values)@.subrange(p as int, r as int) =~= left@ + right@);
        lemma_concat_multiset(left@, right@);
    }
    merge_runs(values, p, &left, &right);
}

/// The top-down merge sort presented in CLRS: sorts `values[p..r]`.
///
/// A range of fewer than two elements is already sorted. Otherwise the range
/// is split at `q = (p + r) / 2`, both halves are sorted recursively, and
/// the halves are merged.
pub fn clrs_merge_sort<T: Copy + PartialOrd>(values: &mut [T], p: usize, r: usize)
    requires
        total_order::<T>(),
        p <= r <= old(values)@.len(),
    ensures
        final(values)@.len() == old(values)@.len(),
        sorted(final(values)@.subrange(p as int, r as int)),
        final(values)@.subrange(p as int, r as int).to_multiset() == old(values)@.subrange(
            p as int,
            r as int,
        ).to_multiset(),
        forall|k: int|
            0 <= k < old(values)@.len() && !(p <= k < r) ==> #[trigger] final(values)@[k] == old(values)@[k],
        sorted(old(values)@.subrange(p as int, r as int)) ==> final(values)@ == old(values)@,
    decreases r - p,
{
    if r > 0 && p < r - 1 {
        let q = p + (r - p) / 2;
        let ghost s0 = values@;
        clrs_merge_sort(values, p, q);
        let ghost s1 = values@;
        clrs_merge_sort(values, q, r);
        let ghost s2 = values@;
        proof {
            assert(s2.subrange(p as int, q as int) =~= s1.subrange(p as int, q as int));
            assert(s1.subrange(q as int, r as int) =~= s0.subrange(q as int, r as int));
            assert(s0.subrange(p as int, r as int) =~= s0.subrange(p as int, q as int) + s0.subrange(
                q as int,
                r as int,
            ));
            assert(s2.subrange(p as int, r as int) =~= s2.subrange(p as int, q as int) + s2.subrange(
                q as int,
                r as int,
            ));
            lemma_concat_multiset(s0.subrange(p as int, q as int), s0.subrange(q as int, r as int));
            lemma_concat_multiset(s2.subrange(p as int, q as int), s2.subrange(q as int, r as int));
        }
        clrs_merge(values, p, q, r);
    }
    proof {
        if sorted(old(values)@.subrange(p as int, r as int)) {
            lemma_sorted_unique(values@.subrange(p as int, r as int), old(values)@.subrange(p as int, r as int));
            assert forall|k: int| 0 <= k < values@.len() implies values@[k] == old(values)@[k] by {
                if p <= k < r {
                    assert(values@[k] == values@.subrange(p as int, r as int)[k - p]);
                    assert(old(values)@[k] == old(values)@.subrange(p as int, r as int)[k - p]);
                }
            }
            assert(values@ =~= old(values)@);
        }
    }
}

/// Merge sort over a whole slice, recursing on its two halves.
pub fn krw_merge_sort<T: Copy + PartialOrd>(values: &mut [T])
    requires
        total_order::<T>(),
    ensures
        final(values)@.len() == old(values)@.len(),
        sorted(final(values)@),
        final(values)@.to_multiset() == old(values)@.to_multiset(),
        sorted(old(values)@) ==> final(values)@ == old(values)@,
    decreases old(values)@.len(),
{
    let n = values.len();
    if n > 1 {
        let mid = n / 2;
        let ghost s0 = values@;
        {
            let (lo, hi) = values.split_at_mut(mid);
            proof {
                assert(lo@ =~= s0.subrange(0, mid as int));
                assert(hi@ =~= s0.subrange(mid as int, n as int));
            }
            krw_merge_sort(lo);
            krw_merge_sort(hi);
            proof {
                lemma_concat_multiset(lo@, hi@);
            }
        }
        let ghost s1 = values@;
        let left = slice_to_vec(&values[0..mid]);
        let right = slice_to_vec(&values[mid..n]);
        proof {
            assert(s0 =~= s0.subrange(0, mid as int) + s0.subrange(mid as int, n as int));
            assert(s1 =~= left@ + right@);
            lemma_concat_multiset(s0.subrange(0, mid as int), s0.subrange(mid as int, n as int));
            lemma_concat_multiset(left@, right@);
        }
        merge_runs(values, 0, &left, &right);
        proof {
            assert(values@.subrange(0, n as int) =~= values@);
        }
    }
    proof {
        if sorted(old(values)@) {
            lemma_sorted_unique(values@, old(values)@);
        }
    }
}

} // verus!
