//! Find if a set of integers contains two numbers that sum to a target
//!
//! Sorting takes _O(n lg(n))_ time; then, for each of the _n_ elements, a
//! binary search for its complement takes _O(lg(n))_ time. The whole runs in
//! _O(n lg(n))_ time.

use vstd::prelude::*;
use vstd::std_specs::iter::IteratorSpec;
use std::slice::Iter;
use crate::math::integer::Integer;
use crate::order::{eq_is_equality, sorted, total_order, total_ord};
use crate::search::binary;
use crate::sort::merge;

verus! {

/// `s` with each run of consecutive equal elements reduced to its first.
pub open spec fn dedup_runs<T>(s: Seq<T>) -> Seq<T>
    decreases s.len(),
{
    if s.len() == 0 {
        s
    } else if s.len() >= 2 && s[s.len() - 1] == s[s.len() - 2] {
        dedup_runs(s.drop_last())
    } else {
        dedup_runs(s.drop_last()).push(s.last())
    }
}

/// Some element of `s` plus some element of `s` (possibly the same one) is `t`.
pub open spec fn has_pair_sum<T: Integer>(s: Seq<T>, t: int) -> bool {
    exists|i: int, j: int| 0 <= i < s.len() && 0 <= j < s.len() && #[trigger] s[i].value() + #[trigger] s[j].value() == t
}

/// A set that stores values contiguously.
#[derive(Clone)]
pub struct VecSet<T> {
    inner: Vec<T>,
}

impl<T> View for VecSet<T> {
    type V = Seq<T>;

    closed spec fn view(&self) -> Seq<T> {
        self.inner@
    }
}

impl<T> VecSet<T> {
    /// Creates a new `VecSet` from a slice.
    ///
    /// Consecutive duplicates are removed; duplicates that are not adjacent
    /// in the slice remain.
    pub fn new(values: &[T]) -> (r: Self)
        where
            T: Copy + PartialEq,
        requires
            eq_is_equality::<T>(),
        ensures
            r@ == dedup_runs(values@),
    {
        let mut vec: Vec<T> = Vec::new();
        let n = values.len();
        let mut i: usize = 0;
        while i < n
            invariant
                eq_is_equality::<T>(),
                n == values@.len(),
                i <= n,
                vec@ == dedup_runs(values@.subrange(0, i as int)),
            decreases n - i,
        {
            let ghost prefix = values@.subrange(0, i + 1);
            proof {
                assert(prefix.drop_last() =~= values@.subrange(0, i as int));
            }
            if i == 0 || values[i] != values[i - 1] {
                vec.push(values[i]);
            }
            i += 1;
        }
        proof {
            assert(values@.subrange(0, n as int) =~= values@);
        }
        VecSet { inner: vec }
    }

    /// Sorts the set using merge sort.
    pub fn sort(&mut self)
        where
            T: Copy + PartialOrd,
        requires
            total_order::<T>(),
        ensures
            sorted(final(self)@),
            final(self)@.to_multiset() == old(self)@.to_multiset(),
    {
        merge::krw_merge_sort(self.inner.as_mut_slice());
    }

    /// Produces an iterator over the values of the set, in order.
    pub fn iter(&self) -> (r: Iter<'_, T>)
        ensures
            r.remaining() == self@.as_ref(),
    {
        broadcast use vstd::std_specs::slice::axiom_spec_slice_iter;
        self.inner.as_slice().iter()
    }

    /// Performs a binary search for a target value within the sorted set.
    pub fn search(&self, target: &T) -> (r: Option<usize>)
        where
            T: Ord,
        requires
            total_ord::<T>(),
            sorted(self@),
        ensures
            match r {
                Some(i) => i < self@.len() && self@[i as int] == *target,
                None => !self@.contains(*target),
            },
    {
        binary::search(self.inner.as_slice(), target)
    }
}

/// Determines if the sum of any two numbers in a set is equal to a target.
///
/// An element may be paired with itself. The set is sorted first, then the
/// complement of each element is looked up by binary search.
pub fn find_sum<T: Integer + Ord>(set: VecSet<T>, target: &T) -> (r: bool)
    requires
        total_ord::<T>(),
    ensures
        r == has_pair_sum(set@, target.value()),
{
    let ghost unsorted = set@;
    let mut work = set;
    work.sort();
    let ghost s = work@;
    let n = work.inner.len();
    let mut i: usize = 0;
    while i < n
        invariant
            total_ord::<T>(),
            work@ == s,
            unsorted == set@,
            sorted(s),
            s.to_multiset() == unsorted.to_multiset(),
            n == s.len(),
            i <= n,
            forall|k: int, j: int|
                0 <= k < i && 0 <= j < n ==> #[trigger] s[k].value() + #[trigger] s[j].value() != target.value(),
        decreases n - i,
    {
        let value = work.inner[i];
        match target.sub_checked(&value) {
            Some(complement) => {
                if let Some(j) = work.search(&complement) {
                    proof {
                        assert(value == s[i as int]);
                        assert(s[j as int] == complement);
                        assert(s[i as int].value() + s[j as int].value() == target.value());
                        assert(has_pair_sum(s, target.value()));
                        lemma_pair_sum_same_elements(unsorted, s, target.value());
                    }
                    return true;
                }
                proof {
                    assert forall|j: int| 0 <= j < n implies s[i as int].value() + #[trigger] s[j].value()
                        != target.value() by {
                        T::lemma_value(s[j], complement);
                        assert(s.contains(s[j]));
                    }
                }
            },
            None => {
                proof {
                    assert forall|j: int| 0 <= j < n implies s[i as int].value() + #[trigger] s[j].value()
                        != target.value() by {
                        T::lemma_value(s[j], s[j]);
                    }
                }
            },
        }
        i += 1;
    }
    proof {
        lemma_pair_sum_same_elements(unsorted, s, target.value());
    }
    false
}

/// Rearranging a sequence does not change which pair sums it has.
proof fn lemma_pair_sum_same_elements<T: Integer>(a: Seq<T>, b: Seq<T>, t: int)
    requires
        a.to_multiset() == b.to_multiset(),
    ensures
        has_pair_sum(a, t) == has_pair_sum(b, t),
{
    broadcast use vstd::seq_lib::group_to_multiset_ensures;
    if has_pair_sum(a, t) {
        let (i, j) = choose|i: int, j: int| 0 <= i < a.len() && 0 <= j < a.len() && #[trigger] a[i].value() + #[trigger] a[j].value() == t;
        assert(a.to_multiset().count(a[i]) > 0);
        assert(a.to_multiset().count(a[j]) > 0);
        assert(b.contains(a[i]));
        assert(b.contains(a[j]));
        let k = choose|k: int| 0 <= k < b.len() && b[k] == a[i];
        let l = choose|l: int| 0 <= l < b.len() && b[l] == a[j];
        assert(b[k].value() + b[l].value() == t);
    }
    if has_pair_sum(b, t) {
        let (i, j) = choose|i: int, j: int| 0 <= i < b.len() && 0 <= j < b.len() && #[trigger] b[i].value() + #[trigger] b[j].value() == t;
        assert(b.to_multiset().count(b[i]) > 0);
        assert(b.to_multiset().count(b[j]) > 0);
        assert(a.contains(b[i]));
        assert(a.contains(b[j]));
        let k = choose|k: int| 0 <= k < a.len() && a[k] == b[i];
        let l = choose|l: int| 0 <= l < a.len() && a[l] == b[j];
        assert(a[k].value() + a[l].value() == t);
    }
}

} // verus!
