//! Insertion sort
//!
//! Sorts elements in _O(n²)_ time, using an *incremental* approach: like
//! picking up cards one at a time and inserting each into its place in the
//! hand.
//!
//! *Best case*: _O(n)_, when the slice is already sorted and no element has
//! to move.
//!
//! *Worst case*: _O(n²)_, when the slice is reverse sorted and every element
//! has to move past all those before it.

use vstd::prelude::*;
use crate::order::{lt, le, sorted, sorted_desc, total_order, total_ord, lemma_trichotomy, lemma_le_trans};
use crate::search::binary::search_closest;
use crate::sort::{lemma_swap_perm, lemma_sorted_unique, lemma_sorted_desc_unique, swap};

verus! {

/// Moving the hole at `i` one place left, by copying `s[i - 1]` into it,
/// keeps the elements once `key` fills the hole.
proof fn lemma_shift_perm<T>(s: Seq<T>, i: int, key: T)
    requires
        0 < i < s.len(),
    ensures
        s.update(i, s[i - 1]).update(i - 1, key).to_multiset() == s.update(i, key).to_multiset(),
{
    let t = s.update(i, key);
    lemma_swap_perm(t, i - 1, i);
    assert(t.update(i - 1, t[i]).update(i, t[i - 1]) =~= s.update(i, s[i - 1]).update(i - 1, key));
}

/// The solution presented in CLRS.
///
/// The outer loop starts from the second element. The inner loop shifts the
/// elements on the key's left that are greater than it one place to their
/// right, until the key's place is found; the key is then written there.
///
/// At the start of each outer iteration, `arr[0..j]` holds the elements
/// that were in `arr[0..j]` when the sort began, in sorted order.
pub fn clrs<T: Copy + PartialOrd>(arr: &mut [T])
    requires
        total_order::<T>(),
    ensures
        sorted(final(arr)@),
        final(arr)@.to_multiset() == old(arr)@.to_multiset(),
        sorted(old(arr)@) ==> final(arr)@ == old(arr)@,
{
    let n = arr.len();
    let mut j: usize = 1;
    while j < n
        invariant
            total_order::<T>(),
            n == arr@.len(),
            1 <= j || n == 0,
            j <= n || n == 0,
            forall|a: int, b: int| 0 <= a < b < j ==> le(#[trigger] arr@[a], #[trigger] arr@[b]),
            arr@.to_multiset() == old(arr)@.to_multiset(),
        decreases n - j,
    {
        let key = arr[j];
        let mut i = j;
        assert(arr@.update(i as int, key) =~= arr@);
        while i > 0 && arr[i - 1] > key
            invariant
                total_order::<T>(),
                n == arr@.len(),
                0 <= i <= j < n,
                forall|a: int, b: int|
                    0 <= a < b <= j && a != i && b != i ==> le(#[trigger] arr@[a], #[trigger] arr@[b]),
                forall|k: int| i < k <= j ==> lt(key, #[trigger] arr@[k]),
                arr@.update(i as int, key).to_multiset() == old(arr)@.to_multiset(),
            decreases i,
        {
            proof {
                lemma_shift_perm(arr@, i as int, key);
                lemma_trichotomy(arr@[i - 1], key);
            }
            arr[i] = arr[i - 1];
            i -= 1;
        }
        proof {
            if i > 0 {
                lemma_trichotomy(arr@[i - 1], key);
                assert forall|a: int| 0 <= a < i implies le(#[trigger] arr@[a], key) by {
                    lemma_le_trans(arr@[a], arr@[i - 1], key);
                }
            }
        }
        arr[i] = key;
        j += 1;
    }
    proof {
        if sorted(old(arr)@) {
            lemma_sorted_unique(arr@, old(arr)@);
        }
    }
}

/// Same as CLRS, with fewer comparisons.
///
/// A binary search over the sorted prefix finds the key's place in
/// logarithmic time. The elements after that place must still be shifted one
/// by one, so the running time stays _O(n²)_.
pub fn clrs_bsearch<T: Copy + Ord>(values: &mut [T])
    requires
        total_ord::<T>(),
    ensures
        sorted(final(values)@),
        final(values)@.to_multiset() == old(values)@.to_multiset(),
        sorted(old(values)@) ==> final(values)@ == old(values)@,
{
    let n = values.len();
    let mut j: usize = 1;
    while j < n
        invariant
            total_ord::<T>(),
            n == values@.len(),
            1 <= j || n == 0,
            j <= n || n == 0,
            forall|a: int, b: int| 0 <= a < b < j ==> le(#[trigger] values@[a], #[trigger] values@[b]),
            values@.to_multiset() == old(values)@.to_multiset(),
        decreases n - j,
    {
        let key = values[j];
        let mut i = j;
        assert(values@.update(i as int, key) =~= values@);
        let found = search_closest(&values[0..i], &key);
        let ghost prefix = values@.subrange(0, j as int);
        if let Some(adj) = found {
            proof {
                assert forall|k: int| adj <= k < j implies le(key, #[trigger] values@[k]) by {
                    if k > adj {
                        assert(prefix[adj as int] == values@[adj as int] && prefix[k] == values@[k]);
                        lemma_le_trans(key, values@[adj as int], values@[k]);
                    }
                }
                assert forall|k: int| 0 <= k < adj implies le(#[trigger] values@[k], key) by {
                    assert(prefix[k] == values@[k]);
                    if values@[adj as int] == key {
                        assert(prefix[adj as int] == values@[adj as int]);
                    }
                }
            }
            while i > adj
                invariant
                    total_order::<T>(),
                    n == values@.len(),
                    adj <= i <= j < n,
                    forall|a: int, b: int|
                        0 <= a < b <= j && a != i && b != i ==> le(#[trigger] values@[a], #[trigger] values@[b]),
                    forall|k: int| i < k <= j ==> le(key, #[trigger] values@[k]),
                    forall|k: int| adj <= k < i ==> le(key, #[trigger] values@[k]),
                    forall|k: int| 0 <= k < adj ==> le(#[trigger] values@[k], key),
                    values@.update(i as int, key).to_multiset() == old(values)@.to_multiset(),
                decreases i,
            {
                proof {
                    lemma_shift_perm(values@, i as int, key);
                }
                values[i] = values[i - 1];
                i -= 1;
            }
        } else {
            proof {
                assert forall|k: int| 0 <= k < j implies le(#[trigger] values@[k], key) by {
                    assert(prefix[k] == values@[k]);
                }
            }
        }
        values[i] = key;
        j += 1;
    }
    proof {
        if sorted(old(values)@) {
            lemma_sorted_unique(values@, old(values)@);
        }
    }
}

/// Sorts by swapping each element leftwards past the greater or equal
/// elements before it.
///
/// The element being inserted travels by swaps, so the key need not be
/// copied out and `T` need not be `Copy`. This is notably slower than the
/// CLRS version.
pub fn shepmaster<T: PartialOrd>(arr: &mut [T])
    requires
        total_order::<T>(),
    ensures
        sorted(final(arr)@),
        final(arr)@.to_multiset() == old(arr)@.to_multiset(),
        sorted(old(arr)@) ==> final(arr)@ == old(arr)@,
{
    let n = arr.len();
    let mut i: usize = 0;
    while i < n
        invariant
            total_order::<T>(),
            n == arr@.len(),
            i <= n,
            forall|a: int, b: int| 0 <= a < b < i ==> le(#[trigger] arr@[a], #[trigger] arr@[b]),
            arr@.to_multiset() == old(arr)@.to_multiset(),
        decreases n - i,
    {
        let mut j = i;
        while j > 0 && arr[j - 1] >= arr[j]
            invariant
                total_order::<T>(),
                n == arr@.len(),
                j <= i < n,
                forall|a: int, b: int|
                    0 <= a < b <= i && a != j && b != j ==> le(#[trigger] arr@[a], #[trigger] arr@[b]),
                forall|k: int| j < k <= i ==> le(arr@[j as int], #[trigger] arr@[k]),
                j < i && j > 0 ==> le(arr@[j - 1], arr@[j + 1]),
                arr@.to_multiset() == old(arr)@.to_multiset(),
            decreases j,
        {
            let ghost prev = arr@;
            proof {
                lemma_swap_perm(arr@, j - 1, j as int);
                lemma_trichotomy(arr@[j - 1], arr@[j as int]);
                if j >= 2 {
                    lemma_le_trans(arr@[j - 2], arr@[j - 1], arr@[j as int]);
                }
            }
            swap(arr, j - 1, j);
            proof {
                assert forall|k: int| j - 1 < k <= i implies le(arr@[j - 1], #[trigger] arr@[k]) by {
                    if k > j {
                        lemma_le_trans(prev[j as int], prev[j - 1], prev[k]);
                    }
                }
            }
            j -= 1;
        }
        proof {
            if j > 0 {
                lemma_trichotomy(arr@[j - 1], arr@[j as int]);
                assert forall|a: int| 0 <= a < j implies le(#[trigger] arr@[a], arr@[j as int]) by {
                    lemma_le_trans(arr@[a], arr@[j - 1], arr@[j as int]);
                }
            }
            assert forall|a: int, b: int| 0 <= a < b <= i implies le(#[trigger] arr@[a], #[trigger] arr@[b]) by {
                if a < j && b > j {
                    lemma_le_trans(arr@[a], arr@[j as int], arr@[b]);
                }
            }
        }
        i += 1;
    }
    proof {
        if sorted(old(arr)@) {
            lemma_sorted_unique(arr@, old(arr)@);
        }
    }
}

/// The CLRS implementation sorting in nonincreasing order.
pub fn clrs_nonincreasing<T: Copy + PartialOrd>(arr: &mut [T])
    requires
        total_order::<T>(),
    ensures
        sorted_desc(final(arr)@),
        final(arr)@.to_multiset() == old(arr)@.to_multiset(),
        sorted_desc(old(arr)@) ==> final(arr)@ == old(arr)@,
{
    let n = arr.len();
    let mut j: usize = 1;
    while j < n
        invariant
            total_order::<T>(),
            n == arr@.len(),
            1 <= j || n == 0,
            j <= n || n == 0,
            forall|a: int, b: int| 0 <= a < b < j ==> le(#[trigger] arr@[b], #[trigger] arr@[a]),
            arr@.to_multiset() == old(arr)@.to_multiset(),
        decreases n - j,
    {
        let key = arr[j];
        let mut i = j;
        assert(arr@.update(i as int, key) =~= arr@);
        while i > 0 && arr[i - 1] < key
            invariant
                total_order::<T>(),
                n == arr@.len(),
                0 <= i <= j < n,
                forall|a: int, b: int|
                    0 <= a < b <= j && a != i && b != i ==> le(#[trigger] arr@[b], #[trigger] arr@[a]),
                forall|k: int| i < k <= j ==> lt(#[trigger] arr@[k], key),
                arr@.update(i as int, key).to_multiset() == old(arr)@.to_multiset(),
            decreases i,
        {
            proof {
                lemma_shift_perm(arr@, i as int, key);
            }
            arr[i] = arr[i - 1];
            i -= 1;
        }
        proof {
            if i > 0 {
                lemma_trichotomy(arr@[i - 1], key);
                assert forall|a: int| 0 <= a < i implies le(key, #[trigger] arr@[a]) by {
                    lemma_le_trans(key, arr@[i - 1], arr@[a]);
                }
            }
        }
        arr[i] = key;
        j += 1;
    }
    proof {
        if sorted_desc(old(arr)@) {
            lemma_sorted_desc_unique(arr@, old(arr)@);
        }
    }
}

} // verus!
