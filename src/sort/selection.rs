//! Selection sort
//!
//! Finds the smallest element and swaps it into the first place, then the
//! next smallest into the second place, and so on. The inner scan always
//! covers the whole unsorted suffix, so the running time is _O(n²)_ in every
//! case, with _O(1)_ extra space.

use vstd::prelude::*;
use crate::order::{le, sorted, total_order, lemma_trichotomy, lemma_le_trans};
use crate::sort::{lemma_swap_perm, lemma_sorted_unique, swap};

verus! {

/// Sorts `values` by repeatedly selecting the minimum of the unsorted suffix.
///
/// Of equal minimal elements the leftmost is selected. Once the first
/// _n - 1_ places hold the smallest elements, the last one is in place too.
pub fn selection<T: PartialOrd>(values: &mut [T])
    requires
        total_order::<T>(),
    ensures
        sorted(final(values)@),
        final(values)@.to_multiset() == old(values)@.to_multiset(),
        sorted(old(values)@) ==> final(values)@ == old(values)@,
{
    let n = values.len();
    let mut i: usize = 0;
    while i + 1 < n
        invariant
            total_order::<T>(),
            n == values@.len(),
            i < n || i == 0,
            forall|a: int, b: int| 0 <= a < b < i ==> le(#[trigger] values@[a], #[trigger] values@[b]),
            forall|a: int, b: int| 0 <= a < i <= b < n ==> le(#[trigger] values@[a], #[trigger] values@[b]),
            values@.to_multiset() == old(values)@.to_multiset(),
        decreases n - i,
    {
        let mut min = i;
        let mut j = i + 1;
        while j < n
            invariant
                total_order::<T>(),
                n == values@.len(),
                i <= min < j <= n,
                forall|k: int| i <= k < j ==> le(values@[min as int], #[trigger] values@[k]),
            decreases n - j,
        {
            proof {
                lemma_trichotomy(values@[j as int], values@[min as int]);
            }
            if values[j] < values[min] {
                proof {
                    assert forall|k: int| i <= k < j implies le(values@[j as int], #[trigger] values@[k]) by {
                        lemma_le_trans(values@[j as int], values@[min as int], values@[k]);
                    }
                }
                min = j;
            }
            j += 1;
        }
        let ghost prev = values@;
        proof {
            lemma_swap_perm(values@, i as int, min as int);
        }
        swap(values, i, min);
        proof {
            assert forall|b: int| i < b < n implies le(values@[i as int], #[trigger] values@[b]) by {
                if b == min {
                    assert(values@[b] == prev[i as int]);
                } else {
                    assert(values@[b] == prev[b]);
                }
            }
            assert forall|a: int, b: int| 0 <= a < i + 1 <= b < n implies le(#[trigger] values@[a], #[trigger] values@[b]) by {
                if a < i {
                    assert(values@[a] == prev[a]);
                    if b == min {
                        assert(values@[b] == prev[i as int]);
                    } else {
                        assert(values@[b] == prev[b]);
                    }
                }
            }
        }
        i += 1;
    }
    proof {
        assert forall|a: int, b: int| 0 <= a < b < n implies le(#[trigger] values@[a], #[trigger] values@[b]) by {
            if b >= i {
                assert(le(values@[a], values@[b]));
            }
        }
    }
    proof {
        if sorted(old(values)@) {
            lemma_sorted_unique(values@, old(values)@);
        }
    }
}

} // verus!
