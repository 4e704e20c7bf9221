//! Binary search over sorted slices.
//!
//! The search space is halved after every probe, so both searches make
//! _O(lg(n))_ comparisons.

use vstd::prelude::*;
use core::cmp::Ordering;
use vstd::std_specs::cmp::{PartialEqSpec, PartialOrdSpec, OrdSpec};
use crate::order::{lt, le, sorted, total_ord, lemma_trichotomy, lemma_le_trans};

verus! {

/// Comparing with `cmp` agrees with `lt` and value equality.
proof fn lemma_cmp<T: Ord>(a: T, b: T)
    requires
        total_ord::<T>(),
    ensures
        a.cmp_spec(&b) == Ordering::Less <==> lt(a, b),
        a.cmp_spec(&b) == Ordering::Equal <==> a == b,
        a.cmp_spec(&b) == Ordering::Greater <==> lt(b, a),
{
    assert(a.cmp_spec(&b) == a.partial_cmp_spec(&b)->Some_0);
    assert(a.partial_cmp_spec(&b) is Some);
    assert(b.partial_cmp_spec(&a) is Some);
}

/// Returns the index of a target value if it appears in a sorted slice.
///
/// With duplicates, any one matching index may be returned.
pub fn search<T: Ord>(values: &[T], target: &T) -> (r: Option<usize>)
    requires
        total_ord::<T>(),
        sorted(values@),
    ensures
        match r {
            Some(i) => i < values@.len() && values@[i as int] == *target,
            None => !values@.contains(*target),
        },
{
    let mut lo: usize = 0;
    let mut hi: usize = values.len();
    while lo < hi
        invariant
            total_ord::<T>(),
            sorted(values@),
            lo <= hi <= values@.len(),
            forall|j: int| 0 <= j < lo ==> lt(#[trigger] values@[j], *target),
            forall|j: int| hi <= j < values@.len() ==> lt(*target, #[trigger] values@[j]),
        decreases hi - lo,
    {
        let mid = lo + (hi - lo) / 2;
        proof {
            lemma_cmp(values@[mid as int], *target);
        }
        match values[mid].cmp(target) {
            Ordering::Equal => {
                return Some(mid);
            },
            Ordering::Less => {
                proof {
                    assert forall|j: int| 0 <= j <= mid implies lt(#[trigger] values@[j], *target) by {
                        lemma_le_trans(values@[j], values@[mid as int], *target);
                    }
                }
                lo = mid + 1;
            },
            Ordering::Greater => {
                proof {
                    assert forall|j: int| mid <= j < values@.len() implies lt(*target, #[trigger] values@[j]) by {
                        lemma_le_trans(*target, values@[mid as int], values@[j]);
                    }
                }
                hi = mid;
            },
        }
    }
    proof {
        assert forall|j: int| 0 <= j < values@.len() implies values@[j] != *target by {
            lemma_trichotomy(values@[j], *target);
        }
    }
    None
}

/// Returns the index of a target value, or the following index if not found.
///
/// When the target is absent, the result is the smallest index whose element
/// is greater than the target: the point where inserting it keeps the slice
/// sorted. `None` means there is no such index (the slice is empty, or every
/// element is less than the target).
pub fn search_closest<T: Ord>(values: &[T], target: &T) -> (r: Option<usize>)
    requires
        total_ord::<T>(),
        sorted(values@),
    ensures
        match r {
            Some(i) => {
                &&& i < values@.len()
                &&& le(*target, values@[i as int])
                &&& (values@[i as int] == *target || forall|j: int|
                    0 <= j < i ==> lt(#[trigger] values@[j], *target))
            },
            None => forall|j: int| 0 <= j < values@.len() ==> lt(#[trigger] values@[j], *target),
        },
        !values@.contains(*target) ==> match r {
            Some(i) => lt(*target, values@[i as int]) && forall|j: int|
                0 <= j < i ==> lt(#[trigger] values@[j], *target),
            None => true,
        },
{
    if values.is_empty() {
        return None;
    }
    let mut lo: usize = 0;
    let mut hi: usize = values.len();
    while lo < hi
        invariant
            total_ord::<T>(),
            sorted(values@),
            lo <= hi <= values@.len(),
            forall|j: int| 0 <= j < lo ==> lt(#[trigger] values@[j], *target),
            forall|j: int| hi <= j < values@.len() ==> lt(*target, #[trigger] values@[j]),
        decreases hi - lo,
    {
        let mid = lo + (hi - lo) / 2;
        proof {
            lemma_cmp(values@[mid as int], *target);
        }
        match values[mid].cmp(target) {
            Ordering::Equal => {
                proof {
                    assert(le(*target, values@[mid as int]));
                }
                return Some(mid);
            },
            Ordering::Less => {
                proof {
                    assert forall|j: int| 0 <= j <= mid implies lt(#[trigger] values@[j], *target) by {
                        lemma_le_trans(values@[j], values@[mid as int], *target);
                    }
                }
                lo = mid + 1;
            },
            Ordering::Greater => {
                proof {
                    assert forall|j: int| mid <= j < values@.len() implies lt(*target, #[trigger] values@[j]) by {
                        lemma_le_trans(*target, values@[mid as int], values@[j]);
                    }
                }
                hi = mid;
            },
        }
    }
    if lo < values.len() {
        proof {
            assert(lt(*target, values@[lo as int]));
        }
        Some(lo)
    } else {
        None
    }
}

} // verus!
