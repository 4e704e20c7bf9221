//! The element orders that the sorting and searching routines rely on.
//!
//! Elements are compared through `PartialOrd`, `Ord` and `PartialEq`. The
//! predicates here say when those comparisons behave as a total order, so
//! that contracts can speak of `lt` and `le` as plain mathematical relations.

use vstd::prelude::*;
use core::cmp::Ordering;
use vstd::std_specs::cmp::{PartialEqSpec, PartialOrdSpec, OrdSpec};

verus! {

/// `a` is strictly less than `b` according to `partial_cmp`.
pub open spec fn lt<T: PartialOrd>(a: T, b: T) -> bool {
    a.partial_cmp_spec(&b) == Some(Ordering::Less)
}

/// `a` is less than or equal to `b`.
pub open spec fn le<T: PartialOrd>(a: T, b: T) -> bool {
    lt(a, b) || a == b
}

/// Every element of `s` is less than or equal to every later element.
pub open spec fn sorted<T: PartialOrd>(s: Seq<T>) -> bool {
    forall|i: int, j: int| 0 <= i < j < s.len() ==> le(#[trigger] s[i], #[trigger] s[j])
}

/// Every element of `s` is greater than or equal to every later element.
pub open spec fn sorted_desc<T: PartialOrd>(s: Seq<T>) -> bool {
    forall|i: int, j: int| 0 <= i < j < s.len() ==> le(#[trigger] s[j], #[trigger] s[i])
}

/// `partial_cmp` on `T` is a total order whose equality is value equality.
pub open spec fn total_order<T: PartialOrd>() -> bool {
    &&& T::obeys_partial_cmp_spec()
    &&& forall|a: T, b: T| #[trigger] a.partial_cmp_spec(&b) is Some
    &&& forall|a: T, b: T|
        #![trigger a.partial_cmp_spec(&b)]
        (a.partial_cmp_spec(&b) == Some(Ordering::Equal)) <==> a == b
    &&& forall|a: T, b: T|
        #![trigger a.partial_cmp_spec(&b), b.partial_cmp_spec(&a)]
        (a.partial_cmp_spec(&b) == Some(Ordering::Less)) <==> (b.partial_cmp_spec(&a)
            == Some(Ordering::Greater))
    &&& forall|a: T, b: T, c: T|
        #![trigger a.partial_cmp_spec(&b), b.partial_cmp_spec(&c)]
        lt(a, b) && lt(b, c) ==> lt(a, c)
}

/// `cmp` on `T` is a total order that agrees with `partial_cmp`.
pub open spec fn total_ord<T: Ord>() -> bool {
    &&& total_order::<T>()
    &&& T::obeys_cmp_spec()
    &&& forall|a: T, b: T| #[trigger] a.cmp_spec(&b) == a.partial_cmp_spec(&b)->Some_0
}

/// `==` on `T` is value equality.
pub open spec fn eq_is_equality<T: PartialEq>() -> bool {
    &&& T::obeys_eq_spec()
    &&& forall|a: T, b: T| #[trigger] a.eq_spec(&b) <==> a == b
}

/// Exactly one of `lt(a, b)`, `a == b`, `lt(b, a)` holds.
pub proof fn lemma_trichotomy<T: PartialOrd>(a: T, b: T)
    requires
        total_order::<T>(),
    ensures
        lt(a, b) || a == b || lt(b, a),
        !(lt(a, b) && a == b),
        !(lt(a, b) && lt(b, a)),
{
    assert(a.partial_cmp_spec(&b) is Some);
    assert(b.partial_cmp_spec(&a) is Some);
    let o = a.partial_cmp_spec(&b)->Some_0;
    assert(o == Ordering::Less || o == Ordering::Equal || o == Ordering::Greater);
    if o == Ordering::Greater {
        assert(b.partial_cmp_spec(&a) == Some(Ordering::Less));
        assert(lt(b, a));
    } else if o == Ordering::Equal {
        assert(a == b);
    }
}

/// `le` is transitive, and `le` then `lt` gives `lt`.
pub proof fn lemma_le_trans<T: PartialOrd>(a: T, b: T, c: T)
    requires
        total_order::<T>(),
    ensures
        le(a, b) && le(b, c) ==> le(a, c),
        le(a, b) && lt(b, c) ==> lt(a, c),
        lt(a, b) && le(b, c) ==> lt(a, c),
{
    if lt(a, b) && lt(b, c) {
        assert(a.partial_cmp_spec(&b) == Some(Ordering::Less));
        assert(b.partial_cmp_spec(&c) == Some(Ordering::Less));
    }
}

/// A sequence is sorted exactly when each element is less than or equal to
/// the next one.
pub proof fn lemma_sorted_iff_adjacent<T: PartialOrd>(s: Seq<T>)
    requires
        total_order::<T>(),
    ensures
        sorted(s) <==> forall|i: int| 0 <= i < s.len() - 1 ==> le(#[trigger] s[i], s[i + 1]),
{
    if forall|i: int| 0 <= i < s.len() - 1 ==> le(#[trigger] s[i], s[i + 1]) {
        assert forall|i: int, j: int| 0 <= i < j < s.len() implies le(#[trigger] s[i], #[trigger] s[j]) by {
            lemma_adjacent_chain(s, i, j);
        }
    }
}

/// Chaining adjacent steps from `i` up to `j`.
proof fn lemma_adjacent_chain<T: PartialOrd>(s: Seq<T>, i: int, j: int)
    requires
        total_order::<T>(),
        0 <= i <= j < s.len(),
        forall|k: int| 0 <= k < s.len() - 1 ==> le(#[trigger] s[k], s[k + 1]),
    ensures
        le(s[i], s[j]),
    decreases j - i,
{
    if i < j {
        lemma_adjacent_chain(s, i, j - 1);
        assert(le(s[j - 1], s[j]));
        lemma_le_trans(s[i], s[j - 1], s[j]);
    }
}

/// A sequence is sorted in nonincreasing order exactly when each element is
/// greater than or equal to the next one.
pub proof fn lemma_sorted_desc_iff_adjacent<T: PartialOrd>(s: Seq<T>)
    requires
        total_order::<T>(),
    ensures
        sorted_desc(s) <==> forall|i: int| 0 <= i < s.len() - 1 ==> le(s[i + 1], #[trigger] s[i]),
{
    if forall|i: int| 0 <= i < s.len() - 1 ==> le(s[i + 1], #[trigger] s[i]) {
        assert forall|i: int, j: int| 0 <= i < j < s.len() implies le(#[trigger] s[j], #[trigger] s[i]) by {
            lemma_adjacent_chain_desc(s, i, j);
        }
    }
}

/// Chaining adjacent nonincreasing steps from `i` up to `j`.
proof fn lemma_adjacent_chain_desc<T: PartialOrd>(s: Seq<T>, i: int, j: int)
    requires
        total_order::<T>(),
        0 <= i <= j < s.len(),
        forall|k: int| 0 <= k < s.len() - 1 ==> le(s[k + 1], #[trigger] s[k]),
    ensures
        le(s[j], s[i]),
    decreases j - i,
{
    if i < j {
        lemma_adjacent_chain_desc(s, i, j - 1);
        assert(le(s[j], s[j - 1]));
        lemma_le_trans(s[j], s[j - 1], s[i]);
    }
}

/// The primitive integer types meet the order requirements of the sorting
/// and searching routines.
pub proof fn lemma_integer_orders()
    ensures
        total_ord::<u8>(),
        total_ord::<u16>(),
        total_ord::<u32>(),
        total_ord::<u64>(),
        total_ord::<usize>(),
        total_ord::<i8>(),
        total_ord::<i16>(),
        total_ord::<i32>(),
        total_ord::<i64>(),
        eq_is_equality::<u8>(),
        eq_is_equality::<u32>(),
        eq_is_equality::<u64>(),
        eq_is_equality::<i32>(),
        eq_is_equality::<i64>(),
{
}

} // verus!
