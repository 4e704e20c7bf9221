//! Linear search
//!
//! Checks the elements one by one, so it needs no order on the slice and
//! makes at most _n_ comparisons.

use vstd::prelude::*;
use vstd::std_specs::cmp::PartialEqSpec;

verus! {

/// Returns the index of the first element equal to `target`, if any.
pub fn linear<T: PartialEq>(target: &T, values: &[T]) -> (r: Option<usize>)
    requires
        T::obeys_eq_spec(),
    ensures
        match r {
            Some(i) => {
                &&& i < values@.len()
                &&& values@[i as int].eq_spec(target)
                &&& forall|j: int| 0 <= j < i ==> !(#[trigger] values@[j]).eq_spec(target)
            },
            None => forall|j: int| 0 <= j < values@.len() ==> !(#[trigger] values@[j]).eq_spec(target),
        },
{
    let mut i: usize = 0;
    while i < values.len()
        invariant
            T::obeys_eq_spec(),
            i <= values@.len(),
            forall|j: int| 0 <= j < i ==> !(#[trigger] values@[j]).eq_spec(target),
        decreases values@.len() - i,
    {
        if values[i] == *target {
            return Some(i);
        }
        i += 1;
    }
    None
}

} // verus!
