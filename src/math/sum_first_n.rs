//! Sum the first n numbers

use vstd::prelude::*;

verus! {

/// The sum `1 + 2 + ... + n`, the `n`th triangular number `n(n + 1) / 2`.
///
/// One of `n` and `n + 1` is even, and it is halved before the product, so
/// the computation stays in range whenever the result does.
pub fn sum_first_n(n: u64) -> (r: u64)
    requires
        n * (n + 1) / 2 <= u64::MAX,
    ensures
        r == n * (n + 1) / 2,
{
    assert(n < u64::MAX) by (nonlinear_arith)
        requires
            n * (n + 1) / 2 <= u64::MAX,
    ;
    if n % 2 == 0 {
        let h = n / 2;
        assert(h * (n + 1) == n * (n + 1) / 2) by (nonlinear_arith)
            requires
                n % 2 == 0,
                h == n / 2,
        ;
        h * (n + 1)
    } else {
        let h = (n + 1) / 2;
        assert(n * h == n * (n + 1) / 2) by (nonlinear_arith)
            requires
                n % 2 == 1,
                h == (n + 1) / 2,
        ;
        n * h
    }
}

} // verus!
