//! Greatest common divisor

use vstd::prelude::*;
use vstd::arithmetic::div_mod::{lemma_fundamental_div_mod, lemma_mod_multiples_basic};
use crate::math::integer::Integer;

verus! {

/// `d` divides `x`.
pub open spec fn divides(d: int, x: int) -> bool {
    d != 0 && x % d == 0
}

/// `g` is the greatest common divisor of `a` and `b`: a positive common
/// divisor that no other positive common divisor exceeds.
pub open spec fn is_gcd(g: int, a: int, b: int) -> bool {
    &&& g > 0
    &&& divides(g, a)
    &&& divides(g, b)
    &&& forall|d: int| d > 0 && #[trigger] divides(d, a) && divides(d, b) ==> d <= g
}

/// A positive divisor of `x + q * y` can be found from divisors of `x` and `y`.
proof fn lemma_divides_combination(d: int, x: int, y: int, q: int)
    requires
        d > 0,
        divides(d, x),
        divides(d, y),
    ensures
        divides(d, x + q * y),
{
    lemma_fundamental_div_mod(x, d);
    lemma_fundamental_div_mod(y, d);
    let k = x / d + q * (y / d);
    assert(x + q * y == k * d) by (nonlinear_arith)
        requires
            x == d * (x / d),
            y == d * (y / d),
            k == x / d + q * (y / d),
    ;
    lemma_mod_multiples_basic(k, d);
}

/// A positive divisor of a positive number is at most that number.
proof fn lemma_divisor_le(d: int, x: int)
    requires
        d > 0,
        x > 0,
        divides(d, x),
    ensures
        d <= x,
{
    lemma_fundamental_div_mod(x, d);
    let k = x / d;
    assert(d <= x) by (nonlinear_arith)
        requires
            x == d * k,
            d > 0,
            x > 0,
    ;
}

/// Euclid's algorithm.
///
/// Replaces `(m, n)` by `(n, m % n)` until `n` divides `m`. Each step keeps
/// the set of common divisors, and `n` strictly decreases, so the loop ends
/// with `n` the greatest common divisor of the inputs.
pub fn euclid<N: Integer>(m: N, n: N) -> (r: N)
    requires
        m.value() > 0,
        n.value() > 0,
    ensures
        is_gcd(r.value(), m.value(), n.value()),
{
    let (mut m, mut n) = if m.less_than(&n) { (n, m) } else { (m, n) };
    let ghost (m0, n0) = (m.value(), n.value());
    while !m.rem(&n).is_zero()
        invariant
            m.value() > 0,
            n.value() > 0,
            forall|d: int| d > 0 ==> ((divides(d, m0) && divides(d, n0)) <==> (#[trigger] divides(d, m.value())
                && divides(d, n.value()))),
        decreases n.value(),
    {
        let r = m.rem(&n);
        let ghost (old_m, old_n) = (m, n);
        proof {
            let (mv, nv) = (m.value(), n.value());
            lemma_fundamental_div_mod(mv, nv);
            assert forall|d: int| d > 0 implies ((divides(d, m0) && divides(d, n0)) <==> (divides(d, nv)
                && #[trigger] divides(d, mv % nv))) by {
                assert((divides(d, m0) && divides(d, n0)) <==> (divides(d, mv) && divides(d, nv)));
                if divides(d, mv) && divides(d, nv) {
                    lemma_divides_combination(d, mv, nv, -(mv / nv));
                    assert(mv + -(mv / nv) * nv == mv % nv) by (nonlinear_arith)
                        requires
                            mv == nv * (mv / nv) + mv % nv,
                    ;
                }
                if divides(d, nv) && divides(d, mv % nv) {
                    lemma_divides_combination(d, mv % nv, nv, mv / nv);
                    assert(mv % nv + (mv / nv) * nv == mv) by (nonlinear_arith)
                        requires
                            mv == nv * (mv / nv) + mv % nv,
                    ;
                }
            }
        }
        m = n;
        n = r;
        proof {
            assert forall|d: int| d > 0 implies ((divides(d, m0) && divides(d, n0)) <==> (#[trigger] divides(d, m.value())
                && divides(d, n.value()))) by {
                assert(divides(d, n.value()) == divides(d, old_m.value() % old_n.value()));
            }
        }
    }
    proof {
        let (mv, nv) = (m.value(), n.value());
        assert(divides(nv, mv));
        assert(divides(nv, nv)) by {
            lemma_mod_multiples_basic(1, nv);
        }
        assert forall|d: int| d > 0 && #[trigger] divides(d, m0) && divides(d, n0) implies d <= nv by {
            assert(divides(d, mv) && divides(d, nv));
            lemma_divisor_le(d, nv);
        }
    }
    n
}

} // verus!
