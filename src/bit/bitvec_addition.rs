//! Adding two bit vectors together
//!
//! A bit vector is a slice of bytes each holding `0` or `1`.
//!
//! | | No carry | Carry |
//! | --- | --- | --- |
//! | 0 + 0 | 0 | 1 |
//! | 0 + 1 | 1 | 0 |
//! | 1 + 0 | 1 | 0 |
//! | 1 + 1 | 0 | 1 |
//!
//! The bit value is equal to (_a_ + _b_ + _carry_) % 2, and the carry value
//! to (_a_ + _b_ + _carry_) / 2.

use vstd::prelude::*;
use vstd::arithmetic::power2::{pow2, lemma_pow2_unfold};

verus! {

/// The error returned when the two vectors differ in length.
pub const LENGTHS_DIFFER: &'static str = "Bit vector lengths differ";

/// The error returned when a vector holds a byte other than `0` or `1`.
pub const NOT_BITS: &'static str = "Bit vector does not contain bits";

/// Every byte of `s` is `0` or `1`.
pub open spec fn is_bits(s: Seq<u8>) -> bool {
    forall|i: int| 0 <= i < s.len() ==> #[trigger] s[i] == 0 || s[i] == 1
}

/// The number that `s` encodes with its least significant bit first.
pub open spec fn value_lsb_first(s: Seq<u8>) -> nat
    decreases s.len(),
{
    if s.len() == 0 {
        0
    } else {
        value_lsb_first(s.drop_last()) + (s.last() as nat) * pow2((s.len() - 1) as nat)
    }
}

/// The number that `s` encodes with its most significant bit first.
pub open spec fn value_msb_first(s: Seq<u8>) -> nat
    decreases s.len(),
{
    if s.len() == 0 {
        0
    } else {
        (s[0] as nat) * pow2((s.len() - 1) as nat) + value_msb_first(s.drop_first())
    }
}

/// A bit vector of length `n` encodes a number below `2^n`.
proof fn lemma_value_bound(s: Seq<u8>)
    requires
        is_bits(s),
    ensures
        value_lsb_first(s) < pow2(s.len()),
    decreases s.len(),
{
    if s.len() > 0 {
        lemma_value_bound(s.drop_last());
        lemma_pow2_unfold(s.len());
    } else {
        vstd::arithmetic::power2::lemma2_to64();
    }
}

/// Adds two bit vectors of equal length, least significant bit first.
///
/// The sum has one more bit than the inputs only where a carry is left over.
pub fn add(a: &[u8], b: &[u8]) -> (r: Result<Vec<u8>, &'static str>)
    ensures
        a@.len() != b@.len() ==> r == Err::<Vec<u8>, &'static str>(LENGTHS_DIFFER),
        a@.len() == b@.len() && !(is_bits(a@) && is_bits(b@)) ==> r == Err::<Vec<u8>, &'static str>(
            NOT_BITS,
        ),
        a@.len() == b@.len() && is_bits(a@) && is_bits(b@) ==> match r {
            Ok(v) => {
                &&& is_bits(v@)
                &&& value_lsb_first(v@) == value_lsb_first(a@) + value_lsb_first(b@)
                &&& v@.len() == if value_lsb_first(a@) + value_lsb_first(b@) >= pow2(a@.len()) {
                    a@.len() + 1int
                } else {
                    a@.len() as int
                }
            },
            Err(_) => false,
        },
{
    if a.len() != b.len() {
        return Err(LENGTHS_DIFFER);
    }
    let n = a.len();
    let mut ret: Vec<u8> = Vec::new();
    let mut carry = false;
    let mut i: usize = 0;
    while i < n
        invariant
            n == a@.len(),
            n == b@.len(),
            i <= n,
            ret@.len() == i,
            is_bits(ret@),
            is_bits(a@.subrange(0, i as int)),
            is_bits(b@.subrange(0, i as int)),
            value_lsb_first(ret@) + (if carry { pow2(i as nat) } else { 0 }) == value_lsb_first(
                a@.subrange(0, i as int),
            ) + value_lsb_first(b@.subrange(0, i as int)),
        decreases n - i,
    {
        let ghost prev = ret@;
        let ghost was_carry = carry;
        let x = a[i];
        let y = b[i];
        if (x == 0 && y == 0) {
            if carry {
                ret.push(1);
            } else {
                ret.push(0);
            }
            carry = false;
        } else if (x == 1 && y == 0) || (x == 0 && y == 1) {
            if carry {
                ret.push(0);
            } else {
                ret.push(1);
            }
        } else if x == 1 && y == 1 {
            if carry {
                ret.push(1);
            } else {
                carry = true;
                ret.push(0);
            }
        } else {
            proof {
                assert(a@[i as int] == a@.subrange(0, i + 1)[i as int]);
                assert(b@[i as int] == b@.subrange(0, i + 1)[i as int]);
                assert(!is_bits(a@) || !is_bits(b@));
            }
            return Err(NOT_BITS);
        }
        proof {
            lemma_pow2_unfold((i + 1) as nat);
            assert(ret@.drop_last() =~= prev);
            assert(a@.subrange(0, i + 1).drop_last() =~= a@.subrange(0, i as int));
            assert(b@.subrange(0, i + 1).drop_last() =~= b@.subrange(0, i as int));
            let p = pow2(i as nat);
            assert(value_lsb_first(ret@) == value_lsb_first(prev) + (ret@.last() as nat) * p);
            assert(value_lsb_first(a@.subrange(0, i + 1)) == value_lsb_first(a@.subrange(0, i as int)) + (x as nat) * p);
            assert(value_lsb_first(b@.subrange(0, i + 1)) == value_lsb_first(b@.subrange(0, i as int)) + (y as nat) * p);
        }
        i += 1;
    }
    let ghost before = ret@;
    if carry {
        ret.push(1);
        proof {
            assert(ret@.drop_last() =~= before);
        }
    }
    proof {
        assert(a@.subrange(0, n as int) =~= a@);
        assert(b@.subrange(0, n as int) =~= b@);
        lemma_value_bound(before);
    }
    Ok(ret)
}

/// Adds two bit vectors of equal length given most significant bit first,
/// with modulus and division by two.
///
/// The sum comes back least significant bit first, always one bit longer
/// than the inputs: its last bit is the final carry.
pub fn gzc(a: &[u8], b: &[u8]) -> (r: Result<Vec<u8>, &'static str>)
    ensures
        a@.len() != b@.len() ==> r == Err::<Vec<u8>, &'static str>(LENGTHS_DIFFER),
        a@.len() == b@.len() && !(is_bits(a@) && is_bits(b@)) ==> r == Err::<Vec<u8>, &'static str>(
            NOT_BITS,
        ),
        a@.len() == b@.len() && is_bits(a@) && is_bits(b@) ==> match r {
            Ok(v) => {
                &&& is_bits(v@)
                &&& v@.len() == a@.len() + 1
                &&& value_lsb_first(v@) == value_msb_first(a@) + value_msb_first(b@)
            },
            Err(_) => false,
        },
{
    if a.len() != b.len() {
        return Err(LENGTHS_DIFFER);
    }
    let n = a.len();
    let mut ret: Vec<u8> = Vec::new();
    let mut carry: u8 = 0;
    let mut i: usize = n;
    while i > 0
        invariant
            n == a@.len(),
            n == b@.len(),
            i <= n,
            ret@.len() == n - i,
            carry <= 1,
            is_bits(ret@),
            is_bits(a@.subrange(i as int, n as int)),
            is_bits(b@.subrange(i as int, n as int)),
            value_lsb_first(ret@) + (carry as nat) * pow2((n - i) as nat) == value_msb_first(
                a@.subrange(i as int, n as int),
            ) + value_msb_first(b@.subrange(i as int, n as int)),
        decreases i,
    {
        i -= 1;
        let x = a[i];
        let y = b[i];
        if x > 1 || y > 1 {
            proof {
                assert(a@[i as int] == a@.subrange(i as int, n as int)[0]);
                assert(b@[i as int] == b@.subrange(i as int, n as int)[0]);
                assert(!is_bits(a@) || !is_bits(b@));
            }
            return Err(NOT_BITS);
        }
        let ghost prev = ret@;
        let ghost was_carry = carry;
        ret.push((x + y + carry) % 2);
        carry = (x + y + carry) / 2;
        proof {
            let k = (n - i - 1) as nat;
            lemma_pow2_unfold(k + 1);
            assert(ret@.drop_last() =~= prev);
            assert(a@.subrange(i as int, n as int).drop_first() =~= a@.subrange(i + 1, n as int));
            assert(b@.subrange(i as int, n as int).drop_first() =~= b@.subrange(i + 1, n as int));
            let p = pow2(k);
            assert(value_lsb_first(ret@) == value_lsb_first(prev) + (ret@.last() as nat) * p);
            assert(value_msb_first(a@.subrange(i as int, n as int)) == (x as nat) * p + value_msb_first(
                a@.subrange(i + 1, n as int),
            ));
            assert(value_msb_first(b@.subrange(i as int, n as int)) == (y as nat) * p + value_msb_first(
                b@.subrange(i + 1, n as int),
            ));
            assert(ret@.last() + 2 * carry == x + y + was_carry);
            let (l, c, wc) = (ret@.last() as nat, carry as nat, was_carry as nat);
            assert(l * p + c * (2 * p) == (x as nat) * p + (y as nat) * p + wc * p) by (nonlinear_arith)
                requires
                    l + 2 * c == x + y + wc,
            ;
            assert(is_bits(a@.subrange(i as int, n as int))) by {
                assert forall|j: int| 0 <= j < n - i implies #[trigger] a@.subrange(i as int, n as int)[j] == 0
                    || a@.subrange(i as int, n as int)[j] == 1 by {
                    if j > 0 {
                        assert(a@.subrange(i as int, n as int)[j] == a@.subrange(i + 1, n as int)[j - 1]);
                    }
                }
            }
            assert(is_bits(b@.subrange(i as int, n as int))) by {
                assert forall|j: int| 0 <= j < n - i implies #[trigger] b@.subrange(i as int, n as int)[j] == 0
                    || b@.subrange(i as int, n as int)[j] == 1 by {
                    if j > 0 {
                        assert(b@.subrange(i as int, n as int)[j] == b@.subrange(i + 1, n as int)[j - 1]);
                    }
                }
            }
        }
    }
    let ghost before = ret@;
    ret.push(carry);
    proof {
        assert(ret@.drop_last() =~= before);
        assert(a@.subrange(0, n as int) =~= a@);
        assert(b@.subrange(0, n as int) =~= b@);
    }
    Ok(ret)
}

} // verus!
