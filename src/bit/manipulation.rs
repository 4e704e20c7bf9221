//! Bit manipulation on bytes
//!
//! Each routine is a single expression over `x` and `x ± 1`, computed with
//! wrapping arithmetic so that every byte is a valid input.

use vstd::prelude::*;

verus! {

/// Unsets the rightmost `1` in the byte: _x & (x - 1)_.
pub fn unset_rightmost_one(x: u8) -> (r: u8)
    ensures
        x == 0 ==> r == 0,
        x > 0 ==> r == x & ((x - 1) as u8),
{
    let r = x & x.wrapping_sub(1);
    assert(x == 0 ==> (x & 255u8) == 0) by (bit_vector);
    r
}

/// Sets the rightmost `0` in the byte: _x | (x + 1)_.
pub fn set_rightmost_zero(x: u8) -> (r: u8)
    ensures
        x == 255 ==> r == 255,
        x < 255 ==> r == x | ((x + 1) as u8),
{
    let r = x | x.wrapping_add(1);
    assert(x == 255 ==> (x | 0u8) == 255) by (bit_vector);
    r
}

/// Unsets the trailing `1`s in the byte: _x & (x + 1)_.
pub fn unset_trailing_ones(x: u8) -> (r: u8)
    ensures
        x == 255 ==> r == 0,
        x < 255 ==> r == x & ((x + 1) as u8),
{
    let r = x & x.wrapping_add(1);
    assert((x & 0u8) == 0) by (bit_vector);
    r
}

/// Sets the trailing `0`s in the byte: _x | (x - 1)_.
pub fn set_trailing_zeros(x: u8) -> (r: u8)
    ensures
        x == 0 ==> r == 255,
        x > 0 ==> r == x | ((x - 1) as u8),
{
    let r = x | x.wrapping_sub(1);
    assert(x == 0 ==> (x | 255u8) == 255) by (bit_vector);
    r
}

/// `x` is zero or a power of two.
pub open spec fn is_power_of_two_or_zero(x: u8) -> bool {
    x == 0 || x == 1 || x == 2 || x == 4 || x == 8 || x == 16 || x == 32 || x == 64 || x == 128
}

/// `x` has the form _2ⁿ - 1_ (zero included).
pub open spec fn is_exp2_minus_one_or_zero(x: u8) -> bool {
    x == 0 || x == 1 || x == 3 || x == 7 || x == 15 || x == 31 || x == 63 || x == 127 || x == 255
}

/// Determines if the byte is a power of two (or zero): _x & (x - 1) == 0_.
pub fn is_power_of_two(x: u8) -> (r: bool)
    ensures
        r == is_power_of_two_or_zero(x),
{
    let u = unset_rightmost_one(x);
    assert(x > 0 ==> ((x & ((x - 1) as u8)) == 0 <==> (x == 1 || x == 2 || x == 4 || x == 8 || x == 16
        || x == 32 || x == 64 || x == 128))) by (bit_vector);
    u == 0
}

/// Determines if the byte has the form _2ⁿ - 1_ (or zero): _x & (x + 1) == 0_.
pub fn is_exp2_minus_one(x: u8) -> (r: bool)
    ensures
        r == is_exp2_minus_one_or_zero(x),
{
    let u = unset_trailing_ones(x);
    assert(x < 255 ==> ((x & ((x + 1) as u8)) == 0 <==> (x == 0 || x == 1 || x == 3 || x == 7 || x == 15
        || x == 31 || x == 63 || x == 127))) by (bit_vector);
    u == 0
}

} // verus!
