//! Numeric routines.

pub mod integer;
pub mod fibonacci;
pub mod gcd;
pub mod sum_first_n;
