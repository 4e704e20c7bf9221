//! Bit-level routines.

pub mod bitvec_addition;
pub mod manipulation;
