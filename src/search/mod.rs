//! Searching in slices.

pub mod binary;
pub mod linear;
