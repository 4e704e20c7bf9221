//! Knowledge base: classic algorithm exercises, each with a verified contract.
//!
//! The sorting and searching core lives in `sort` and `search`, over the
//! element orders described in `order`; the remaining modules hold small
//! standalone routines.

pub mod bit;
pub mod math;
pub mod order;
pub mod search;
pub mod sort;
pub mod sortsearch;
pub mod string;
pub mod tree;
