//! Routines that combine sorting and searching.

pub mod find_sum;
