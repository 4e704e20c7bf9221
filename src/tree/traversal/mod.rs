//! Tree traversals.

pub mod dfs_in_order;
