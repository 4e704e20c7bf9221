//! Routines on strings of bytes.

pub mod balanced_bracket;
