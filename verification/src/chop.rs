//! Searches over arrays of integers.

pub mod chop1;
