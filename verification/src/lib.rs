//! Kernel memory-mapped I/O accessors and the maple tree, a map from
//! non-overlapping index ranges to values.
pub mod error;
pub mod fmt;
pub mod io;
pub mod maple_tree;
