//! Optimizations on the syntax tree.
pub mod const_fold;
