//! Documentation output.
pub mod generator;
