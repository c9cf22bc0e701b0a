//! The debugger: breakpoints, and the conditions that guard them.
pub mod expression;
pub mod breakpoint;
pub mod stepping;
