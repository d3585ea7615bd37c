//! Elaboration of the surface language: its failure categories, the
//! reports and diagnostics it produces, and the backtracking among
//! alternative readings of a construct.

pub mod error;
pub mod report;
pub mod attempt;
pub mod backtrack;
pub mod diagnostics;
pub mod expected;
pub mod dimension;
pub mod context;
