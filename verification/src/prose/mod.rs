//! Conversion of the algorithmic language to prose: its failure categories.

pub mod error;
pub mod free;
