//! Conversion from the internal language to the algorithmic language:
//! binding analysis and its supporting environments.

pub mod error;
pub mod dim;
pub mod bind;
pub mod pattern;
pub mod iteration;
pub mod shallow;
pub mod context;
pub mod collect;
pub mod dimension;
pub mod multiple;
pub mod partial;
pub mod types;
pub mod antiunify;
pub mod guard;
pub mod analyze;
pub mod defs;
pub mod diagnostics;
pub mod input;
pub mod prems;
pub mod purity;
pub mod clause;
