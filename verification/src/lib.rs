//! Passes of a P4 specification toolchain: binding analysis for the algorithmic
//! language, elaboration backtracking, and their error categories.

pub mod span;


pub mod il;
pub mod il_typ;
pub mod il_exp;
pub mod il_free;
pub mod il_sub;
pub mod il_var;
pub mod il_def;
pub mod il_decl;
pub mod al;
pub mod assoc;
pub mod ids;
pub mod idmap;
pub mod algo;
pub mod elaborate;
pub mod prose;
