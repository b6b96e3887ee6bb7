//! Front end of a structural search-and-rewrite engine for a pattern-matching
//! language: it lowers syntax-tree nodes of the pattern language into an
//! executable intermediate representation, resolves variable names to binding
//! slots across lexical and global scopes, and records non-fatal diagnostics
//! for suspicious constructs such as rebinding a variable inside its own
//! sub-pattern.
//!
//! The syntax tree is supplied fully materialized by the caller (an external
//! parser produces it); this crate owns everything from that tree to the
//! compiled pattern: the per-construct compilers, the scope and symbol tables,
//! the repeated-binding analysis, and the diagnostic log.

pub mod compile;
pub mod diagnostics;
pub mod grammar;
pub mod ir;
pub mod scope;
pub mod syntax;
pub mod text;
