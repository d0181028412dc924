//! Scope-aware injection of provided globals into a module's syntax tree.
//!
//! A module is held as a tree of items whose identifier occurrences live in
//! one table, in traversal order. The injector finds free occurrences whose
//! name a provider table knows, hoists one `require` declaration per name to
//! the top of the module and rebinds the free occurrences to it.
pub mod ast;
pub mod providers;
pub mod hoist_table;
pub mod provide;
pub mod laws;
pub mod text;
pub mod less;
pub mod harness;
