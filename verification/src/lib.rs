//! Splits one source file with nested inline modules into the multi-file
//! layout a compiler expects: every inline module is relocated into a file
//! of its own, recursively, and the module declarations that stay behind
//! become bodiless, annotated with an explicit location wherever the default
//! file-discovery rule would no longer find them.
//!
//! The crate plans the whole relocation as a value: a tree of items goes in,
//! a list of directory creations and file emissions comes out, together with
//! the rewritten tree.  Parsing the source text, printing trees back to text
//! and touching the filesystem are left to the caller.

pub mod fold;
pub mod laws;
pub mod names;
pub mod opts;
pub mod tree;
