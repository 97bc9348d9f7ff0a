//! Closure-capture analysis for a function body.
//!
//! Given the syntax tree of a function, the analysis finds the bindings of
//! the enclosing scope that the function reads or writes, merges their
//! member-access paths into a prefix tree, and emits a nested manifest
//! expression that names each capture once.
//!
//! A traversal is made with `ClosureGeneratorVisitor::new`, visits the body
//! once, and is then asked for the manifest with `build`. What each step
//! does is stated over mathematical views of the data: `TrieView` for the
//! prefix tree, `VisitorView` for the state of the traversal, `ExprView` for
//! the manifest. The module `laws` holds what follows from these
//! statements for every input.

pub mod syntax;
pub mod ident_ref;
pub mod ident_path;
pub mod utils;
pub mod manifest;
pub mod seq_facts;
pub mod trie_view;
pub mod trie;
pub mod visitor_view;
pub mod visitor;
pub mod laws;
