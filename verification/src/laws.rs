//! What holds of the analysis on every input, stated and proved.

pub mod traversal;
pub mod trie;
