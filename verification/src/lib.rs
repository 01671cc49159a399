//! A library for a mod-editing workspace: a self-describing compressed
//! container format for project documents, and an ordered, depth-limited
//! view of a directory subtree.

pub mod codec;
pub mod results;
pub mod tree;
