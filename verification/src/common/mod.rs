//! Generic containers.
pub mod node;
pub mod tree;
