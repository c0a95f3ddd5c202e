//! An incrementally buildable, content-addressed binary hash tree over a
//! growing sequence of data items, parameterized by a caller-supplied
//! hashing capability.

pub mod hashing;
pub mod merkle_tree;
pub mod render;
