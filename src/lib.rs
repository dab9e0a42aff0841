//! A binary hash tree over string leaves: construction primitives, metrics,
//! explicit-stack leaf traversal and a fixed four-field record encoding.

pub mod codec;
pub mod hashutils;
pub mod iter;
pub mod tree;
