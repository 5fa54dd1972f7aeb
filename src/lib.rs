//! Storage and append engine of a Merkle Mountain Range: a durable map that keeps only the
//! current peaks, and a fork-aware external store that keeps the full content of every node.

pub mod peaks;
pub mod utils;
pub mod node;
pub mod storage;
pub mod weights;
