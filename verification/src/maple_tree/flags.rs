//! Flags to be used with [`MapleTree::new`](super::MapleTree::new).
pub use super::Flags::ALLOC_TREE;
pub use super::Flags::DEFAULT_TREE;
