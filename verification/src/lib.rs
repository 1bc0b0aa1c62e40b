//! A doubly linked list with O(1) insertion and removal at both ends.
//!
//! Nodes live in an arena (a growable vector of slots) and refer to their
//! neighbours by stable index: the forward chain carries ownership of the
//! elements, the backward references are plain indices used only for
//! navigation. Freed slots are kept on a free list and reused, so no slot is
//! ever addressed after its node was retired. Tearing the structure down
//! never recurses through the chain: the arena releases its slots one by one.

pub mod laws;
pub mod list;
