//! The registry of block states that the server sends at start-up.
pub mod assoc_map;
pub mod block;
