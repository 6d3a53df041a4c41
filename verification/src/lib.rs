//! Replicated world state for a small multiplayer game.
//!
//! One process, the host, owns the world; up to three remote clients mirror
//! it.  State travels as datagrams over a transport that may drop or reorder
//! them, so every datagram is self-describing, carries a sequence stamp, and
//! is applied to a fixed-size player table or to the enemy list only when it
//! is newer than what its stream has already seen.

pub mod animation;
pub mod codec;
pub mod counter;
pub mod enemy;
pub mod error;
pub mod gamestate;
pub mod geometry;
pub mod hex;
pub mod payload;
pub mod player;
pub mod replica;
pub mod stream;
pub mod text;
pub mod wire;
