//! Decision logic for a small walk-through scene: a player steered with the
//! arrow keys, and trigger volumes whose lights turn green while the player
//! is inside them.
//!
//! The crate holds no engine types. Entities are named by their 64-bit
//! identifiers, and every function maps plain values to plain values, so
//! that the host program only reads the engine's state, asks this library
//! what to do, and carries the answer out.

pub mod movement;
pub mod sensor;
pub mod colors;
