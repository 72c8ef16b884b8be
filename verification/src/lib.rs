//! Client-side world-state engine for a turn-based grid simulation game.
//!
//! The game engine drives a text protocol over standard input and output:
//! a one-time initialization sequence, then one block of lines per turn.
//! This crate owns the protocol logic: tokenizing lines, toroidal grid
//! arithmetic, building the world model from the initialization lines,
//! resynchronizing it every turn, and encoding action intents back into
//! the engine's command grammar. All I/O stays outside the crate; every
//! function here works on plain values and is verified.

pub mod error;
pub mod game;
pub mod input;
pub mod position;
pub mod protocol;
