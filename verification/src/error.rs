//! The error taxonomy of the protocol client.

use vstd::prelude::*;

verus! {

/// Why reading the engine's input failed. Every variant is fatal: the
/// protocol is positional, so after any failure the remaining lines can
/// no longer be aligned with the grammar.
#[derive(Copy, Clone, Debug, PartialEq, Eq, Structural)]
pub enum ProtocolError {
    /// The input ended (or a line was missing) in the middle of a
    /// fixed-length sequence. Expected only at the end of the game.
    StreamClosed,
    /// A line had fewer tokens than its shape requires, a token did not
    /// parse as the expected unsigned integer, or a value violated a
    /// known bound (a position outside the map, a player id at or above
    /// the player count).
    ProtocolViolation,
    /// A required game constant was absent when it was consulted.
    ConfigurationMissing,
}

} // verus!
