//! The error kinds the game core can report.

use vstd::prelude::*;

verus! {

/// The two failure modes of the game core.
#[derive(Debug, Clone, Copy, PartialEq, Eq, Structural)]
pub enum GameError {
    /// A coordinate's row or column exceeds the board dimensions.
    OutOfBounds,
    /// A placement handed to move application is not among the current
    /// player's valid moves.
    IllegalMove,
}

} // verus!
