//! Rules engine and adversarial search for the Color Wars board game.
//!
//! Players grow stacks on owned cells; a stack that reaches four pops,
//! capturing and incrementing its orthogonal neighbours in a cascading
//! chain reaction.  The crate provides the board state machine (move
//! validation, chain resolution, terminal detection), a material-count
//! evaluator, and an iterative-deepening alpha-beta search driven by a
//! wall-clock time budget.

use vstd::prelude::*;

pub mod board;
pub mod coordinates;
pub mod engine;
pub mod errors;
pub mod player;
pub mod square;

verus! {

/// The number of rows on the game board.
pub const BOARD_ROW_SIZE: usize = 5;

/// The number of columns on the game board.
pub const BOARD_COLUMN_SIZE: usize = 5;

} // verus!
