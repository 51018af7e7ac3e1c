//! The `Player` type: one of the two participants in the game.

use vstd::prelude::*;

verus! {

/// One of the two players in the game.
#[derive(Debug, Clone, Copy, PartialEq, Eq, Hash, Structural)]
pub enum Player {
    /// The Red player.
    Red,
    /// The Blue player.
    Blue,
}

impl Player {
    /// The opposing player, as a specification-level mapping.
    pub open spec fn spec_opponent(self) -> Player {
        match self {
            Player::Red => Player::Blue,
            Player::Blue => Player::Red,
        }
    }

    /// Returns the opposing player.
    ///
    /// Useful for switching turns or checking for wins where the
    /// context needs to be inverted.
    #[must_use]
    pub fn opponent(&self) -> (r: Player)
        ensures
            r == self.spec_opponent(),
    {
        match self {
            Player::Red => Player::Blue,
            Player::Blue => Player::Red,
        }
    }

    /// The player's name, for presentation.
    pub fn name(&self) -> (r: &'static str)
        ensures
            self is Red ==> r@ == "Red"@,
            self is Blue ==> r@ == "Blue"@,
    {
        match self {
            Player::Red => "Red",
            Player::Blue => "Blue",
        }
    }
}

} // verus!
