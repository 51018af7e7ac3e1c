//! The `Square` type: a single tile on the game board.

use vstd::prelude::*;

use crate::player::Player;

verus! {

/// A single square on the board, either empty or owned by a player.
///
/// A square's state is defined by its owner and its numeric value.
/// - An **empty** square has no owner and a value of `0`.
/// - An **occupied** square has an owner and a value of at least `1`.
///
/// Between completed moves a square's value never reaches `4`: a value
/// of `4` or more is a transient signal that makes the square pop
/// during the same move application.
#[derive(Debug, Clone, Copy, PartialEq, Eq, Hash, Structural)]
pub enum Square {
    Empty,
    Occupied { owner: Player, value: u8 },
}

impl Square {
    /// The player owning the square, as a specification-level mapping.
    pub open spec fn spec_owner(self) -> Option<Player> {
        match self {
            Square::Empty => None,
            Square::Occupied { owner, value } => Some(owner),
        }
    }

    /// The numeric value of the square, as a specification-level mapping.
    pub open spec fn spec_value(self) -> int {
        match self {
            Square::Empty => 0,
            Square::Occupied { owner, value } => value as int,
        }
    }

    /// Creates a new occupied square with the given owner and value.
    pub fn new(owner: Player, value: u8) -> (r: Self)
        ensures
            r == (Square::Occupied { owner, value }),
    {
        Square::Occupied { owner, value }
    }

    /// Returns the player who owns the square, if any.
    pub fn owner(&self) -> (r: Option<Player>)
        ensures
            r == self.spec_owner(),
    {
        match self {
            Square::Empty => None,
            Square::Occupied { owner, value: _ } => Some(*owner),
        }
    }

    /// Returns the numeric value of the square.
    /// An empty square is valued as 0.
    pub fn value(&self) -> (r: u8)
        ensures
            r as int == self.spec_value(),
    {
        match self {
            Square::Empty => 0,
            Square::Occupied { owner: _, value } => *value,
        }
    }

    /// Increases the square's value by 1.  An empty square is unchanged.
    pub fn increment_value(&mut self)
        requires
            old(self).spec_value() < 255,
        ensures
            *final(self) == (match *old(self) {
                Square::Empty => Square::Empty,
                Square::Occupied { owner, value } => Square::Occupied {
                    owner,
                    value: (value + 1) as u8,
                },
            }),
    {
        match self {
            Square::Occupied { owner: _, value } => {
                *value = *value + 1;
            },
            Square::Empty => {},
        }
    }

    /// Assigns a new owner to the square.  An empty square becomes an
    /// occupied square of value 0.
    pub fn set_owner(&mut self, new_owner: Player)
        ensures
            *final(self) == (match *old(self) {
                Square::Empty => Square::Occupied { owner: new_owner, value: 0 },
                Square::Occupied { owner, value } => Square::Occupied {
                    owner: new_owner,
                    value,
                },
            }),
    {
        match self {
            Square::Occupied { owner, value: _ } => {
                *owner = new_owner;
            },
            Square::Empty => {
                *self = Square::Occupied { owner: new_owner, value: 0 };
            },
        }
    }

    /// Resets the square to an empty state.
    pub fn reset_square(&mut self)
        ensures
            *final(self) == Square::Empty,
    {
        *self = Square::Empty;
    }
}

impl Default for Square {
    /// Creates a new, empty square by default.
    fn default() -> (r: Self)
        ensures
            r == Square::Empty,
    {
        Square::Empty
    }
}

} // verus!
