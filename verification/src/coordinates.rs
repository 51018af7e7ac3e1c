//! The `Coordinates` type: a bounds-checked location on the game board.

use vstd::prelude::*;

use crate::errors::GameError;
use crate::BOARD_COLUMN_SIZE;
use crate::BOARD_ROW_SIZE;

verus! {

/// Whether `(r, c)` lies on the board.
pub open spec fn coord_in_bounds(r: int, c: int) -> bool {
    &&& 0 <= r < BOARD_ROW_SIZE as int
    &&& 0 <= c < BOARD_COLUMN_SIZE as int
}

/// The orthogonal in-bounds neighbours of `(r, c)`, in the fixed
/// enumeration order north, south, west, east.
pub open spec fn spec_neighbors(r: int, c: int) -> Seq<(int, int)> {
    (if r > 0 {
        seq![(r - 1, c)]
    } else {
        Seq::<(int, int)>::empty()
    }) + (if r < BOARD_ROW_SIZE as int - 1 {
        seq![(r + 1, c)]
    } else {
        Seq::<(int, int)>::empty()
    }) + (if c > 0 {
        seq![(r, c - 1)]
    } else {
        Seq::<(int, int)>::empty()
    }) + (if c < BOARD_COLUMN_SIZE as int - 1 {
        seq![(r, c + 1)]
    } else {
        Seq::<(int, int)>::empty()
    })
}

/// Points to a specific square on the board using row and column indices.
///
/// Every value of this type carries coordinates within the bounds of the
/// board, as defined by `BOARD_ROW_SIZE` and `BOARD_COLUMN_SIZE`.
#[derive(Debug, Clone, Copy, PartialEq, Eq, Hash, Structural)]
pub struct Coordinates {
    row: usize,
    column: usize,
}

impl View for Coordinates {
    type V = (int, int);

    closed spec fn view(&self) -> (int, int) {
        (self.row as int, self.column as int)
    }
}

impl Coordinates {
    /// Every `Coordinates` value lies on the board; `use_type_invariant`
    /// recovers this fact for any value of the type.
    #[verifier::type_invariant]
    pub open spec fn bounds_invariant(self) -> bool {
        coord_in_bounds(self@.0, self@.1)
    }

    /// Creates a new `Coordinates` instance.
    /// Row and column are always zero-based indexes, and must lie on the
    /// board.
    pub fn new(row: usize, column: usize) -> (r: Self)
        requires
            row < BOARD_ROW_SIZE,
            column < BOARD_COLUMN_SIZE,
        ensures
            r@ == (row as int, column as int),
    {
        Self { row, column }
    }

    /// Creates a new `Coordinates` instance, rejecting out-of-range
    /// indices with `GameError::OutOfBounds`.
    pub fn try_new(row: usize, column: usize) -> (r: Result<Self, GameError>)
        ensures
            row < BOARD_ROW_SIZE && column < BOARD_COLUMN_SIZE <==> (r matches Ok(c)
                && c@ == (row as int, column as int)),
            !(row < BOARD_ROW_SIZE && column < BOARD_COLUMN_SIZE) <==> r === Err(
                GameError::OutOfBounds,
            ),
    {
        if row < BOARD_ROW_SIZE && column < BOARD_COLUMN_SIZE {
            Ok(Self { row, column })
        } else {
            Err(GameError::OutOfBounds)
        }
    }

    /// Returns the zero-based row index.
    pub fn row(&self) -> (r: usize)
        ensures
            r as int == self@.0,
            r < BOARD_ROW_SIZE,
    {
        proof {
            use_type_invariant(self);
        }
        self.row
    }

    /// Returns the zero-based column index.
    pub fn column(&self) -> (r: usize)
        ensures
            r as int == self@.1,
            r < BOARD_COLUMN_SIZE,
    {
        proof {
            use_type_invariant(self);
        }
        self.column
    }

    /// Returns the list of valid orthogonally adjacent neighbour
    /// coordinates, in the order north, south, west, east.
    pub fn neighbors(&self) -> (r: Vec<Coordinates>)
        ensures
            r@.len() == spec_neighbors(self@.0, self@.1).len(),
            forall|k: int|
                0 <= k < r@.len() ==> r@[k]@ == spec_neighbors(self@.0, self@.1)[k],
    {
        proof {
            use_type_invariant(self);
        }
        let mut neighbors: Vec<Coordinates> = Vec::new();

        // Check North
        if self.row > 0 {
            neighbors.push(Coordinates::new(self.row - 1, self.column));
        }
        // Check South
        if self.row < BOARD_ROW_SIZE - 1 {
            neighbors.push(Coordinates::new(self.row + 1, self.column));
        }
        // Check West
        if self.column > 0 {
            neighbors.push(Coordinates::new(self.row, self.column - 1));
        }
        // Check East
        if self.column < BOARD_COLUMN_SIZE - 1 {
            neighbors.push(Coordinates::new(self.row, self.column + 1));
        }

        neighbors
    }
}

} // verus!
