//! The game board: state, move legality, move application with chain
//! reactions, and terminal-state detection.

use vstd::prelude::*;

use crate::coordinates::{coord_in_bounds, Coordinates};
use crate::errors::GameError;
use crate::player::Player;
use crate::square::Square;
use crate::BOARD_COLUMN_SIZE;
use crate::BOARD_ROW_SIZE;

verus! {

/// The number of cells on the board.
pub const BOARD_CELLS: usize = BOARD_ROW_SIZE * BOARD_COLUMN_SIZE;

/// Upper bound on the number of pops resolved in one move application.
/// Any chain a game can actually produce settles far below this bound.
pub const CHAIN_STEP_LIMIT: usize = 1000000;

/// The flat, row-major index of the cell at `(r, c)`.
pub open spec fn cell_index(r: int, c: int) -> int {
    r * (BOARD_COLUMN_SIZE as int) + c
}

/// The abstract state of a board: a row-major sequence of squares and
/// the player to move.
pub ghost struct BoardView {
    pub grid: Seq<Square>,
    pub turn: Player,
}

impl BoardView {
    /// A board's grid always has exactly one square per cell.
    pub open spec fn wf(self) -> bool {
        self.grid.len() == BOARD_CELLS as int
    }

    /// The square at `(r, c)`.
    pub open spec fn square_at(self, r: int, c: int) -> Square {
        self.grid[cell_index(r, c)]
    }

    /// A placement is a valid move iff the cell is owned by the player
    /// whose turn it is.
    pub open spec fn is_valid_move(self, p: (int, int)) -> bool {
        &&& coord_in_bounds(p.0, p.1)
        &&& self.square_at(p.0, p.1).spec_owner() == Some(self.turn)
    }
}

/// The valid moves found among the first `n` cells, in row-major
/// order: the coordinates of every cell owned by the player to move.
pub open spec fn spec_valid_moves_upto(v: BoardView, n: nat) -> Seq<(int, int)>
    decreases n,
{
    if n == 0 {
        Seq::<(int, int)>::empty()
    } else {
        let i = (n - 1) as int;
        let m = (i / (BOARD_COLUMN_SIZE as int), i % (BOARD_COLUMN_SIZE as int));
        spec_valid_moves_upto(v, (n - 1) as nat) + (if v.grid[i].spec_owner() == Some(v.turn) {
            seq![m]
        } else {
            Seq::<(int, int)>::empty()
        })
    }
}

/// The board's whole valid-move list, in row-major order.
pub open spec fn spec_valid_moves(v: BoardView) -> Seq<(int, int)> {
    spec_valid_moves_upto(v, BOARD_CELLS as nat)
}

/// The number of squares in `g` owned by `p`.
pub open spec fn count_owned(g: Seq<Square>, p: Player) -> int
    decreases g.len(),
{
    if g.len() == 0 {
        0
    } else {
        count_owned(g.drop_last(), p) + (if g.last().spec_owner() == Some(p) {
            1int
        } else {
            0int
        })
    }
}

/// The game is over iff exactly one player's square count is zero while
/// the other's is positive.
pub open spec fn spec_game_over(v: BoardView) -> bool {
    let red = count_owned(v.grid, Player::Red);
    let blue = count_owned(v.grid, Player::Blue);
    (red > 0 || blue > 0) && (red == 0 || blue == 0)
}

/// A mid-resolution snapshot: the grid so far, and the pending pops in
/// the order they were discovered (the last entry pops next).
pub ghost struct ChainState {
    pub grid: Seq<Square>,
    pub pending: Seq<(int, int)>,
}

/// A popped square's neighbour after the pop reaches it: the mover
/// captures it and its value rises by one (an empty square becomes the
/// mover's at value 1).  The value saturates at the width of a square's
/// counter, which no chain a game can produce ever approaches.
pub open spec fn captured(sq: Square, mover: Player) -> Square {
    match sq {
        Square::Empty => Square::Occupied { owner: mover, value: 1 },
        Square::Occupied { owner, value } => Square::Occupied {
            owner: mover,
            value: if value == 255 {
                255u8
            } else {
                (value + 1) as u8
            },
        },
    }
}

/// The placement square after the mover's increment: its owner is kept
/// and its value rises by one.  An empty square is unchanged.
pub open spec fn bumped(sq: Square) -> Square {
    match sq {
        Square::Empty => Square::Empty,
        Square::Occupied { owner, value } => Square::Occupied {
            owner,
            value: if value == 255 {
                255u8
            } else {
                (value + 1) as u8
            },
        },
    }
}

/// One neighbour of a popping square receives the pop: the cell at
/// `(r, c)`, if it is on the board, is captured and incremented, and
/// joins the pending pops if its new value reaches 4.
pub open spec fn chain_touch_spec(s: ChainState, mover: Player, r: int, c: int) -> ChainState {
    if coord_in_bounds(r, c) {
        let i = cell_index(r, c);
        let sq = captured(s.grid[i], mover);
        ChainState {
            grid: s.grid.update(i, sq),
            pending: if sq.spec_value() >= 4 {
                s.pending.push((r, c))
            } else {
                s.pending
            },
        }
    } else {
        s
    }
}

/// One resolution step: the most recently discovered pending pop is
/// removed, its square becomes empty, and its orthogonal neighbours are
/// touched in the fixed order north, south, west, east.
pub open spec fn pop_step(s: ChainState, mover: Player) -> ChainState {
    let p = s.pending.last();
    let s0 = ChainState {
        grid: s.grid.update(cell_index(p.0, p.1), Square::Empty),
        pending: s.pending.drop_last(),
    };
    let s1 = chain_touch_spec(s0, mover, p.0 - 1, p.1);
    let s2 = chain_touch_spec(s1, mover, p.0 + 1, p.1);
    let s3 = chain_touch_spec(s2, mover, p.0, p.1 - 1);
    chain_touch_spec(s3, mover, p.0, p.1 + 1)
}

/// Resolution steps applied until no pop is pending, or until `fuel`
/// steps have been taken.
pub open spec fn run_chain(s: ChainState, mover: Player, fuel: nat) -> ChainState
    decreases fuel,
{
    if s.pending.len() == 0 || fuel == 0 {
        s
    } else {
        run_chain(pop_step(s, mover), mover, (fuel - 1) as nat)
    }
}

/// The state a move application starts its chain resolution from: the
/// placement square is incremented, and pops if its value reaches 4.
pub open spec fn move_start(v: BoardView, p: (int, int)) -> ChainState {
    let i = cell_index(p.0, p.1);
    let sq = bumped(v.grid[i]);
    ChainState {
        grid: v.grid.update(i, sq),
        pending: if sq.spec_value() >= 4 {
            seq![p]
        } else {
            Seq::<(int, int)>::empty()
        },
    }
}

/// The board a completed move application yields: the placement's chain
/// fully resolved, and the turn passed to the opponent.
pub open spec fn spec_make_move(v: BoardView, p: (int, int)) -> BoardView {
    BoardView {
        grid: run_chain(move_start(v, p), v.turn, CHAIN_STEP_LIMIT as nat).grid,
        turn: v.turn.spec_opponent(),
    }
}

/// The 4-bit code of one square in the board key: an empty square is 0;
/// an occupied square encodes its owner in the low bit and its value,
/// capped at the popping threshold, above it.  On settled boards the
/// cap never bites and distinct squares get distinct codes.
pub open spec fn square_code(sq: Square) -> int {
    match sq {
        Square::Empty => 0,
        Square::Occupied { owner, value } => 1 + (if owner is Red {
            0int
        } else {
            1int
        }) + 2 * (if value <= 3 {
            value as int
        } else {
            3int
        }),
    }
}

/// Powers of the board key's radix.
pub open spec fn pow16(n: nat) -> int
    decreases n,
{
    if n == 0 {
        1
    } else {
        16 * pow16((n - 1) as nat)
    }
}

/// The board key read from cell `i` on: one base-16 digit per remaining
/// cell, least significant first, with the turn bit above the last.
pub open spec fn grid_key_from(v: BoardView, i: nat) -> int
    decreases BOARD_CELLS as int - i,
{
    if i >= BOARD_CELLS as nat {
        if v.turn is Red {
            0
        } else {
            1
        }
    } else {
        square_code(v.grid[i as int]) + 16 * grid_key_from(v, i + 1)
    }
}

/// The key under which a board is cached: a reversible integer packing
/// of the whole grid and the turn (see `lemma_board_key_injective`).
pub open spec fn spec_board_key(v: BoardView) -> u128 {
    grid_key_from(v, 0) as u128
}

/// Each square code is one base-16 digit.
proof fn lemma_square_code_range(sq: Square)
    ensures
        0 <= square_code(sq) < 16,
{
}

/// Powers of the radix grow with the exponent.
proof fn lemma_pow16_increases(a: nat, b: nat)
    requires
        a <= b,
    ensures
        pow16(a) <= pow16(b),
    decreases b,
{
    if a < b {
        lemma_pow16_increases(a, (b - 1) as nat);
        lemma_grid_key_nonneg_pow((b - 1) as nat);
    }
}

/// Powers of the radix are positive.
proof fn lemma_grid_key_nonneg_pow(n: nat)
    ensures
        pow16(n) >= 1,
    decreases n,
{
    if n > 0 {
        lemma_grid_key_nonneg_pow((n - 1) as nat);
    }
}

/// The full key's digit budget fits the key's integer width.
proof fn lemma_pow16_26_bound()
    ensures
        pow16(26) < u128::MAX as int,
        pow16(27) < u128::MAX as int,
{
    assert(pow16(0) == 1);
    assert(pow16(1) == 0x10);
    assert(pow16(2) == 0x100);
    assert(pow16(3) == 0x1000);
    assert(pow16(4) == 0x10000);
    assert(pow16(5) == 0x100000);
    assert(pow16(6) == 0x1000000);
    assert(pow16(7) == 0x10000000);
    assert(pow16(8) == 0x100000000);
    assert(pow16(9) == 0x1000000000);
    assert(pow16(10) == 0x10000000000);
    assert(pow16(11) == 0x100000000000);
    assert(pow16(12) == 0x1000000000000);
    assert(pow16(13) == 0x10000000000000);
    assert(pow16(14) == 0x100000000000000);
    assert(pow16(15) == 0x1000000000000000);
    assert(pow16(16) == 0x10000000000000000);
    assert(pow16(17) == 0x100000000000000000);
    assert(pow16(18) == 0x1000000000000000000);
    assert(pow16(19) == 0x10000000000000000000);
    assert(pow16(20) == 0x100000000000000000000);
    assert(pow16(21) == 0x1000000000000000000000);
    assert(pow16(22) == 0x10000000000000000000000);
    assert(pow16(23) == 0x100000000000000000000000);
    assert(pow16(24) == 0x1000000000000000000000000);
    assert(pow16(25) == 0x10000000000000000000000000);
    assert(pow16(26) == 0x100000000000000000000000000);
    assert(pow16(27) == 0x1000000000000000000000000000);
}

/// The partial key read from cell `i` on stays below its digit budget.
proof fn lemma_grid_key_bound(v: BoardView, i: nat)
    requires
        i <= BOARD_CELLS as nat,
    ensures
        0 <= grid_key_from(v, i) < pow16((BOARD_CELLS as nat - i + 1) as nat),
    decreases BOARD_CELLS as int - i,
{
    if i >= BOARD_CELLS as nat {
        assert(pow16(0) == 1);
        assert(pow16(1) == 16);
    } else {
        lemma_grid_key_bound(v, i + 1);
        lemma_square_code_range(v.grid[i as int]);
    }
}

/// Equal partial keys mean equal cells from `i` on and an equal turn.
proof fn lemma_grid_key_from_injective(v1: BoardView, v2: BoardView, i: nat)
    requires
        v1.wf(),
        v2.wf(),
        values_settled(v1.grid),
        values_settled(v2.grid),
        i <= BOARD_CELLS as nat,
        grid_key_from(v1, i) == grid_key_from(v2, i),
    ensures
        v1.turn == v2.turn,
        forall|j: int| i <= j < BOARD_CELLS as int ==> v1.grid[j] == v2.grid[j],
    decreases BOARD_CELLS as int - i,
{
    if i < BOARD_CELLS as nat {
        let a1 = square_code(v1.grid[i as int]);
        let a2 = square_code(v2.grid[i as int]);
        lemma_square_code_range(v1.grid[i as int]);
        lemma_square_code_range(v2.grid[i as int]);
        assert(a1 == a2 && grid_key_from(v1, i + 1) == grid_key_from(v2, i + 1)) by {
            assert(a1 - a2 == 16 * (grid_key_from(v2, i + 1) - grid_key_from(v1, i + 1)));
        }
        assert(v1.grid[i as int] == v2.grid[i as int]) by {
            assert(v1.grid[i as int].spec_value() <= 3);
            assert(v2.grid[i as int].spec_value() <= 3);
        }
        lemma_grid_key_from_injective(v1, v2, i + 1);
    }
}

/// The board key identifies a settled board exactly: two settled boards
/// with the same key are the same board, so a cache keyed by
/// `spec_board_key` is keyed by the exact board.
pub proof fn lemma_board_key_injective(v1: BoardView, v2: BoardView)
    requires
        v1.wf(),
        v2.wf(),
        values_settled(v1.grid),
        values_settled(v2.grid),
        spec_board_key(v1) == spec_board_key(v2),
    ensures
        v1 == v2,
{
    lemma_grid_key_bound(v1, 0);
    lemma_grid_key_bound(v2, 0);
    lemma_pow16_26_bound();
    assert(grid_key_from(v1, 0) == grid_key_from(v2, 0));
    lemma_grid_key_from_injective(v1, v2, 0);
    assert(v1.grid =~= v2.grid);
}

/// The structural part of the mid-resolution invariant: the grid keeps
/// its size and every pending entry is on the board.
spec fn chain_wf(s: ChainState) -> bool {
    &&& s.grid.len() == BOARD_CELLS as int
    &&& forall|k: int|
        0 <= k < s.pending.len() ==> coord_in_bounds(
            (#[trigger] s.pending[k]).0,
            s.pending[k].1,
        )
}

/// Touching one neighbour preserves the structural invariant.
proof fn lemma_chain_touch_preserves_wf(s: ChainState, mover: Player, r: int, c: int)
    requires
        chain_wf(s),
    ensures
        chain_wf(chain_touch_spec(s, mover, r, c)),
{
}

/// One resolution step preserves the structural invariant.
proof fn lemma_pop_step_preserves_wf(s: ChainState, mover: Player)
    requires
        chain_wf(s),
        s.pending.len() > 0,
    ensures
        chain_wf(pop_step(s, mover)),
{
    let p = s.pending.last();
    let s0 = ChainState {
        grid: s.grid.update(cell_index(p.0, p.1), Square::Empty),
        pending: s.pending.drop_last(),
    };
    assert(chain_wf(s0));
    lemma_chain_touch_preserves_wf(s0, mover, p.0 - 1, p.1);
    lemma_chain_touch_preserves_wf(
        chain_touch_spec(s0, mover, p.0 - 1, p.1),
        mover,
        p.0 + 1,
        p.1,
    );
    let s2 = chain_touch_spec(chain_touch_spec(s0, mover, p.0 - 1, p.1), mover, p.0 + 1, p.1);
    lemma_chain_touch_preserves_wf(s2, mover, p.0, p.1 - 1);
    lemma_chain_touch_preserves_wf(chain_touch_spec(s2, mover, p.0, p.1 - 1), mover, p.0, p.1 + 1);
}

/// Running the chain preserves the structural invariant.
proof fn lemma_run_chain_preserves_wf(s: ChainState, mover: Player, fuel: nat)
    requires
        chain_wf(s),
    ensures
        chain_wf(run_chain(s, mover, fuel)),
    decreases fuel,
{
    if s.pending.len() != 0 && fuel != 0 {
        lemma_pop_step_preserves_wf(s, mover);
        lemma_run_chain_preserves_wf(pop_step(s, mover), mover, (fuel - 1) as nat);
    }
}

/// Applying a move to a well-formed board yields a well-formed board,
/// at the specification level.
pub proof fn lemma_spec_make_move_wf(v: BoardView, p: (int, int))
    requires
        v.wf(),
        coord_in_bounds(p.0, p.1),
    ensures
        spec_make_move(v, p).wf(),
{
    let start = move_start(v, p);
    assert(chain_wf(start));
    lemma_run_chain_preserves_wf(start, v.turn, CHAIN_STEP_LIMIT as nat);
}

/// A move that leaves the placement square below the popping threshold
/// triggers no pop at all: the chain drains immediately, and the move
/// only increments that square.  One of the cases that discharges the
/// drain hypothesis of `lemma_make_move_settles`.
pub proof fn lemma_quiet_move_drains(v: BoardView, p: (int, int))
    requires
        v.wf(),
        coord_in_bounds(p.0, p.1),
        bumped(v.grid[cell_index(p.0, p.1)]).spec_value() < 4,
    ensures
        run_chain(move_start(v, p), v.turn, CHAIN_STEP_LIMIT as nat).pending.len() == 0,
        spec_make_move(v, p).grid == v.grid.update(
            cell_index(p.0, p.1),
            bumped(v.grid[cell_index(p.0, p.1)]),
        ),
{
    let start = move_start(v, p);
    assert(start.pending.len() == 0);
    assert(run_chain(start, v.turn, CHAIN_STEP_LIMIT as nat) == start);
}

/// A pop whose in-bounds neighbours all sit at value 2 or below drains
/// in a single step: each neighbour is captured below the threshold, so
/// no further pop is queued.  The other easily dischargeable case of
/// the drain hypothesis of `lemma_make_move_settles`.
pub proof fn lemma_single_pop_drains(v: BoardView, p: (int, int))
    requires
        v.wf(),
        coord_in_bounds(p.0, p.1),
        bumped(v.grid[cell_index(p.0, p.1)]).spec_value() >= 4,
        coord_in_bounds(p.0 - 1, p.1) ==> v.grid[cell_index(p.0 - 1, p.1)].spec_value() <= 2,
        coord_in_bounds(p.0 + 1, p.1) ==> v.grid[cell_index(p.0 + 1, p.1)].spec_value() <= 2,
        coord_in_bounds(p.0, p.1 - 1) ==> v.grid[cell_index(p.0, p.1 - 1)].spec_value() <= 2,
        coord_in_bounds(p.0, p.1 + 1) ==> v.grid[cell_index(p.0, p.1 + 1)].spec_value() <= 2,
    ensures
        run_chain(move_start(v, p), v.turn, CHAIN_STEP_LIMIT as nat).pending.len() == 0,
{
    let start = move_start(v, p);
    assert(start.pending =~= seq![p]);
    let stepped = pop_step(start, v.turn);
    assert(stepped.pending.len() == 0) by {
        assert(start.pending.last() == p);
        assert forall|r: int, c: int|
            coord_in_bounds(r, c) && (r, c) != p implies start.grid[cell_index(r, c)] == v.grid[cell_index(
            r,
            c,
        )] by {
            lemma_cell_index_bijection(r, c, p.0, p.1);
        }
        if coord_in_bounds(p.0 - 1, p.1) {
            assert((p.0 - 1, p.1) != p);
        }
        if coord_in_bounds(p.0 + 1, p.1) {
            assert((p.0 + 1, p.1) != p);
        }
        if coord_in_bounds(p.0, p.1 - 1) {
            assert((p.0, p.1 - 1) != p);
        }
        if coord_in_bounds(p.0, p.1 + 1) {
            assert((p.0, p.1 + 1) != p);
        }
    }
    assert(run_chain(start, v.turn, CHAIN_STEP_LIMIT as nat) == run_chain(
        stepped,
        v.turn,
        (CHAIN_STEP_LIMIT - 1) as nat,
    ));
    assert(run_chain(stepped, v.turn, (CHAIN_STEP_LIMIT - 1) as nat) == stepped);
}

/// The entire game board and its current state.
///
/// This struct holds the grid of squares and tracks whose turn it is.
/// It is the central point for all game logic, such as validating and
/// applying moves.  It is a value type: applying a move returns a new
/// board and leaves the receiver unchanged, and two boards are equal
/// exactly when every cell and the turn match, which makes a board
/// usable as a cache key.
#[derive(Debug, Clone, PartialEq, Eq, Hash)]
pub struct Board {
    grid: Vec<Square>,
    turn: Player,
}

impl View for Board {
    type V = BoardView;

    closed spec fn view(&self) -> BoardView {
        BoardView { grid: self.grid@, turn: self.turn }
    }
}

impl Board {
    /// Creates a new, empty board for a given player's turn.
    pub fn new(current_turn: Player) -> (r: Self)
        ensures
            r@.wf(),
            r@.turn == current_turn,
            forall|i: int| 0 <= i < BOARD_CELLS as int ==> r@.grid[i] == Square::Empty,
    {
        let mut grid: Vec<Square> = Vec::new();
        let mut i: usize = 0;
        while i < BOARD_CELLS
            invariant
                i <= BOARD_CELLS,
                grid@.len() == i as int,
                forall|k: int| 0 <= k < i as int ==> grid@[k] == Square::Empty,
            decreases BOARD_CELLS - i,
        {
            grid.push(Square::Empty);
            i = i + 1;
        }
        Board { grid, turn: current_turn }
    }

    /// Returns a copy of the current grid state, as rows of squares.
    pub fn grid(&self) -> (r: Vec<Vec<Square>>)
        requires
            self@.wf(),
        ensures
            r@.len() == BOARD_ROW_SIZE as int,
            forall|rr: int| 0 <= rr < BOARD_ROW_SIZE as int ==> r@[rr]@.len() == BOARD_COLUMN_SIZE as int,
            forall|rr: int, cc: int|
                coord_in_bounds(rr, cc) ==> r@[rr]@[cc] == self@.square_at(rr, cc),
    {
        let mut rows: Vec<Vec<Square>> = Vec::new();
        let mut rr: usize = 0;
        while rr < BOARD_ROW_SIZE
            invariant
                self@.wf(),
                rr <= BOARD_ROW_SIZE,
                rows@.len() == rr as int,
                forall|a: int| 0 <= a < rr as int ==> rows@[a]@.len() == BOARD_COLUMN_SIZE as int,
                forall|a: int, b: int|
                    0 <= a < rr as int && 0 <= b < BOARD_COLUMN_SIZE as int ==> rows@[a]@[b]
                        == self@.square_at(a, b),
            decreases BOARD_ROW_SIZE - rr,
        {
            let mut row: Vec<Square> = Vec::new();
            let mut cc: usize = 0;
            while cc < BOARD_COLUMN_SIZE
                invariant
                    self@.wf(),
                    rr < BOARD_ROW_SIZE,
                    cc <= BOARD_COLUMN_SIZE,
                    row@.len() == cc as int,
                    forall|b: int| 0 <= b < cc as int ==> row@[b] == self@.square_at(rr as int, b),
                decreases BOARD_COLUMN_SIZE - cc,
            {
                let i = rr * BOARD_COLUMN_SIZE + cc;
                row.push(self.grid[i]);
                cc = cc + 1;
            }
            rows.push(row);
            rr = rr + 1;
        }
        rows
    }

    /// Returns the player whose turn it is.
    pub fn turn(&self) -> (r: Player)
        ensures
            r == self@.turn,
    {
        self.turn
    }

    /// Writes a square at the given coordinates, leaving the rest of the
    /// board unchanged.
    pub fn set_square(&mut self, at: Coordinates, square: Square)
        requires
            old(self)@.wf(),
        ensures
            final(self)@.wf(),
            final(self)@.grid == old(self)@.grid.update(cell_index(at@.0, at@.1), square),
            final(self)@.turn == old(self)@.turn,
    {
        proof {
            use_type_invariant(&at);
        }
        let i = at.row() * BOARD_COLUMN_SIZE + at.column();
        self.grid[i] = square;
    }

    /// Hands the turn to the given player, leaving the grid unchanged.
    pub fn set_turn(&mut self, turn: Player)
        ensures
            final(self)@.grid == old(self)@.grid,
            final(self)@.turn == turn,
    {
        self.turn = turn;
    }

    /// An alternate constructor to set up the initial game state with
    /// two starting pieces on distinct cells, each a stack of value 3.
    ///
    /// Player Red always gets the first turn after setup.
    pub fn setup(red_placement: Coordinates, blue_placement: Coordinates) -> (r: Self)
        requires
            red_placement@ != blue_placement@,
        ensures
            r@.wf(),
            r@.turn == Player::Red,
            r@.square_at(red_placement@.0, red_placement@.1) == (Square::Occupied {
                owner: Player::Red,
                value: 3,
            }),
            r@.square_at(blue_placement@.0, blue_placement@.1) == (Square::Occupied {
                owner: Player::Blue,
                value: 3,
            }),
            forall|i: int|
                0 <= i < BOARD_CELLS as int && i != cell_index(
                    red_placement@.0,
                    red_placement@.1,
                ) && i != cell_index(blue_placement@.0, blue_placement@.1) ==> r@.grid[i]
                    == Square::Empty,
    {
        proof {
            use_type_invariant(&red_placement);
            use_type_invariant(&blue_placement);
            lemma_cell_index_bijection(
                red_placement@.0,
                red_placement@.1,
                blue_placement@.0,
                blue_placement@.1,
            );
        }
        let mut board = Board::new(Player::Red);
        board.set_square(red_placement, Square::new(Player::Red, 3));
        board.set_square(blue_placement, Square::new(Player::Blue, 3));
        board
    }

    /// Computes the integer cache key packing the whole grid and the
    /// turn, evaluating `spec_board_key` digit by digit from the top.
    pub(crate) fn board_key(&self) -> (k: u128)
        requires
            self@.wf(),
        ensures
            k == spec_board_key(self@),
    {
        let mut key: u128 = match self.turn {
            Player::Red => 0,
            Player::Blue => 1,
        };
        let mut i: usize = BOARD_CELLS;
        while i > 0
            invariant
                self@.wf(),
                i <= BOARD_CELLS,
                key as int == grid_key_from(self@, i as nat),
            decreases i,
        {
            i = i - 1;
            let code: u128 = match self.grid[i] {
                Square::Empty => 0,
                Square::Occupied { owner, value } => {
                    let owner_bit: u128 = match owner {
                        Player::Red => 0,
                        Player::Blue => 1,
                    };
                    let capped: u128 = if value <= 3 {
                        value as u128
                    } else {
                        3
                    };
                    1 + owner_bit + 2 * capped
                },
            };
            proof {
                lemma_grid_key_bound(self@, (i + 1) as nat);
                lemma_pow16_increases((BOARD_CELLS as nat - i) as nat, 26);
                lemma_pow16_26_bound();
                lemma_square_code_range(self@.grid[i as int]);
                assert(code as int == square_code(self@.grid[i as int]));
            }
            key = key * 16 + code;
        }
        proof {
            lemma_grid_key_bound(self@, 0);
            lemma_pow16_26_bound();
        }
        key
    }

    /// Counts the squares owned by the given player.
    pub(crate) fn count_owned_by(&self, p: Player) -> (r: usize)
        requires
            self@.wf(),
        ensures
            r as int == count_owned(self@.grid, p),
            r <= BOARD_CELLS,
    {
        let mut count: usize = 0;
        let mut i: usize = 0;
        while i < BOARD_CELLS
            invariant
                self@.wf(),
                i <= BOARD_CELLS,
                count as int == count_owned(self@.grid.take(i as int), p),
                count <= i,
            decreases BOARD_CELLS - i,
        {
            proof {
                let t = self@.grid.take(i as int + 1);
                assert(t.drop_last() =~= self@.grid.take(i as int));
                assert(t.last() == self@.grid[i as int]);
            }
            let owned = match self.grid[i].owner() {
                Some(q) => q == p,
                None => false,
            };
            if owned {
                count = count + 1;
            }
            i = i + 1;
        }
        proof {
            assert(self@.grid.take(BOARD_CELLS as int) =~= self@.grid);
        }
        count
    }

    /// Checks if the game has ended.
    ///
    /// The game is over iff exactly one player has no squares left on
    /// the board while the other still holds at least one.  A board
    /// where neither player holds a square (the pristine pre-setup
    /// state) is not game over.
    pub fn is_game_over(&self) -> (r: bool)
        requires
            self@.wf(),
        ensures
            r == spec_game_over(self@),
    {
        let red_squares = self.count_owned_by(Player::Red);
        let blue_squares = self.count_owned_by(Player::Blue);
        (red_squares > 0 || blue_squares > 0) && (red_squares == 0 || blue_squares == 0)
    }

    /// Returns a list of all squares the current player can choose for a
    /// move, in row-major order.  A move is represented by the
    /// `Coordinates` of a square that the player occupies.
    pub fn get_valid_moves(&self) -> (moves: Vec<Coordinates>)
        requires
            self@.wf(),
        ensures
            moves@.len() == spec_valid_moves(self@).len(),
            forall|k: int|
                0 <= k < moves@.len() ==> #[trigger] moves@[k]@ == spec_valid_moves(self@)[k],
            forall|k: int| 0 <= k < moves@.len() ==> self@.is_valid_move(#[trigger] moves@[k]@),
            forall|k1: int, k2: int|
                0 <= k1 < k2 < moves@.len() ==> cell_index(moves@[k1]@.0, moves@[k1]@.1)
                    < cell_index(moves@[k2]@.0, moves@[k2]@.1),
            forall|rr: int, cc: int|
                self@.is_valid_move((rr, cc)) ==> exists|k: int|
                    0 <= k < moves@.len() && #[trigger] moves@[k]@ == (rr, cc),
    {
        let mut moves: Vec<Coordinates> = Vec::new();
        let mut row: usize = 0;
        while row < BOARD_ROW_SIZE
            invariant
                self@.wf(),
                row <= BOARD_ROW_SIZE,
                moves@.len() == spec_valid_moves_upto(self@, (row * BOARD_COLUMN_SIZE) as nat).len(),
                forall|k: int|
                    0 <= k < moves@.len() ==> #[trigger] moves@[k]@ == spec_valid_moves_upto(
                        self@,
                        (row * BOARD_COLUMN_SIZE) as nat,
                    )[k],
                forall|k: int| 0 <= k < moves@.len() ==> self@.is_valid_move(#[trigger] moves@[k]@),
                forall|k: int|
                    0 <= k < moves@.len() ==> cell_index(#[trigger] moves@[k]@.0, moves@[k]@.1)
                        < cell_index(row as int, 0),
                forall|k1: int, k2: int|
                    0 <= k1 < k2 < moves@.len() ==> cell_index(moves@[k1]@.0, moves@[k1]@.1)
                        < cell_index(moves@[k2]@.0, moves@[k2]@.1),
                forall|rr: int, cc: int|
                    0 <= rr < row as int && 0 <= cc < BOARD_COLUMN_SIZE as int
                        && self@.is_valid_move((rr, cc)) ==> exists|k: int|
                        0 <= k < moves@.len() && #[trigger] moves@[k]@ == (rr, cc),
            decreases BOARD_ROW_SIZE - row,
        {
            let mut column: usize = 0;
            while column < BOARD_COLUMN_SIZE
                invariant
                    self@.wf(),
                    row < BOARD_ROW_SIZE,
                    column <= BOARD_COLUMN_SIZE,
                    moves@.len() == spec_valid_moves_upto(
                        self@,
                        (row * BOARD_COLUMN_SIZE + column) as nat,
                    ).len(),
                    forall|k: int|
                        0 <= k < moves@.len() ==> #[trigger] moves@[k]@ == spec_valid_moves_upto(
                            self@,
                            (row * BOARD_COLUMN_SIZE + column) as nat,
                        )[k],
                    forall|k: int|
                        0 <= k < moves@.len() ==> self@.is_valid_move(#[trigger] moves@[k]@),
                    forall|k: int|
                        0 <= k < moves@.len() ==> cell_index(#[trigger] moves@[k]@.0, moves@[k]@.1)
                            < cell_index(row as int, column as int),
                    forall|k1: int, k2: int|
                        0 <= k1 < k2 < moves@.len() ==> cell_index(moves@[k1]@.0, moves@[k1]@.1)
                            < cell_index(moves@[k2]@.0, moves@[k2]@.1),
                    forall|rr: int, cc: int|
                        0 <= rr < BOARD_ROW_SIZE as int && 0 <= cc < BOARD_COLUMN_SIZE as int && (rr
                            < row as int || (rr == row as int && cc < column as int))
                            && self@.is_valid_move((rr, cc)) ==> exists|k: int|
                            0 <= k < moves@.len() && #[trigger] moves@[k]@ == (rr, cc),
                decreases BOARD_COLUMN_SIZE - column,
            {
                let i = row * BOARD_COLUMN_SIZE + column;
                let ghost prior = moves@;
                let owned = match self.grid[i].owner() {
                    Some(q) => q == self.turn,
                    None => false,
                };
                if owned {
                    moves.push(Coordinates::new(row, column));
                }
                proof {
                    assert(self@.square_at(row as int, column as int) == self@.grid[i as int]);
                    assert(forall|k: int| 0 <= k < prior.len() ==> moves@[k] == prior[k]);
                    let n = (row * BOARD_COLUMN_SIZE + column) as nat;
                    assert(i as int / (BOARD_COLUMN_SIZE as int) == row as int && i as int % (
                    BOARD_COLUMN_SIZE as int) == column as int) by (nonlinear_arith)
                        requires
                            i as int == row as int * (BOARD_COLUMN_SIZE as int) + column as int,
                            0 <= (column as int),
                            (column as int) < (BOARD_COLUMN_SIZE as int),
                            0 <= (row as int),
                    ;
                    if owned {
                        assert(moves@[moves@.len() - 1]@ == (row as int, column as int));
                        assert(spec_valid_moves_upto(self@, n + 1) =~= spec_valid_moves_upto(
                            self@,
                            n,
                        ).push((row as int, column as int)));
                    } else {
                        assert(!self@.is_valid_move((row as int, column as int)));
                        assert(spec_valid_moves_upto(self@, n + 1) =~= spec_valid_moves_upto(
                            self@,
                            n,
                        ));
                    }
                }
                column = column + 1;
            }
            row = row + 1;
        }
        moves
    }
}

/// One neighbour of a popping square receives the pop, exactly as
/// `chain_touch_spec` describes for an in-bounds cell: the square at
/// `(r, c)` is captured and incremented, and its coordinates join the
/// pending pops if its new value reaches 4.
fn chain_touch(grid: &mut Vec<Square>, pending: &mut Vec<Coordinates>, r: usize, c: usize, mover: Player)
    requires
        old(grid)@.len() == BOARD_CELLS as int,
        r < BOARD_ROW_SIZE,
        c < BOARD_COLUMN_SIZE,
    ensures
        ({
            let i = cell_index(r as int, c as int);
            let sq = captured(old(grid)@[i], mover);
            &&& final(grid)@ == old(grid)@.update(i, sq)
            &&& (if sq.spec_value() >= 4 {
                final(pending)@.len() == old(pending)@.len() + 1
                    && final(pending)@[old(pending)@.len() as int]@ == (r as int, c as int)
                    && (forall|k: int|
                    0 <= k < old(pending)@.len() ==> final(pending)@[k] == old(pending)@[k])
            } else {
                final(pending)@ == old(pending)@
            })
        }),
{
    let i = r * BOARD_COLUMN_SIZE + c;
    let sq = grid[i];
    let newsq = match sq {
        Square::Empty => Square::Occupied { owner: mover, value: 1 },
        Square::Occupied { owner: _, value } => Square::Occupied {
            owner: mover,
            value: if value == 255 {
                255
            } else {
                value + 1
            },
        },
    };
    grid[i] = newsq;
    if newsq.value() >= 4 {
        pending.push(Coordinates::new(r, c));
    }
}

impl Board {
    /// Applies a move to the board, handling pops and chain reactions.
    ///
    /// This method takes the coordinates of a square the current player
    /// occupies and increments its value.  If the value reaches 4 the
    /// square pops, and the resulting chain reaction is resolved
    /// last-in-first-out until no pop is pending.  It returns a new
    /// `Board` representing the state after the move is completed and
    /// the turn has been passed to the opponent; the receiver is left
    /// unchanged.
    #[verifier::rlimit(60)]
    pub fn make_move(&self, placement: Coordinates) -> (r: Board)
        requires
            self@.wf(),
            self@.is_valid_move(placement@),
        ensures
            r@.wf(),
            r@ == spec_make_move(self@, placement@),
    {
        proof {
            use_type_invariant(&placement);
        }
        let mover = self.turn;
        let mut grid: Vec<Square> = Vec::new();
        let mut ci: usize = 0;
        while ci < BOARD_CELLS
            invariant
                self@.wf(),
                ci <= BOARD_CELLS,
                grid@.len() == ci as int,
                forall|k: int| 0 <= k < ci as int ==> grid@[k] == self@.grid[k],
            decreases BOARD_CELLS - ci,
        {
            grid.push(self.grid[ci]);
            ci = ci + 1;
        }
        proof {
            assert(grid@ =~= self@.grid);
        }
        let pr = placement.row();
        let pc = placement.column();
        let pi = pr * BOARD_COLUMN_SIZE + pc;
        let sq = grid[pi];
        let newsq = match sq {
            Square::Empty => Square::Empty,
            Square::Occupied { owner, value } => Square::Occupied {
                owner,
                value: if value == 255 {
                    255
                } else {
                    value + 1
                },
            },
        };
        grid[pi] = newsq;
        let mut pending: Vec<Coordinates> = Vec::new();
        if newsq.value() >= 4 {
            pending.push(placement);
        }
        let ghost start = move_start(self@, placement@);
        let ghost mut gpend: Seq<(int, int)> = start.pending;
        proof {
            assert(newsq == bumped(self@.grid[cell_index(placement@.0, placement@.1)]));
            assert(grid@ == start.grid);
            assert(gpend.len() == pending@.len());
            assert(forall|k: int| 0 <= k < gpend.len() ==> gpend[k] == pending@[k]@);
        }
        let mut steps: usize = 0;
        while pending.len() != 0 && steps < CHAIN_STEP_LIMIT
            invariant
                grid@.len() == BOARD_CELLS as int,
                steps <= CHAIN_STEP_LIMIT,
                gpend.len() == pending@.len(),
                forall|k: int| 0 <= k < gpend.len() ==> gpend[k] == pending@[k]@,
                run_chain(
                    ChainState { grid: grid@, pending: gpend },
                    mover,
                    (CHAIN_STEP_LIMIT - steps) as nat,
                ) == run_chain(start, mover, CHAIN_STEP_LIMIT as nat),
            decreases CHAIN_STEP_LIMIT - steps,
        {
            let ghost pre = ChainState { grid: grid@, pending: gpend };
            let ghost fuel_pre = (CHAIN_STEP_LIMIT - steps) as nat;
            let popped = pending.pop().unwrap();
            proof {
                use_type_invariant(&popped);
                assert(popped@ == gpend.last());
                gpend = gpend.drop_last();
                assert(gpend =~= pre.pending.drop_last());
            }
            let lr = popped.row();
            let lc = popped.column();
            let li = lr * BOARD_COLUMN_SIZE + lc;
            grid[li] = Square::Empty;
            let ghost g1 = ChainState { grid: grid@, pending: gpend };
            if lr > 0 {
                let ghost gsnap = ChainState { grid: grid@, pending: gpend };
                chain_touch(&mut grid, &mut pending, lr - 1, lc, mover);
                proof {
                    let sqn = captured(gsnap.grid[cell_index(lr as int - 1, lc as int)], mover);
                    if sqn.spec_value() >= 4 {
                        gpend = gpend.push((lr as int - 1, lc as int));
                    }
                }
            }
            let ghost g2 = ChainState { grid: grid@, pending: gpend };
            proof {
                assert(g2 == chain_touch_spec(g1, mover, lr as int - 1, lc as int));
            }
            if lr + 1 < BOARD_ROW_SIZE {
                let ghost gsnap = ChainState { grid: grid@, pending: gpend };
                chain_touch(&mut grid, &mut pending, lr + 1, lc, mover);
                proof {
                    let sqn = captured(gsnap.grid[cell_index(lr as int + 1, lc as int)], mover);
                    if sqn.spec_value() >= 4 {
                        gpend = gpend.push((lr as int + 1, lc as int));
                    }
                }
            }
            let ghost g3 = ChainState { grid: grid@, pending: gpend };
            proof {
                assert(g3 == chain_touch_spec(g2, mover, lr as int + 1, lc as int));
            }
            if lc > 0 {
                let ghost gsnap = ChainState { grid: grid@, pending: gpend };
                chain_touch(&mut grid, &mut pending, lr, lc - 1, mover);
                proof {
                    let sqn = captured(gsnap.grid[cell_index(lr as int, lc as int - 1)], mover);
                    if sqn.spec_value() >= 4 {
                        gpend = gpend.push((lr as int, lc as int - 1));
                    }
                }
            }
            let ghost g4 = ChainState { grid: grid@, pending: gpend };
            proof {
                assert(g4 == chain_touch_spec(g3, mover, lr as int, lc as int - 1));
            }
            if lc + 1 < BOARD_COLUMN_SIZE {
                let ghost gsnap = ChainState { grid: grid@, pending: gpend };
                chain_touch(&mut grid, &mut pending, lr, lc + 1, mover);
                proof {
                    let sqn = captured(gsnap.grid[cell_index(lr as int, lc as int + 1)], mover);
                    if sqn.spec_value() >= 4 {
                        gpend = gpend.push((lr as int, lc as int + 1));
                    }
                }
            }
            let ghost g5 = ChainState { grid: grid@, pending: gpend };
            proof {
                assert(g5 == chain_touch_spec(g4, mover, lr as int, lc as int + 1));
                assert(g5 == pop_step(pre, mover));
                assert(run_chain(pre, mover, fuel_pre) == run_chain(
                    pop_step(pre, mover),
                    mover,
                    (fuel_pre - 1) as nat,
                ));
                assert(gpend.len() == pending@.len());
                assert(forall|k: int| 0 <= k < gpend.len() ==> gpend[k] == pending@[k]@);
            }
            steps = steps + 1;
        }
        proof {
            let cur = ChainState { grid: grid@, pending: gpend };
            assert(run_chain(cur, mover, (CHAIN_STEP_LIMIT - steps) as nat) == cur);
            assert(grid@ == run_chain(start, mover, CHAIN_STEP_LIMIT as nat).grid);
        }
        let new_turn = mover.opponent();
        let result = Board { grid, turn: new_turn };
        proof {
            assert(result@ == spec_make_move(self@, placement@));
        }
        result
    }

    /// Applies a move as `make_move` does, after checking its legality:
    /// a placement the current player does not occupy is rejected with
    /// `GameError::IllegalMove`.
    pub fn try_make_move(&self, placement: Coordinates) -> (r: Result<Board, GameError>)
        requires
            self@.wf(),
        ensures
            self@.is_valid_move(placement@) ==> (r matches Ok(b) && b@.wf() && b@
                == spec_make_move(self@, placement@)),
            !self@.is_valid_move(placement@) ==> r === Err(GameError::IllegalMove),
    {
        proof {
            use_type_invariant(&placement);
        }
        let i = placement.row() * BOARD_COLUMN_SIZE + placement.column();
        let valid = match self.grid[i].owner() {
            Some(q) => q == self.turn,
            None => false,
        };
        if valid {
            Ok(self.make_move(placement))
        } else {
            Err(GameError::IllegalMove)
        }
    }
}

/// Every square's value is below the popping threshold: what holds of
/// any board observed between completed moves.
pub open spec fn values_settled(g: Seq<Square>) -> bool {
    forall|i: int| 0 <= i < g.len() ==> (#[trigger] g[i]).spec_value() <= 3
}

/// The mid-resolution invariant: the grid keeps its size, every pending
/// entry is on the board, and every cell at or past the popping
/// threshold is listed among the pending pops.
spec fn chain_inv(s: ChainState) -> bool {
    &&& s.grid.len() == BOARD_CELLS as int
    &&& forall|k: int|
        0 <= k < s.pending.len() ==> coord_in_bounds(
            (#[trigger] s.pending[k]).0,
            s.pending[k].1,
        )
    &&& forall|r: int, c: int|
        coord_in_bounds(r, c) && s.grid[cell_index(r, c)].spec_value() >= 4 ==> exists|k: int|
            0 <= k < s.pending.len() && #[trigger] s.pending[k] == (r, c)
}

/// Touching one neighbour preserves the mid-resolution invariant.
proof fn lemma_chain_touch_preserves_inv(s: ChainState, mover: Player, r: int, c: int)
    requires
        chain_inv(s),
    ensures
        chain_inv(chain_touch_spec(s, mover, r, c)),
{
    if coord_in_bounds(r, c) {
        let t = chain_touch_spec(s, mover, r, c);
        let i = cell_index(r, c);
        let sq = captured(s.grid[i], mover);
        assert forall|rr: int, cc: int|
            coord_in_bounds(rr, cc) && t.grid[cell_index(rr, cc)].spec_value() >= 4 implies exists|
                k: int,
            |
                0 <= k < t.pending.len() && #[trigger] t.pending[k] == (rr, cc) by {
            if cell_index(rr, cc) == i {
                lemma_cell_index_bijection(rr, cc, r, c);
                assert(sq.spec_value() >= 4);
                assert(t.pending[t.pending.len() - 1] == (r, c));
            } else {
                assert(s.grid[cell_index(rr, cc)].spec_value() >= 4);
                let k = choose|k: int|
                    0 <= k < s.pending.len() && #[trigger] s.pending[k] == (rr, cc);
                assert(t.pending[k] == (rr, cc));
            }
        }
    }
}

/// One resolution step preserves the mid-resolution invariant.
proof fn lemma_pop_step_preserves_inv(s: ChainState, mover: Player)
    requires
        chain_inv(s),
        s.pending.len() > 0,
    ensures
        chain_inv(pop_step(s, mover)),
{
    let p = s.pending.last();
    let s0 = ChainState {
        grid: s.grid.update(cell_index(p.0, p.1), Square::Empty),
        pending: s.pending.drop_last(),
    };
    assert(coord_in_bounds(p.0, p.1));
    assert forall|rr: int, cc: int|
        coord_in_bounds(rr, cc) && s0.grid[cell_index(rr, cc)].spec_value() >= 4 implies exists|
        k: int,
    |
        0 <= k < s0.pending.len() && #[trigger] s0.pending[k] == (rr, cc) by {
        lemma_cell_index_bijection(rr, cc, p.0, p.1);
        assert((rr, cc) != p);
        assert(s.grid[cell_index(rr, cc)].spec_value() >= 4);
        let k = choose|k: int| 0 <= k < s.pending.len() && #[trigger] s.pending[k] == (rr, cc);
        assert(k != s.pending.len() - 1);
        assert(s0.pending[k] == (rr, cc));
    }
    assert(chain_inv(s0));
    let s1 = chain_touch_spec(s0, mover, p.0 - 1, p.1);
    lemma_chain_touch_preserves_inv(s0, mover, p.0 - 1, p.1);
    let s2 = chain_touch_spec(s1, mover, p.0 + 1, p.1);
    lemma_chain_touch_preserves_inv(s1, mover, p.0 + 1, p.1);
    let s3 = chain_touch_spec(s2, mover, p.0, p.1 - 1);
    lemma_chain_touch_preserves_inv(s2, mover, p.0, p.1 - 1);
    lemma_chain_touch_preserves_inv(s3, mover, p.0, p.1 + 1);
}

/// Running the chain preserves the mid-resolution invariant.
proof fn lemma_run_chain_preserves_inv(s: ChainState, mover: Player, fuel: nat)
    requires
        chain_inv(s),
    ensures
        chain_inv(run_chain(s, mover, fuel)),
    decreases fuel,
{
    if s.pending.len() != 0 && fuel != 0 {
        lemma_pop_step_preserves_inv(s, mover);
        lemma_run_chain_preserves_inv(pop_step(s, mover), mover, (fuel - 1) as nat);
    }
}

/// The square invariant between moves: applying a move to a settled
/// board — every value at most 3 — gives a settled board again,
/// provided the move's chain reaction fully resolves, which every
/// reachable chain does.  A value of 4 or more is only ever a transient
/// signal inside one move application.
pub proof fn lemma_make_move_settles(v: BoardView, p: (int, int))
    requires
        v.wf(),
        values_settled(v.grid),
        coord_in_bounds(p.0, p.1),
        run_chain(move_start(v, p), v.turn, CHAIN_STEP_LIMIT as nat).pending.len() == 0,
    ensures
        values_settled(spec_make_move(v, p).grid),
{
    let start = move_start(v, p);
    let i = cell_index(p.0, p.1);
    let sq = bumped(v.grid[i]);
    assert(chain_inv(start)) by {
        assert forall|rr: int, cc: int|
            coord_in_bounds(rr, cc) && start.grid[cell_index(rr, cc)].spec_value() >= 4 implies
            exists|k: int|
                0 <= k < start.pending.len() && #[trigger] start.pending[k] == (rr, cc) by {
            lemma_cell_index_bijection(rr, cc, p.0, p.1);
            assert(v.grid[i].spec_value() <= 3);
            assert((rr, cc) == p);
            assert(start.pending[0] == (rr, cc));
        }
    }
    lemma_run_chain_preserves_inv(start, v.turn, CHAIN_STEP_LIMIT as nat);
    let done = run_chain(start, v.turn, CHAIN_STEP_LIMIT as nat);
    assert forall|j: int| 0 <= j < done.grid.len() implies (#[trigger] done.grid[j]).spec_value()
        <= 3 by {
        let rr = j / (BOARD_COLUMN_SIZE as int);
        let cc = j % (BOARD_COLUMN_SIZE as int);
        assert(cell_index(rr, cc) == j);
        assert(coord_in_bounds(rr, cc));
        assert(done.grid[j].spec_value() < 4);
    }
}

/// On-board coordinates and flat indices determine each other.
proof fn lemma_cell_index_bijection(r1: int, c1: int, r2: int, c2: int)
    requires
        coord_in_bounds(r1, c1),
        coord_in_bounds(r2, c2),
    ensures
        (cell_index(r1, c1) == cell_index(r2, c2)) <==> (r1 == r2 && c1 == c2),
{
}

/// No cell owned by `p` means a zero count for `p`; in particular a
/// fresh, fully empty board is not game over.
pub proof fn lemma_count_owned_zero(g: Seq<Square>, p: Player)
    requires
        forall|i: int| 0 <= i < g.len() ==> (#[trigger] g[i]).spec_owner() != Some(p),
    ensures
        count_owned(g, p) == 0,
    decreases g.len(),
{
    if g.len() > 0 {
        lemma_count_owned_zero(g.drop_last(), p);
    }
}

/// Exactly one cell owned by `p` means a count of one for `p`.
proof fn lemma_count_owned_single(g: Seq<Square>, p: Player, a: int)
    requires
        0 <= a < g.len(),
        g[a].spec_owner() == Some(p),
        forall|i: int| 0 <= i < g.len() && i != a ==> (#[trigger] g[i]).spec_owner() != Some(p),
    ensures
        count_owned(g, p) == 1,
    decreases g.len(),
{
    if a == g.len() - 1 {
        lemma_count_owned_zero(g.drop_last(), p);
    } else {
        lemma_count_owned_single(g.drop_last(), p, a);
    }
}

/// Setup invariant: a board set up as `Board::setup` describes — one
/// Red square, one Blue square, on distinct cells, everything else
/// empty — holds exactly one square per player, and is not game over.
pub proof fn lemma_setup_counts(v: BoardView, red_at: (int, int), blue_at: (int, int))
    requires
        v.wf(),
        coord_in_bounds(red_at.0, red_at.1),
        coord_in_bounds(blue_at.0, blue_at.1),
        red_at != blue_at,
        v.grid[cell_index(red_at.0, red_at.1)].spec_owner() == Some(Player::Red),
        v.grid[cell_index(blue_at.0, blue_at.1)].spec_owner() == Some(Player::Blue),
        forall|i: int|
            0 <= i < v.grid.len() && i != cell_index(red_at.0, red_at.1) && i != cell_index(
                blue_at.0,
                blue_at.1,
            ) ==> (#[trigger] v.grid[i]) == Square::Empty,
    ensures
        count_owned(v.grid, Player::Red) == 1,
        count_owned(v.grid, Player::Blue) == 1,
        !spec_game_over(v),
{
    lemma_cell_index_bijection(red_at.0, red_at.1, blue_at.0, blue_at.1);
    lemma_count_owned_single(v.grid, Player::Red, cell_index(red_at.0, red_at.1));
    lemma_count_owned_single(v.grid, Player::Blue, cell_index(blue_at.0, blue_at.1));
}

/// A player's square count never exceeds the number of cells counted.
pub proof fn lemma_count_owned_bounds(g: Seq<Square>, p: Player)
    ensures
        0 <= count_owned(g, p) <= g.len(),
    decreases g.len(),
{
    if g.len() > 0 {
        lemma_count_owned_bounds(g.drop_last(), p);
    }
}

/// A player with a positive square count owns some cell.
pub proof fn lemma_count_owned_pos(g: Seq<Square>, p: Player)
    requires
        count_owned(g, p) > 0,
    ensures
        exists|i: int| 0 <= i < g.len() && (#[trigger] g[i]).spec_owner() == Some(p),
    decreases g.len(),
{
    if g.last().spec_owner() == Some(p) {
        assert(g[g.len() - 1].spec_owner() == Some(p));
    } else {
        lemma_count_owned_pos(g.drop_last(), p);
        let i = choose|i: int|
            0 <= i < g.drop_last().len() && (#[trigger] g.drop_last()[i]).spec_owner() == Some(p);
        assert(g[i].spec_owner() == Some(p));
    }
}

} // verus!
