//! The game's engine: a static evaluator and an iterative-deepening
//! minimax search with alpha-beta pruning and a transposition cache.

use vstd::prelude::*;

use std::collections::HashMap;
use std::time::Duration;
use std::time::Instant;

use crate::board::{
    cell_index, count_owned, lemma_count_owned_bounds, lemma_count_owned_pos,
    lemma_spec_make_move_wf, spec_board_key, spec_game_over, spec_make_move, spec_valid_moves,
    Board, BoardView,
};
use crate::coordinates::{coord_in_bounds, Coordinates};
use crate::player::Player;
use crate::square::Square;
use crate::BOARD_COLUMN_SIZE;

verus! {

broadcast use vstd::std_specs::hash::group_hash_axioms;

/// The transposition cache: each visited board, under its integer board
/// key, maps to the score it was given and the search depth that score
/// was computed at.  The key identifies a settled board exactly (see
/// `lemma_board_key_injective`).  A fresh table is created for each
/// top-level search call.
pub type TranspositionTable = HashMap<u128, (i32, usize)>;

/// Whether the cache holds an entry for this board authoritative at the
/// requested depth: stored at a depth at least as large.
pub open spec fn cache_usable(m: Map<u128, (i32, usize)>, v: BoardView, depth: usize) -> bool {
    &&& m.contains_key(spec_board_key(v))
    &&& m[spec_board_key(v)].1 >= depth
}

/// Cap on the iterative-deepening depth: the total stack capacity of
/// the board, four per cell, which no useful search can exceed.
pub const MAX_SEARCH_DEPTH: usize = 100;

/// The evaluator's score for a board, from the fixed Red perspective:
/// the material difference between Red's and Blue's square counts,
/// overridden by the extreme representable values when one player has
/// been eliminated.
pub open spec fn spec_evaluate(v: BoardView) -> int {
    let red = count_owned(v.grid, Player::Red);
    let blue = count_owned(v.grid, Player::Blue);
    if blue == 0 && red > 0 {
        i32::MAX as int
    } else if red == 0 && blue > 0 {
        i32::MIN as int
    } else {
        red - blue
    }
}

/// The score a root move earns in a depth-1 pass: the static
/// evaluation of the successor board it produces.
pub open spec fn spec_root_score(v: BoardView, m: (int, int)) -> int {
    spec_evaluate(crate::board::spec_make_move(v, m))
}

/// One alpha-beta node, modelled exactly: the score it returns and the
/// transposition cache it leaves behind.  At depth 0 or on a finished
/// board it is the static evaluation with the cache untouched; a cache
/// entry for this board stored at sufficient depth is returned as is;
/// otherwise the successors are folded over in valid-move order and the
/// computed score is cached under the board's key at this depth.
pub open spec fn spec_alpha_beta(
    v: BoardView,
    depth: usize,
    alpha: i32,
    beta: i32,
    maximizing: bool,
    table: Map<u128, (i32, usize)>,
) -> (i32, Map<u128, (i32, usize)>)
    decreases depth, 1int, 0int,
{
    if depth == 0 || spec_game_over(v) {
        (spec_evaluate(v) as i32, table)
    } else if table.contains_key(spec_board_key(v)) && table[spec_board_key(v)].1 >= depth {
        (table[spec_board_key(v)].0, table)
    } else {
        let init: i32 = if maximizing {
            (-i32::MAX) as i32
        } else {
            i32::MAX
        };
        let folded = spec_alpha_beta_moves(
            v,
            spec_valid_moves(v),
            0,
            depth,
            init,
            alpha,
            beta,
            maximizing,
            table,
        );
        (folded.0, folded.1.insert(spec_board_key(v), (folded.0, depth)))
    }
}

/// The fold inside one alpha-beta node, from move `k` on: each
/// successor is scored recursively, the running extremum and the window
/// evolve, and the fold stops early on a cutoff.
pub open spec fn spec_alpha_beta_moves(
    v: BoardView,
    moves: Seq<(int, int)>,
    k: nat,
    depth: usize,
    value: i32,
    alpha: i32,
    beta: i32,
    maximizing: bool,
    table: Map<u128, (i32, usize)>,
) -> (i32, Map<u128, (i32, usize)>)
    decreases depth, 0int, moves.len() - k,
{
    if k >= moves.len() || depth == 0 {
        (value, table)
    } else {
        let child = spec_alpha_beta(
            spec_make_move(v, moves[k as int]),
            (depth - 1) as usize,
            alpha,
            beta,
            !maximizing,
            table,
        );
        if maximizing {
            let v2: i32 = if child.0 > value {
                child.0
            } else {
                value
            };
            if v2 >= beta {
                (v2, child.1)
            } else {
                let a2: i32 = if v2 > alpha {
                    v2
                } else {
                    alpha
                };
                spec_alpha_beta_moves(v, moves, k + 1, depth, v2, a2, beta, maximizing, child.1)
            }
        } else {
            let v2: i32 = if child.0 < value {
                child.0
            } else {
                value
            };
            if v2 <= alpha {
                (v2, child.1)
            } else {
                let b2: i32 = if v2 < beta {
                    v2
                } else {
                    beta
                };
                spec_alpha_beta_moves(v, moves, k + 1, depth, v2, alpha, b2, maximizing, child.1)
            }
        }
    }
}

/// One complete root-level pass, modelled exactly: every valid move is
/// scored through `spec_alpha_beta` at one less depth, the strictly
/// best score, the first move attaining it, and the evolving cache are
/// tracked, and the root window narrows between siblings.
pub open spec fn spec_pass(
    v: BoardView,
    depth: usize,
    maximizing: bool,
    table: Map<u128, (i32, usize)>,
) -> (i32, (int, int), Map<u128, (i32, usize)>) {
    let moves = spec_valid_moves(v);
    let init: i32 = if maximizing {
        i32::MIN
    } else {
        i32::MAX
    };
    spec_pass_moves(v, moves, 0, depth, init, moves[0], i32::MIN, i32::MAX, maximizing, table)
}

/// The fold inside one root pass, from move `k` on.
pub open spec fn spec_pass_moves(
    v: BoardView,
    moves: Seq<(int, int)>,
    k: nat,
    depth: usize,
    best: i32,
    best_move: (int, int),
    alpha: i32,
    beta: i32,
    maximizing: bool,
    table: Map<u128, (i32, usize)>,
) -> (i32, (int, int), Map<u128, (i32, usize)>)
    decreases moves.len() - k,
{
    if k >= moves.len() || depth == 0 {
        (best, best_move, table)
    } else {
        let child = spec_alpha_beta(
            spec_make_move(v, moves[k as int]),
            (depth - 1) as usize,
            alpha,
            beta,
            !maximizing,
            table,
        );
        if maximizing {
            let improved = child.0 > best;
            let b2: i32 = if improved {
                child.0
            } else {
                best
            };
            let m2 = if improved {
                moves[k as int]
            } else {
                best_move
            };
            let a2: i32 = if b2 > alpha {
                b2
            } else {
                alpha
            };
            spec_pass_moves(v, moves, k + 1, depth, b2, m2, a2, beta, maximizing, child.1)
        } else {
            let improved = child.0 < best;
            let b2: i32 = if improved {
                child.0
            } else {
                best
            };
            let m2 = if improved {
                moves[k as int]
            } else {
                best_move
            };
            let bb2: i32 = if b2 < beta {
                b2
            } else {
                beta
            };
            spec_pass_moves(v, moves, k + 1, depth, b2, m2, alpha, bb2, maximizing, child.1)
        }
    }
}

/// Whether the search maximizes on this board: Red is the maximizing
/// player.
pub open spec fn spec_maximizing(v: BoardView) -> bool {
    v.turn is Red
}

/// The iterative-deepening chain, modelled exactly: one complete pass
/// per depth from 1 to `d`, each pass reusing the transposition cache
/// the previous passes left behind, starting from an empty cache.
pub open spec fn spec_deepening(v: BoardView, d: usize) -> (i32, (int, int), Map<
    u128,
    (i32, usize),
>)
    decreases d,
{
    if d <= 1 {
        spec_pass(v, 1, spec_maximizing(v), Map::empty())
    } else {
        let prev = spec_deepening(v, (d - 1) as usize);
        spec_pass(v, d, spec_maximizing(v), prev.2)
    }
}

/// A board's static evaluation is representable, so casting it to the
/// score type loses nothing.
proof fn lemma_spec_evaluate_representable(v: BoardView)
    requires
        v.wf(),
    ensures
        (spec_evaluate(v) as i32) as int == spec_evaluate(v),
{
    lemma_count_owned_bounds(v.grid, Player::Red);
    lemma_count_owned_bounds(v.grid, Player::Blue);
}

/// Every root score is a representable evaluation.
proof fn lemma_root_score_bounds(v: BoardView, m: (int, int))
    requires
        v.wf(),
        coord_in_bounds(m.0, m.1),
    ensures
        i32::MIN as int <= spec_root_score(v, m) <= i32::MAX as int,
{
    lemma_spec_make_move_wf(v, m);
    let g = crate::board::spec_make_move(v, m).grid;
    lemma_count_owned_bounds(g, Player::Red);
    lemma_count_owned_bounds(g, Player::Blue);
}

/// A square with its owner handed to the opposing player.
pub open spec fn flip_square(sq: Square) -> Square {
    match sq {
        Square::Empty => Square::Empty,
        Square::Occupied { owner, value } => Square::Occupied {
            owner: owner.spec_opponent(),
            value,
        },
    }
}

/// The board with every owner and the turn flipped between the players.
pub open spec fn flip_board(v: BoardView) -> BoardView {
    BoardView {
        grid: Seq::new(v.grid.len(), |i: int| flip_square(v.grid[i])),
        turn: v.turn.spec_opponent(),
    }
}

/// Flipping every owner swaps the players' square counts.
proof fn lemma_count_owned_flip(g: Seq<Square>, p: Player)
    ensures
        count_owned(Seq::new(g.len(), |i: int| flip_square(g[i])), p) == count_owned(
            g,
            p.spec_opponent(),
        ),
    decreases g.len(),
{
    let f = Seq::new(g.len(), |i: int| flip_square(g[i]));
    if g.len() > 0 {
        lemma_count_owned_flip(g.drop_last(), p);
        assert(f.drop_last() =~= Seq::new(g.drop_last().len(), |i: int| flip_square(
            g.drop_last()[i],
        )));
        assert(f.last() == flip_square(g.last()));
    }
}

/// Evaluator symmetry: evaluating a board with every owner flipped
/// negates the score, except at the win/loss sentinel values, which
/// trade places as the win condition reverses.
pub proof fn lemma_evaluate_symmetry(v: BoardView)
    requires
        v.wf(),
    ensures
        spec_evaluate(v) == i32::MAX as int ==> spec_evaluate(flip_board(v)) == i32::MIN as int,
        spec_evaluate(v) == i32::MIN as int ==> spec_evaluate(flip_board(v)) == i32::MAX as int,
        spec_evaluate(v) != i32::MAX as int && spec_evaluate(v) != i32::MIN as int
            ==> spec_evaluate(flip_board(v)) == -spec_evaluate(v),
{
    lemma_count_owned_flip(v.grid, Player::Red);
    lemma_count_owned_flip(v.grid, Player::Blue);
    lemma_count_owned_bounds(v.grid, Player::Red);
    lemma_count_owned_bounds(v.grid, Player::Blue);
}

/// Relies on std::time::Instant: an opaque monotonic clock reading.
#[verifier::external_type_specification]
#[verifier::external_body]
pub struct ExInstant(Instant);

/// Relies on std::time::Instant::now for a reading of the wall clock;
/// nothing is promised about the value read.
#[verifier::external_body]
fn clock_now() -> Instant {
    Instant::now()
}

/// Relies on std::time::Instant::elapsed for the time passed since
/// `start`; nothing is promised about it, as a clock may advance by any
/// amount between two readings.
#[verifier::external_body]
fn elapsed_since(start: &Instant) -> Duration {
    start.elapsed()
}

/// Relies on core::time::Duration::as_millis for the whole number of
/// milliseconds a span of time contains; the contracts of this crate
/// never depend on the value.
#[verifier::external_body]
fn duration_millis(d: &Duration) -> u128 {
    d.as_millis()
}

/// Evaluates the board state from a static, Red-player perspective.
///
/// A positive score is favorable for Red, while a negative score is
/// favorable for Blue.  The score is the difference in owned-square
/// counts, except that a win for either player is represented by
/// `i32::MAX` or `i32::MIN`.
pub fn evaluate(board: &Board) -> (r: i32)
    requires
        board@.wf(),
    ensures
        r as int == spec_evaluate(board@),
{
    let red_squares = board.count_owned_by(Player::Red);
    let blue_squares = board.count_owned_by(Player::Blue);
    if blue_squares == 0 && red_squares > 0 {
        i32::MAX
    } else if red_squares == 0 && blue_squares > 0 {
        i32::MIN
    } else {
        red_squares as i32 - blue_squares as i32
    }
}

/// The recursive core of the minimax algorithm with alpha-beta pruning.
///
/// This function explores the game tree to find the best score
/// reachable from a given board state, pruning branches that cannot
/// influence the result.  At depth 0 or on a finished board it returns
/// the static evaluation and leaves the cache untouched.  A score
/// cached for this board's key at a depth at least as large as the
/// requested one is returned as is, again leaving the cache untouched;
/// otherwise the computed score is cached under the board's key, at
/// this depth, before returning.  Cache entries are never removed, and
/// an entry is only ever overwritten by one of greater depth; every
/// entry written below this call carries a depth of at most `depth`.
/// At depth 1 with the full window and no usable cache entry the
/// result is exact: the best successor evaluation for the moving side.
#[verifier::rlimit(80)]
pub fn alpha_beta_prunning(
    board: &Board,
    depth: usize,
    alpha: i32,
    beta: i32,
    maximizing_player: bool,
    transposition_table: &mut TranspositionTable,
) -> (r: i32)
    requires
        board@.wf(),
    ensures
        depth == 0 || spec_game_over(board@) ==> r as int == spec_evaluate(board@) && final(transposition_table)@ == old(transposition_table)@,
        depth >= 1 && !spec_game_over(board@) && cache_usable(
            old(transposition_table)@,
            board@,
            depth,
        ) ==> r == old(transposition_table)@[spec_board_key(board@)].0 && final(transposition_table)@ == old(transposition_table)@,
        depth >= 1 && !spec_game_over(board@) && !cache_usable(
            old(transposition_table)@,
            board@,
            depth,
        ) ==> final(transposition_table)@.contains_key(spec_board_key(board@)) && final(transposition_table)@[spec_board_key(board@)] == (r, depth),
        forall|k2: u128|
            old(transposition_table)@.contains_key(k2) ==> #[trigger] final(transposition_table)@.contains_key(k2) && final(transposition_table)@[k2].1 >= old(transposition_table)@[k2].1,
        forall|k2: u128|
            #[trigger] final(transposition_table)@.contains_key(k2) ==> (old(transposition_table)@.contains_key(k2) && final(transposition_table)@[k2] == old(transposition_table)@[k2]) || final(transposition_table)@[k2].1 <= depth,
        depth == 1 && !spec_game_over(board@) && alpha == i32::MIN && beta == i32::MAX
            && !cache_usable(old(transposition_table)@, board@, 1) && maximizing_player ==> (forall|
            m: (int, int),
        |
            #[trigger] board@.is_valid_move(m) ==> r as int >= spec_root_score(board@, m)) && (r
            == -i32::MAX || exists|m: (int, int)|
            #[trigger] board@.is_valid_move(m) && r as int == spec_root_score(board@, m)),
        depth == 1 && !spec_game_over(board@) && alpha == i32::MIN && beta == i32::MAX
            && !cache_usable(old(transposition_table)@, board@, 1) && !maximizing_player ==> (forall|
            m: (int, int),
        |
            #[trigger] board@.is_valid_move(m) ==> r as int <= spec_root_score(board@, m)) && (r
            == i32::MAX || exists|m: (int, int)|
            #[trigger] board@.is_valid_move(m) && r as int == spec_root_score(board@, m)),
        r == spec_alpha_beta(
            board@,
            depth,
            alpha,
            beta,
            maximizing_player,
            old(transposition_table)@,
        ).0,
        final(transposition_table)@ == spec_alpha_beta(
            board@,
            depth,
            alpha,
            beta,
            maximizing_player,
            old(transposition_table)@,
        ).1,
    decreases depth,
{
    if depth == 0 || board.is_game_over() {
        proof {
            lemma_spec_evaluate_representable(board@);
        }
        return evaluate(board);
    }
    let key = board.board_key();
    let cached = match transposition_table.get(&key) {
        Some(entry) => {
            if entry.1 >= depth {
                Some(entry.0)
            } else {
                None
            }
        },
        None => None,
    };
    if let Some(cached_score) = cached {
        return cached_score;
    }
    let ghost m0 = transposition_table@;
    let ghost beta0 = beta;
    let ghost alpha0 = alpha;
    proof {
        assert(!cache_usable(m0, board@, depth));
    }
    let moves = board.get_valid_moves();
    let ghost gm = spec_valid_moves(board@);
    let mut alpha: i32 = alpha;
    let mut beta: i32 = beta;
    if maximizing_player {
        let mut value: i32 = -i32::MAX;
        let mut k: usize = 0;
        while k < moves.len()
            invariant_except_break
                spec_alpha_beta_moves(board@, gm, 0, depth, (-i32::MAX) as i32, alpha0, beta0, true, m0)
                    == spec_alpha_beta_moves(
                    board@,
                    gm,
                    k as nat,
                    depth,
                    value,
                    alpha,
                    beta,
                    true,
                    transposition_table@,
                ),
            invariant
                board@.wf(),
                depth >= 1,
                !spec_game_over(board@),
                k <= moves@.len(),
                beta == beta0,
                gm == spec_valid_moves(board@),
                moves@.len() == gm.len(),
                forall|j: int| 0 <= j < moves@.len() ==> #[trigger] moves@[j]@ == gm[j],
                forall|j: int| 0 <= j < moves@.len() ==> board@.is_valid_move(#[trigger] moves@[j]@),
                forall|k2: u128|
                    #[trigger] m0.contains_key(k2) ==> transposition_table@.contains_key(k2),
                forall|k2: u128|
                    #[trigger] m0.contains_key(k2) && transposition_table@.contains_key(k2)
                        ==> transposition_table@[k2].1 >= m0[k2].1,
                forall|k2: u128|
                    #[trigger] transposition_table@.contains_key(k2) ==> (m0.contains_key(k2)
                        && transposition_table@[k2] == m0[k2]) || transposition_table@[k2].1
                        < depth,
                depth == 1 ==> forall|j: int|
                    0 <= j < k as int ==> value as int >= spec_root_score(
                        board@,
                        (#[trigger] moves@[j])@,
                    ),
                depth == 1 ==> value == -i32::MAX || (exists|j: int|
                    0 <= j < moves@.len() && value as int == spec_root_score(
                        board@,
                        (#[trigger] moves@[j])@,
                    )),
            ensures
                spec_alpha_beta_moves(board@, gm, 0, depth, (-i32::MAX) as i32, alpha0, beta0, true, m0) == (
                value,
                transposition_table@,
                ),
                depth == 1 && beta0 == i32::MAX ==> forall|j: int|
                    0 <= j < moves@.len() ==> value as int >= spec_root_score(
                        board@,
                        (#[trigger] moves@[j])@,
                    ),
            decreases moves@.len() - k,
        {
            let ghost kpre = k as nat;
            let ghost vpre = value;
            let ghost apre = alpha;
            let ghost bpre = beta;
            let current_move = moves[k];
            let board_after_move = board.make_move(current_move);
            let ghost mpre = transposition_table@;
            let score = alpha_beta_prunning(
                &board_after_move,
                depth - 1,
                alpha,
                beta,
                false,
                transposition_table,
            );
            proof {
                assert(board_after_move@ == spec_make_move(board@, gm[kpre as int]));
                assert((score, transposition_table@) == spec_alpha_beta(
                    spec_make_move(board@, gm[kpre as int]),
                    (depth - 1) as usize,
                    apre,
                    bpre,
                    false,
                    mpre,
                ));
            }
            proof {
                assert forall|k2: u128| #[trigger] m0.contains_key(k2) implies transposition_table@.contains_key(k2) by {
                    assert(mpre.contains_key(k2));
                    assert(transposition_table@.contains_key(k2));
                }
                assert forall|k2: u128| #[trigger] m0.contains_key(k2)
                    && transposition_table@.contains_key(k2) implies transposition_table@[k2].1
                    >= m0[k2].1 by {
                    assert(mpre.contains_key(k2));
                    assert(transposition_table@[k2].1 >= mpre[k2].1);
                }
                assert forall|k2: u128| #[trigger] transposition_table@.contains_key(k2) implies (
                m0.contains_key(k2) && transposition_table@[k2] == m0[k2])
                    || transposition_table@[k2].1 < depth by {
                    if mpre.contains_key(k2) {
                        assert(transposition_table@[k2].1 >= mpre[k2].1);
                    }
                }
                if depth == 1 {
                    assert(score as int == spec_root_score(board@, moves@[k as int]@));
                }
            }
            if score > value {
                value = score;
            }
            proof {
                if depth == 1 {
                    assert(value as int >= spec_root_score(board@, moves@[k as int]@));
                }
            }
            if value >= beta {
                proof {
                    assert(spec_alpha_beta_moves(
                        board@,
                        gm,
                        kpre,
                        depth,
                        vpre,
                        apre,
                        bpre,
                        true,
                        mpre,
                    ) == (value, transposition_table@));
                    if depth == 1 && beta0 == i32::MAX {
                        assert forall|j: int| 0 <= j < moves@.len() implies value as int
                            >= spec_root_score(board@, (#[trigger] moves@[j])@) by {
                            lemma_root_score_bounds(board@, moves@[j]@);
                        }
                    }
                }
                break ;  // beta cutoff
            }
            if value > alpha {
                alpha = value;
            }
            k = k + 1;
            proof {
                assert(spec_alpha_beta_moves(board@, gm, kpre, depth, vpre, apre, bpre, true, mpre)
                    == spec_alpha_beta_moves(
                    board@,
                    gm,
                    k as nat,
                    depth,
                    value,
                    alpha,
                    beta,
                    true,
                    transposition_table@,
                ));
            }
        }
        let ghost tpost = transposition_table@;
        transposition_table.insert(key, (value, depth));
        proof {
            assert forall|k2: u128| m0.contains_key(k2) implies #[trigger] transposition_table@.contains_key(k2)
                && transposition_table@[k2].1 >= m0[k2].1 by {
                assert(tpost.contains_key(k2));
                if k2 == key {
                    assert(transposition_table@[k2] == (value, depth));
                    assert(m0[k2].1 < depth);
                } else {
                    assert(transposition_table@[k2] == tpost[k2]);
                    assert(tpost[k2].1 >= m0[k2].1);
                }
            }
            assert forall|k2: u128| #[trigger] transposition_table@.contains_key(k2) implies (
            m0.contains_key(k2) && transposition_table@[k2] == m0[k2])
                || transposition_table@[k2].1 <= depth by {
                if k2 == key {
                    assert(transposition_table@[k2] == (value, depth));
                } else {
                    assert(tpost.contains_key(k2));
                    assert(transposition_table@[k2] == tpost[k2]);
                }
            }
            assert(spec_alpha_beta(board@, depth, alpha0, beta0, true, m0) == (
                value,
                tpost.insert(spec_board_key(board@), (value, depth)),
            ));
            if depth == 1 && alpha0 == i32::MIN && beta0 == i32::MAX {
                assert forall|m: (int, int)| #[trigger] board@.is_valid_move(m) implies value as int
                    >= spec_root_score(board@, m) by {
                    assert(m == (m.0, m.1));
                    assert(board@.is_valid_move((m.0, m.1)));
                    let j = choose|j: int|
                        0 <= j < moves@.len() && #[trigger] moves@[j]@ == (m.0, m.1);
                    assert(moves@[j]@ == m);
                }
            }
        }
        value
    } else {
        let mut value: i32 = i32::MAX;
        let mut k: usize = 0;
        while k < moves.len()
            invariant_except_break
                spec_alpha_beta_moves(board@, gm, 0, depth, i32::MAX, alpha0, beta0, false, m0)
                    == spec_alpha_beta_moves(
                    board@,
                    gm,
                    k as nat,
                    depth,
                    value,
                    alpha,
                    beta,
                    false,
                    transposition_table@,
                ),
            invariant
                board@.wf(),
                depth >= 1,
                !spec_game_over(board@),
                k <= moves@.len(),
                alpha == alpha0,
                gm == spec_valid_moves(board@),
                moves@.len() == gm.len(),
                forall|j: int| 0 <= j < moves@.len() ==> #[trigger] moves@[j]@ == gm[j],
                forall|j: int| 0 <= j < moves@.len() ==> board@.is_valid_move(#[trigger] moves@[j]@),
                forall|k2: u128|
                    #[trigger] m0.contains_key(k2) ==> transposition_table@.contains_key(k2),
                forall|k2: u128|
                    #[trigger] m0.contains_key(k2) && transposition_table@.contains_key(k2)
                        ==> transposition_table@[k2].1 >= m0[k2].1,
                forall|k2: u128|
                    #[trigger] transposition_table@.contains_key(k2) ==> (m0.contains_key(k2)
                        && transposition_table@[k2] == m0[k2]) || transposition_table@[k2].1
                        < depth,
                depth == 1 ==> forall|j: int|
                    0 <= j < k as int ==> value as int <= spec_root_score(
                        board@,
                        (#[trigger] moves@[j])@,
                    ),
                depth == 1 ==> value == i32::MAX || (exists|j: int|
                    0 <= j < moves@.len() && value as int == spec_root_score(
                        board@,
                        (#[trigger] moves@[j])@,
                    )),
            ensures
                spec_alpha_beta_moves(board@, gm, 0, depth, i32::MAX, alpha0, beta0, false, m0) == (
                value,
                transposition_table@,
                ),
                depth == 1 && alpha0 == i32::MIN ==> forall|j: int|
                    0 <= j < moves@.len() ==> value as int <= spec_root_score(
                        board@,
                        (#[trigger] moves@[j])@,
                    ),
            decreases moves@.len() - k,
        {
            let ghost kpre = k as nat;
            let ghost vpre = value;
            let ghost apre = alpha;
            let ghost bpre = beta;
            let current_move = moves[k];
            let board_after_move = board.make_move(current_move);
            let ghost mpre = transposition_table@;
            let score = alpha_beta_prunning(
                &board_after_move,
                depth - 1,
                alpha,
                beta,
                true,
                transposition_table,
            );
            proof {
                assert(board_after_move@ == spec_make_move(board@, gm[kpre as int]));
                assert((score, transposition_table@) == spec_alpha_beta(
                    spec_make_move(board@, gm[kpre as int]),
                    (depth - 1) as usize,
                    apre,
                    bpre,
                    true,
                    mpre,
                ));
            }
            proof {
                assert forall|k2: u128| #[trigger] m0.contains_key(k2) implies transposition_table@.contains_key(k2) by {
                    assert(mpre.contains_key(k2));
                    assert(transposition_table@.contains_key(k2));
                }
                assert forall|k2: u128| #[trigger] m0.contains_key(k2)
                    && transposition_table@.contains_key(k2) implies transposition_table@[k2].1
                    >= m0[k2].1 by {
                    assert(mpre.contains_key(k2));
                    assert(transposition_table@[k2].1 >= mpre[k2].1);
                }
                assert forall|k2: u128| #[trigger] transposition_table@.contains_key(k2) implies (
                m0.contains_key(k2) && transposition_table@[k2] == m0[k2])
                    || transposition_table@[k2].1 < depth by {
                    if mpre.contains_key(k2) {
                        assert(transposition_table@[k2].1 >= mpre[k2].1);
                    }
                }
                if depth == 1 {
                    assert(score as int == spec_root_score(board@, moves@[k as int]@));
                }
            }
            if score < value {
                value = score;
            }
            proof {
                if depth == 1 {
                    assert(value as int <= spec_root_score(board@, moves@[k as int]@));
                }
            }
            if value <= alpha {
                proof {
                    assert(spec_alpha_beta_moves(
                        board@,
                        gm,
                        kpre,
                        depth,
                        vpre,
                        apre,
                        bpre,
                        false,
                        mpre,
                    ) == (value, transposition_table@));
                    if depth == 1 && alpha0 == i32::MIN {
                        assert forall|j: int| 0 <= j < moves@.len() implies value as int
                            <= spec_root_score(board@, (#[trigger] moves@[j])@) by {
                            lemma_root_score_bounds(board@, moves@[j]@);
                        }
                    }
                }
                break ;  // alpha cutoff
            }
            if beta > value {
                beta = value;
            }
            k = k + 1;
            proof {
                assert(spec_alpha_beta_moves(board@, gm, kpre, depth, vpre, apre, bpre, false, mpre)
                    == spec_alpha_beta_moves(
                    board@,
                    gm,
                    k as nat,
                    depth,
                    value,
                    alpha,
                    beta,
                    false,
                    transposition_table@,
                ));
            }
        }
        let ghost tpost = transposition_table@;
        transposition_table.insert(key, (value, depth));
        proof {
            assert forall|k2: u128| m0.contains_key(k2) implies #[trigger] transposition_table@.contains_key(k2)
                && transposition_table@[k2].1 >= m0[k2].1 by {
                assert(tpost.contains_key(k2));
                if k2 == key {
                    assert(transposition_table@[k2] == (value, depth));
                    assert(m0[k2].1 < depth);
                } else {
                    assert(transposition_table@[k2] == tpost[k2]);
                    assert(tpost[k2].1 >= m0[k2].1);
                }
            }
            assert forall|k2: u128| #[trigger] transposition_table@.contains_key(k2) implies (
            m0.contains_key(k2) && transposition_table@[k2] == m0[k2])
                || transposition_table@[k2].1 <= depth by {
                if k2 == key {
                    assert(transposition_table@[k2] == (value, depth));
                } else {
                    assert(tpost.contains_key(k2));
                    assert(transposition_table@[k2] == tpost[k2]);
                }
            }
            assert(spec_alpha_beta(board@, depth, alpha0, beta0, false, m0) == (
                value,
                tpost.insert(spec_board_key(board@), (value, depth)),
            ));
            if depth == 1 && alpha0 == i32::MIN && beta0 == i32::MAX {
                assert forall|m: (int, int)| #[trigger] board@.is_valid_move(m) implies value as int
                    <= spec_root_score(board@, m) by {
                    assert(m == (m.0, m.1));
                    assert(board@.is_valid_move((m.0, m.1)));
                    let j = choose|j: int|
                        0 <= j < moves@.len() && #[trigger] moves@[j]@ == (m.0, m.1);
                    assert(moves@[j]@ == m);
                }
            }
        }
        value
    }
}


/// One complete root-level pass at a fixed depth: every legal move is
/// scored through `alpha_beta_prunning`, tracking the strictly best
/// score and its move, and narrowing the alpha-beta window between
/// siblings.  Returns the pass's best score and best move.
fn root_pass(
    board: &Board,
    moves: &Vec<Coordinates>,
    depth: usize,
    maximizing_player: bool,
    transposition_table: &mut TranspositionTable,
) -> (r: (i32, Coordinates))
    requires
        board@.wf(),
        depth >= 1,
        moves@.len() > 0,
        moves@.len() == spec_valid_moves(board@).len(),
        forall|j: int| 0 <= j < moves@.len() ==> #[trigger] moves@[j]@ == spec_valid_moves(board@)[j],
        forall|j: int| 0 <= j < moves@.len() ==> board@.is_valid_move(#[trigger] moves@[j]@),
    ensures
        exists|j: int| 0 <= j < moves@.len() && r.1 == moves@[j],
        ({
            let p = spec_pass(board@, depth, maximizing_player, old(transposition_table)@);
            r.0 == p.0 && r.1@ == p.1 && final(transposition_table)@ == p.2
        }),
        depth == 1 ==> exists|j: int|
            0 <= j < moves@.len() && r.1 == moves@[j] && r.0 as int == spec_root_score(
                board@,
                moves@[j]@,
            ),
        depth == 1 && maximizing_player ==> forall|j: int|
            0 <= j < moves@.len() ==> r.0 as int >= spec_root_score(
                board@,
                (#[trigger] moves@[j])@,
            ),
        depth == 1 && !maximizing_player ==> forall|j: int|
            0 <= j < moves@.len() ==> r.0 as int <= spec_root_score(
                board@,
                (#[trigger] moves@[j])@,
            ),
{
    let ghost m0 = transposition_table@;
    let ghost gm = spec_valid_moves(board@);
    let ghost init0: i32 = if maximizing_player {
        i32::MIN
    } else {
        i32::MAX
    };
    let mut alpha: i32 = i32::MIN;
    let mut beta: i32 = i32::MAX;
    let mut best_score: i32 = if maximizing_player {
        i32::MIN
    } else {
        i32::MAX
    };
    let mut best_placement = moves[0];
    let mut k: usize = 0;
    while k < moves.len()
        invariant
            board@.wf(),
            depth >= 1,
            k <= moves@.len(),
            moves@.len() > 0,
            gm == spec_valid_moves(board@),
            moves@.len() == gm.len(),
            forall|j: int| 0 <= j < moves@.len() ==> #[trigger] moves@[j]@ == gm[j],
            forall|j: int| 0 <= j < moves@.len() ==> board@.is_valid_move(#[trigger] moves@[j]@),
            exists|j: int| 0 <= j < moves@.len() && best_placement == moves@[j],
            spec_pass_moves(board@, gm, 0, depth, init0, gm[0], i32::MIN, i32::MAX,
                maximizing_player, m0) == spec_pass_moves(
                board@,
                gm,
                k as nat,
                depth,
                best_score,
                best_placement@,
                alpha,
                beta,
                maximizing_player,
                transposition_table@,
            ),
            depth == 1 && maximizing_player ==> forall|j: int|
                0 <= j < k as int ==> best_score as int >= spec_root_score(
                    board@,
                    (#[trigger] moves@[j])@,
                ),
            depth == 1 && !maximizing_player ==> forall|j: int|
                0 <= j < k as int ==> best_score as int <= spec_root_score(
                    board@,
                    (#[trigger] moves@[j])@,
                ),
            depth == 1 ==> (exists|j: int|
                0 <= j < moves@.len() && best_placement == moves@[j] && best_score as int
                    == spec_root_score(board@, moves@[j]@)) || (k == 0 && best_placement
                == moves@[0] && (if maximizing_player {
                best_score == i32::MIN
            } else {
                best_score == i32::MAX
            })),
        decreases moves@.len() - k,
    {
        let ghost kpre = k as nat;
        let ghost spre = best_score;
        let ghost ppre = best_placement@;
        let ghost apre = alpha;
        let ghost bpre = beta;
        let ghost mpre = transposition_table@;
        let current_placement = moves[k];
        let board_after_move = board.make_move(current_placement);
        let score = alpha_beta_prunning(
            &board_after_move,
            depth - 1,
            alpha,
            beta,
            !maximizing_player,
            transposition_table,
        );
        proof {
            assert(board_after_move@ == spec_make_move(board@, gm[kpre as int]));
            assert((score, transposition_table@) == spec_alpha_beta(
                spec_make_move(board@, gm[kpre as int]),
                (depth - 1) as usize,
                apre,
                bpre,
                !maximizing_player,
                mpre,
            ));
            if depth == 1 {
                assert(score as int == spec_root_score(board@, moves@[k as int]@));
            }
        }
        if maximizing_player {
            if score > best_score {
                best_score = score;
                best_placement = current_placement;
            }
            // Update alpha for the next sibling's search window
            if best_score > alpha {
                alpha = best_score;
            }
        } else {
            if score < best_score {
                best_score = score;
                best_placement = current_placement;
            }
            // Update beta for the next sibling's search window
            if beta > best_score {
                beta = best_score;
            }
        }
        k = k + 1;
        proof {
            assert(spec_pass_moves(
                board@,
                gm,
                kpre,
                depth,
                spre,
                ppre,
                apre,
                bpre,
                maximizing_player,
                mpre,
            ) == spec_pass_moves(
                board@,
                gm,
                k as nat,
                depth,
                best_score,
                best_placement@,
                alpha,
                beta,
                maximizing_player,
                transposition_table@,
            ));
        }
    }
    proof {
        assert(spec_pass(board@, depth, maximizing_player, m0) == (
            best_score,
            best_placement@,
            transposition_table@,
        ));
    }
    (best_score, best_placement)
}

/// The legal-move list of a board whose mover owns a square is not
/// empty; yields the move list for use by the search entry points.
fn valid_moves_of_mover(board: &Board) -> (moves: Vec<Coordinates>)
    requires
        board@.wf(),
        count_owned(board@.grid, board@.turn) > 0,
    ensures
        moves@.len() > 0,
        moves@.len() == spec_valid_moves(board@).len(),
        forall|j: int| 0 <= j < moves@.len() ==> #[trigger] moves@[j]@ == spec_valid_moves(board@)[j],
        forall|j: int| 0 <= j < moves@.len() ==> board@.is_valid_move(#[trigger] moves@[j]@),
        forall|rr: int, cc: int|
            board@.is_valid_move((rr, cc)) ==> exists|k: int|
                0 <= k < moves@.len() && #[trigger] moves@[k]@ == (rr, cc),
{
    let moves = board.get_valid_moves();
    proof {
        lemma_count_owned_pos(board@.grid, board@.turn);
        let i = choose|i: int|
            0 <= i < board@.grid.len() && (#[trigger] board@.grid[i]).spec_owner() == Some(
                board@.turn,
            );
        let rr = i / (BOARD_COLUMN_SIZE as int);
        let cc = i % (BOARD_COLUMN_SIZE as int);
        assert(cell_index(rr, cc) == i);
        assert(coord_in_bounds(rr, cc));
        assert(board@.is_valid_move((rr, cc)));
    }
    moves
}

/// Searches to a fixed maximum depth, deterministically: one complete
/// root pass per depth from 1 to `max_depth`, sharing one transposition
/// cache, committing each completed pass's result.  Returns the last
/// pass's score and chosen move, which is always one of the board's
/// valid moves.  The result is pinned completely: it equals
/// `spec_deepening` of the board and depth, so two calls on equal
/// arguments return the same score and the same move.  A depth-1
/// search is exactly a greedy step: the score is the best static
/// evaluation among the successor boards (best for Red when Red moves,
/// for Blue when Blue moves), and the chosen move attains it.
pub fn search_to_depth(board: &Board, max_depth: usize) -> (r: (i32, Coordinates))
    requires
        board@.wf(),
        count_owned(board@.grid, board@.turn) > 0,
        max_depth >= 1,
    ensures
        board@.is_valid_move(r.1@),
        max_depth == 1 ==> board@.is_valid_move(r.1@) && r.0 as int == spec_root_score(
            board@,
            r.1@,
        ),
        max_depth == 1 && board@.turn is Red ==> forall|m: (int, int)|
            #[trigger] board@.is_valid_move(m) ==> r.0 as int >= spec_root_score(board@, m),
        max_depth == 1 && board@.turn is Blue ==> forall|m: (int, int)|
            #[trigger] board@.is_valid_move(m) ==> r.0 as int <= spec_root_score(board@, m),
        r.0 == spec_deepening(board@, max_depth).0,
        r.1@ == spec_deepening(board@, max_depth).1,
{
    let moves = valid_moves_of_mover(board);
    let maximizing_player = board.turn() == Player::Red;
    let mut transposition_table: TranspositionTable = HashMap::new();
    proof {
        assert(transposition_table@ == Map::<u128, (i32, usize)>::empty());
        assert(maximizing_player == spec_maximizing(board@));
    }
    let mut result = root_pass(board, &moves, 1, maximizing_player, &mut transposition_table);
    proof {
        assert(result.0 == spec_deepening(board@, 1).0 && result.1@ == spec_deepening(board@, 1).1
            && transposition_table@ == spec_deepening(board@, 1).2);
        let j = choose|j: int|
            0 <= j < moves@.len() && result.1 == moves@[j] && result.0 as int == spec_root_score(
                board@,
                moves@[j]@,
            );
        assert(board@.is_valid_move(moves@[j]@));
        assert forall|m: (int, int)| #[trigger] board@.is_valid_move(m) implies (
        maximizing_player ==> result.0 as int >= spec_root_score(board@, m)) && (!maximizing_player
            ==> result.0 as int <= spec_root_score(board@, m)) by {
            assert(m == (m.0, m.1));
            assert(board@.is_valid_move((m.0, m.1)));
            let k = choose|k: int| 0 <= k < moves@.len() && #[trigger] moves@[k]@ == (m.0, m.1);
            assert(moves@[k]@ == m);
        }
    }
    let ghost first_pass = result;
    let mut current_depth: usize = 1;
    while current_depth < max_depth
        invariant
            board@.wf(),
            moves@.len() > 0,
            moves@.len() == spec_valid_moves(board@).len(),
            forall|j: int|
                0 <= j < moves@.len() ==> #[trigger] moves@[j]@ == spec_valid_moves(board@)[j],
            forall|j: int| 0 <= j < moves@.len() ==> board@.is_valid_move(#[trigger] moves@[j]@),
            exists|j: int| 0 <= j < moves@.len() && result.1 == moves@[j],
            current_depth >= 1,
            current_depth <= max_depth,
            maximizing_player == spec_maximizing(board@),
            result.0 == spec_deepening(board@, current_depth).0,
            result.1@ == spec_deepening(board@, current_depth).1,
            transposition_table@ == spec_deepening(board@, current_depth).2,
            max_depth == 1 ==> result == first_pass,
        decreases max_depth - current_depth,
    {
        let ghost dpre = current_depth;
        current_depth = current_depth + 1;
        result = root_pass(
            board,
            &moves,
            current_depth,
            maximizing_player,
            &mut transposition_table,
        );
        proof {
            assert(spec_deepening(board@, current_depth) == spec_pass(
                board@,
                current_depth,
                spec_maximizing(board@),
                spec_deepening(board@, dpre).2,
            ));
        }
    }
    proof {
        let j = choose|j: int| 0 <= j < moves@.len() && result.1 == moves@[j];
        assert(board@.is_valid_move(moves@[j]@));
    }
    result
}

/// The main entry point of the search: finds a move for the player
/// whose turn it is on the given board, under a wall-clock time budget.
///
/// The search deepens iteratively, one complete root pass per depth.
/// The first pass, at depth 1, always runs, so a move is returned even
/// for an exhausted budget.  Before each further pass the elapsed time
/// plus the previous pass's duration is held against the budget, and
/// the loop stops rather than start a pass it does not expect to
/// finish; a pass, once started, always completes, and only completed
/// passes update the result.  The returned move is always one of the
/// board's valid moves, and the returned pair is the outcome
/// `spec_deepening` gives for the completed passes, at some depth
/// between 1 and the cap; which depth the budget allowed is the one
/// thing the wall clock decides.
pub fn search(board: &Board, time: Duration) -> (r: (i32, Coordinates))
    requires
        board@.wf(),
        count_owned(board@.grid, board@.turn) > 0,
    ensures
        board@.is_valid_move(r.1@),
        exists|d: usize|
            1 <= d <= MAX_SEARCH_DEPTH && r.0 == #[trigger] spec_deepening(board@, d).0 && r.1@
                == spec_deepening(board@, d).1,
{
    let moves = valid_moves_of_mover(board);
    let maximizing_player = board.turn() == Player::Red;
    let mut transposition_table: TranspositionTable = HashMap::new();
    proof {
        assert(transposition_table@ == Map::<u128, (i32, usize)>::empty());
        assert(maximizing_player == spec_maximizing(board@));
    }
    let budget_millis = duration_millis(&time);
    let search_start = clock_now();
    let mut result = root_pass(board, &moves, 1, maximizing_player, &mut transposition_table);
    proof {
        assert(result.0 == spec_deepening(board@, 1).0 && result.1@ == spec_deepening(board@, 1).1
            && transposition_table@ == spec_deepening(board@, 1).2);
    }
    let mut last_pass_millis = duration_millis(&elapsed_since(&search_start));
    let mut current_depth: usize = 1;
    while current_depth < MAX_SEARCH_DEPTH
        invariant
            board@.wf(),
            moves@.len() > 0,
            moves@.len() == spec_valid_moves(board@).len(),
            forall|j: int|
                0 <= j < moves@.len() ==> #[trigger] moves@[j]@ == spec_valid_moves(board@)[j],
            forall|j: int| 0 <= j < moves@.len() ==> board@.is_valid_move(#[trigger] moves@[j]@),
            exists|j: int| 0 <= j < moves@.len() && result.1 == moves@[j],
            current_depth >= 1,
            current_depth <= MAX_SEARCH_DEPTH,
            maximizing_player == spec_maximizing(board@),
            result.0 == spec_deepening(board@, current_depth).0,
            result.1@ == spec_deepening(board@, current_depth).1,
            transposition_table@ == spec_deepening(board@, current_depth).2,
        decreases MAX_SEARCH_DEPTH - current_depth,
    {
        let elapsed = duration_millis(&elapsed_since(&search_start));
        // Decline to start a pass unlikely to finish inside the budget:
        // continue only while elapsed + last_pass_millis < budget_millis.
        if !(elapsed < budget_millis && budget_millis - elapsed > last_pass_millis) {
            break ;
        }
        let pass_start = clock_now();
        let ghost dpre = current_depth;
        current_depth = current_depth + 1;
        result = root_pass(
            board,
            &moves,
            current_depth,
            maximizing_player,
            &mut transposition_table,
        );
        proof {
            assert(spec_deepening(board@, current_depth) == spec_pass(
                board@,
                current_depth,
                spec_maximizing(board@),
                spec_deepening(board@, dpre).2,
            ));
        }
        last_pass_millis = duration_millis(&elapsed_since(&pass_start));
    }
    proof {
        let j = choose|j: int| 0 <= j < moves@.len() && result.1 == moves@[j];
        assert(board@.is_valid_move(moves@[j]@));
        assert(1 <= current_depth <= MAX_SEARCH_DEPTH && result.0 == spec_deepening(
            board@,
            current_depth,
        ).0 && result.1@ == spec_deepening(board@, current_depth).1);
    }
    result
}

} // verus!
