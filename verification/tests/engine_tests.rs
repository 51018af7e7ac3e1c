use std::time::Duration;

use color_wars::board::Board;
use color_wars::coordinates::Coordinates;
use color_wars::engine::{evaluate, search, search_to_depth};
use color_wars::player::Player;
use color_wars::square::Square;

fn setup_test_board() -> Board {
    Board::setup(Coordinates::new(0, 0), Coordinates::new(4, 4))
}

#[test]
fn evaluate_counts_material() {
    // Two Red squares against one Blue square: score 1.
    let mut board = Board::new(Player::Red);
    board.set_square(Coordinates::new(0, 0), Square::new(Player::Red, 1));
    board.set_square(Coordinates::new(2, 2), Square::new(Player::Red, 3));
    board.set_square(Coordinates::new(4, 4), Square::new(Player::Blue, 2));
    assert_eq!(evaluate(&board), 1);

    // The pristine board scores 0.
    assert_eq!(evaluate(&Board::new(Player::Red)), 0);

    // The starting position is balanced.
    assert_eq!(evaluate(&setup_test_board()), 0);
}

#[test]
fn evaluate_win_overrides() {
    // Blue has no squares while Red has some: a Red win.
    let mut board = Board::new(Player::Red);
    board.set_square(Coordinates::new(1, 1), Square::new(Player::Red, 1));
    assert_eq!(evaluate(&board), i32::MAX);

    // Red has no squares while Blue has some: a Blue win.
    let mut board = Board::new(Player::Red);
    board.set_square(Coordinates::new(1, 1), Square::new(Player::Blue, 1));
    board.set_square(Coordinates::new(3, 3), Square::new(Player::Blue, 2));
    assert_eq!(evaluate(&board), i32::MIN);
}

fn flipped_owners(board: &Board) -> Board {
    let mut flipped = Board::new(board.turn().opponent());
    for (r, row) in board.grid().into_iter().enumerate() {
        for (c, square) in row.into_iter().enumerate() {
            if let Some(owner) = square.owner() {
                flipped.set_square(
                    Coordinates::new(r, c),
                    Square::new(owner.opponent(), square.value()),
                );
            }
        }
    }
    flipped
}

#[test]
fn evaluate_symmetry_on_concrete_boards() {
    // A mixed board: flipping every owner negates the score.
    let mut board = Board::new(Player::Red);
    board.set_square(Coordinates::new(0, 0), Square::new(Player::Red, 1));
    board.set_square(Coordinates::new(1, 0), Square::new(Player::Red, 2));
    board.set_square(Coordinates::new(2, 0), Square::new(Player::Red, 3));
    board.set_square(Coordinates::new(4, 4), Square::new(Player::Blue, 1));
    assert_eq!(evaluate(&board), 2);
    assert_eq!(evaluate(&flipped_owners(&board)), -2);

    // At the sentinels, the sign flips with the win condition.
    let mut board = Board::new(Player::Red);
    board.set_square(Coordinates::new(1, 1), Square::new(Player::Red, 1));
    assert_eq!(evaluate(&board), i32::MAX);
    assert_eq!(evaluate(&flipped_owners(&board)), i32::MIN);
}

#[test]
fn search_returns_a_valid_move() {
    let board = setup_test_board();
    let (_, chosen) = search_to_depth(&board, 3);
    assert!(board.get_valid_moves().contains(&chosen));

    // The mandatory first pass guarantees a move even on a zero budget.
    let (_, chosen) = search(&board, Duration::from_millis(0));
    assert!(board.get_valid_moves().contains(&chosen));

    let (_, chosen) = search(&board, Duration::from_millis(50));
    assert!(board.get_valid_moves().contains(&chosen));
}

#[test]
fn search_finds_immediate_win() {
    // Red pops at (0,0), captures Blue's only square at (0,1), and wins.
    let mut board = Board::new(Player::Red);
    board.set_square(Coordinates::new(0, 0), Square::new(Player::Red, 3));
    board.set_square(Coordinates::new(0, 1), Square::new(Player::Blue, 1));
    board.set_square(Coordinates::new(4, 4), Square::new(Player::Red, 1));
    let (score, chosen) = search_to_depth(&board, 2);
    assert_eq!(chosen, Coordinates::new(0, 0));
    assert_eq!(score, i32::MAX);
}

#[test]
fn depth_one_search_is_greedy() {
    // Red can quietly grow at (0,0) for a score of 1, or pop at (0,2),
    // capture Blue's last square at (0,3), and win outright.
    let mut board = Board::new(Player::Red);
    board.set_square(Coordinates::new(0, 0), Square::new(Player::Red, 1));
    board.set_square(Coordinates::new(0, 2), Square::new(Player::Red, 3));
    board.set_square(Coordinates::new(0, 3), Square::new(Player::Blue, 2));
    assert_eq!(
        search_to_depth(&board, 1),
        (i32::MAX, Coordinates::new(0, 2))
    );
}

#[test]
fn search_is_deterministic_at_fixed_depth() {
    let mut board = Board::new(Player::Red);
    board.set_square(Coordinates::new(0, 0), Square::new(Player::Red, 2));
    board.set_square(Coordinates::new(1, 2), Square::new(Player::Red, 1));
    board.set_square(Coordinates::new(3, 3), Square::new(Player::Blue, 2));
    board.set_square(Coordinates::new(4, 0), Square::new(Player::Blue, 1));

    let first = search_to_depth(&board, 4);
    let second = search_to_depth(&board, 4);
    assert_eq!(first, second);
}
