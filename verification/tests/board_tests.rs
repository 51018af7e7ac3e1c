use color_wars::board::Board;
use color_wars::coordinates::Coordinates;
use color_wars::errors::GameError;
use color_wars::player::Player;
use color_wars::square::Square;

// Helper function to create a board for testing
fn setup_test_board() -> Board {
    Board::setup(Coordinates::new(0, 0), Coordinates::new(4, 4))
}

#[test]
fn test_setup() {
    let board = setup_test_board();
    assert_eq!(board.turn(), Player::Red);
    assert_eq!(board.grid()[0][0].owner(), Some(Player::Red));
    assert_eq!(board.grid()[0][0].value(), 3);
    assert_eq!(board.grid()[4][4].owner(), Some(Player::Blue));
    assert_eq!(board.grid()[4][4].value(), 3);
}

#[test]
fn test_get_valid_moves() {
    let board = setup_test_board();
    assert_eq!(board.get_valid_moves(), vec![Coordinates::new(0, 0)]);
    let mut board_p2 = board.clone();
    board_p2.set_turn(Player::Blue);
    assert_eq!(board_p2.get_valid_moves(), vec![Coordinates::new(4, 4)]);
}

#[test]
fn test_simple_pop() {
    let board = setup_test_board(); // Red at (0,0) with value 3
    let new_board = board.make_move(Coordinates::new(0, 0));

    // 1. The popped square (0,0) should be empty
    assert_eq!(new_board.grid()[0][0], Square::Empty);

    // 2. Neighbors (1,0) and (0,1) should be Red with value 1
    assert_eq!(new_board.grid()[1][0].owner(), Some(Player::Red));
    assert_eq!(new_board.grid()[1][0].value(), 1);
    assert_eq!(new_board.grid()[0][1].owner(), Some(Player::Red));
    assert_eq!(new_board.grid()[0][1].value(), 1);

    // 3. Turn should switch to Blue
    assert_eq!(new_board.turn(), Player::Blue);
}

#[test]
fn test_pop_captures_opponent() {
    let mut board = setup_test_board();
    // Manually place a Blue square next to the Red one
    board.set_square(Coordinates::new(0, 1), Square::new(Player::Blue, 2));

    let new_board = board.make_move(Coordinates::new(0, 0));

    // The neighbor at (0,1) should now be Red with value 3 (2+1)
    assert_eq!(new_board.grid()[0][1].owner(), Some(Player::Red));
    assert_eq!(new_board.grid()[0][1].value(), 3);
}

#[test]
fn test_chain_reaction() {
    let mut board = Board::new(Player::Red);
    board.set_square(Coordinates::new(0, 0), Square::new(Player::Red, 3));
    // This will pop from the first pop
    board.set_square(Coordinates::new(0, 1), Square::new(Player::Red, 3));

    let new_board = board.make_move(Coordinates::new(0, 0));

    // (0,0) pops, increments (0,1) to 4, which also pops.
    // Final state: (0,0) is red and value is 1, (0,1) is empty, and
    // (0,2) and (1,1) are red and values are 1
    assert_eq!(new_board.grid()[0][1], Square::Empty);
    // Check squares affected by the second pop
    assert_eq!(new_board.grid()[0][0].owner(), Some(Player::Red));
    assert_eq!(new_board.grid()[0][0].value(), 1);
    assert_eq!(new_board.grid()[0][2].owner(), Some(Player::Red));
    assert_eq!(new_board.grid()[0][2].value(), 1);
    assert_eq!(new_board.grid()[1][1].owner(), Some(Player::Red));
    assert_eq!(new_board.grid()[1][1].value(), 1);
}

#[test]
fn test_is_game_over() {
    let mut board = Board::new(Player::Red);
    assert!(!board.is_game_over()); // Empty board is not game over
    board.set_square(Coordinates::new(0, 0), Square::new(Player::Red, 1));
    assert!(board.is_game_over()); // Only one player has squares
}

#[test]
fn setup_has_exactly_two_occupied_cells() {
    let board = Board::setup(Coordinates::new(1, 2), Coordinates::new(3, 0));
    let mut occupied = 0;
    for row in board.grid() {
        for square in row {
            if square.owner().is_some() {
                assert_eq!(square.value(), 3);
                occupied += 1;
            }
        }
    }
    assert_eq!(occupied, 2);
    assert_eq!(board.grid()[1][2].owner(), Some(Player::Red));
    assert_eq!(board.grid()[3][0].owner(), Some(Player::Blue));
    assert_eq!(board.turn(), Player::Red);
}

#[test]
fn make_move_leaves_receiver_unchanged() {
    let board = setup_test_board();
    let _ = board.make_move(Coordinates::new(0, 0));
    // The original board still holds its pre-move state.
    assert_eq!(board.grid()[0][0].owner(), Some(Player::Red));
    assert_eq!(board.grid()[0][0].value(), 3);
    assert_eq!(board.turn(), Player::Red);
}

#[test]
fn simple_increment_without_pop() {
    let mut board = Board::new(Player::Red);
    board.set_square(Coordinates::new(2, 2), Square::new(Player::Red, 1));
    board.set_square(Coordinates::new(0, 0), Square::new(Player::Blue, 1));
    let new_board = board.make_move(Coordinates::new(2, 2));
    assert_eq!(new_board.grid()[2][2], Square::new(Player::Red, 2));
    assert_eq!(new_board.turn(), Player::Blue);
}

#[test]
fn game_over_transitions() {
    // Both players hold squares: not over.
    let mut board = Board::new(Player::Red);
    board.set_square(Coordinates::new(0, 0), Square::new(Player::Red, 2));
    board.set_square(Coordinates::new(0, 1), Square::new(Player::Blue, 1));
    assert!(!board.is_game_over());

    // Red pops at (0,0) after the increment and captures Blue's only
    // square: Blue's count reaches zero while Red's stays positive.
    board.set_square(Coordinates::new(0, 0), Square::new(Player::Red, 3));
    let after = board.make_move(Coordinates::new(0, 0));
    assert!(after.is_game_over());
}

#[test]
fn try_make_move_rejects_illegal_moves() {
    let board = setup_test_board();
    // An empty cell is not a legal placement for Red.
    assert_eq!(
        board.try_make_move(Coordinates::new(2, 2)),
        Err(GameError::IllegalMove)
    );
    // Blue's cell is not a legal placement for Red.
    assert_eq!(
        board.try_make_move(Coordinates::new(4, 4)),
        Err(GameError::IllegalMove)
    );
    // Red's own cell is legal and agrees with make_move.
    let direct = board.make_move(Coordinates::new(0, 0));
    assert_eq!(board.try_make_move(Coordinates::new(0, 0)), Ok(direct));
}
