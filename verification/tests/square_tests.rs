use color_wars::player::Player;
use color_wars::square::Square;

#[test]
fn default_square_is_empty() {
    let s = Square::default();
    assert_eq!(s.owner(), None);
    assert_eq!(s.value(), 0);
}

#[test]
fn new_creates_occupied_square() {
    let s = Square::new(Player::Red, 3);
    assert_eq!(s.owner(), Some(Player::Red));
    assert_eq!(s.value(), 3);
}

#[test]
fn increment_value_works() {
    let mut s = Square::new(Player::Blue, 1);
    s.increment_value();
    assert_eq!(s.value(), 2);
}

#[test]
fn set_owner_works() {
    let mut s = Square::default();
    assert_eq!(s.owner(), None);

    s.set_owner(Player::Red);
    assert_eq!(s.owner(), Some(Player::Red));

    let mut s = Square::new(Player::Blue, 1);
    s.set_owner(Player::Red);

    assert_eq!(s, Square::new(Player::Red, 1));
}

#[test]
fn reset_square_works() {
    let mut s = Square::new(Player::Blue, 3);
    s.reset_square();
    // After reset, it should be identical to a default square
    assert_eq!(s, Square::default());
}

#[test]
fn increment_value_leaves_empty_square_empty() {
    let mut s = Square::Empty;
    s.increment_value();
    assert_eq!(s, Square::Empty);
    assert_eq!(s.value(), 0);
}
