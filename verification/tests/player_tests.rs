use color_wars::player::Player;

#[test]
fn equality() {
    assert_eq!(Player::Red, Player::Red);
    assert_eq!(Player::Blue, Player::Blue);
}

#[test]
fn inequality() {
    assert_ne!(Player::Red, Player::Blue);
}

#[test]
fn opponent() {
    assert_eq!(Player::Red.opponent(), Player::Blue);
    assert_eq!(Player::Blue.opponent(), Player::Red);
}

#[test]
fn double_opponent() {
    assert_eq!(Player::Red.opponent().opponent(), Player::Red);
    assert_eq!(Player::Blue.opponent().opponent(), Player::Blue);
}

#[test]
fn display_trait() {
    assert_eq!(Player::Red.name(), "Red");
    assert_eq!(Player::Blue.name(), "Blue");
}
