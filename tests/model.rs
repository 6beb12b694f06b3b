use rust_optimizer::{player_from_id, Action, Player};

#[test]
fn test_player_opponent() {
    assert_eq!(Player::Player1.opponent(), Player::Player2);
    assert_eq!(Player::Player2.opponent(), Player::Player1);
}

#[test]
fn opponent_twice_is_identity() {
    for p in [Player::Player1, Player::Player2] {
        assert_eq!(p.opponent().opponent(), p);
    }
}

#[test]
fn player_ids_map_to_players() {
    assert_eq!(player_from_id(1), Player::Player1);
    assert_eq!(player_from_id(2), Player::Player2);
    assert_eq!(player_from_id(0), Player::Player2);
}

#[test]
fn action_names() {
    assert_eq!(Action::MakeClaim.name(), "MakeClaim");
    assert_eq!(Action::Challenge.name(), "Challenge");
    assert_eq!(Action::Accept.name(), "Accept");
}
