use game_relay::{
    Game, ReconnectPolicy, Recovery, RemoteState, SendFailure, ServerMessage, START_COORDINATE,
};

#[test]
fn new_game_starts_at_one_hundred() {
    let game = Game::new();
    assert_eq!(f32::from_bits(START_COORDINATE), 100.0f32);
    assert_eq!(game.player_state, RemoteState::new(0, START_COORDINATE, START_COORDINATE, 0));
    assert!(!game.quit);
    assert!(game.remote_states.is_empty());
}

#[test]
fn welcome_sets_player_id() {
    let mut game = Game::new();
    game.handle_message(ServerMessage::Welcome(7));
    assert_eq!(game.player_state.id, 7);
}

#[test]
fn goodbye_drops_that_peer_only() {
    let mut game = Game::new();
    game.handle_message(ServerMessage::Update(vec![
        RemoteState::new(1, 0, 0, 0),
        RemoteState::new(2, 1, 1, 1),
        RemoteState::new(3, 2, 2, 2),
    ]));
    game.handle_message(ServerMessage::GoodBye(2));
    assert_eq!(
        game.remote_states,
        vec![RemoteState::new(1, 0, 0, 0), RemoteState::new(3, 2, 2, 2)]
    );
}

#[test]
fn setters_change_one_field() {
    let mut s = RemoteState::new(1, 2, 3, 4);
    s.id(9);
    s.rotation(10);
    assert_eq!(s, RemoteState::new(9, 2, 3, 10));
}

#[test]
fn reconnect_is_bounded() {
    let mut policy = ReconnectPolicy::new(2);
    assert_eq!(policy.on_send_error(SendFailure::Other), Recovery::Ignore);
    assert_eq!(policy.on_send_error(SendFailure::ConnectionReset), Recovery::Reconnect(1));
    assert_eq!(policy.on_send_error(SendFailure::ConnectionAborted), Recovery::Reconnect(2));
    assert_eq!(policy.on_send_error(SendFailure::ConnectionReset), Recovery::GiveUp);
    policy.on_connected();
    assert_eq!(policy.on_send_error(SendFailure::ConnectionReset), Recovery::Reconnect(1));
}
