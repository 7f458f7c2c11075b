use multiplayer_server::client::{
    catch_up, handle_message, interval_transmit_position, process_events_and_input,
    process_message_queue, step, Input, State, CLIENT_QUEUE_CAPACITY, PLAYER_SPEED,
};
use multiplayer_server::client_to_server::ClientToServerMessageData;
use multiplayer_server::game_objects::Player;
use multiplayer_server::mailbox::Mailbox;
use multiplayer_server::server_to_client::ServerToClientMessage;
use multiplayer_server::state::TIMESTEP_NANOS;
use multiplayer_server::vec2::Vec2;

const NO_KEYS: Input = Input { escape: false, up: false, down: false, left: false, right: false };

fn spawn(owner_client_id: u32, entity_id: u32, x: i32, y: i32) -> ServerToClientMessage {
    ServerToClientMessage::SpawnPlayer { owner_client_id, entity_id, pos: Vec2::new(x, y) }
}

fn player(owner_client_id: u32, entity_id: u32, x: i32, y: i32) -> Player {
    Player { owner_client_id, entity_id, pos: Vec2::new(x, y), vel: Vec2::zero() }
}

#[test]
fn a_new_client_runs_and_knows_nothing() {
    let state = State::new();
    assert!(State::default().running());
    assert_eq!(State::default().players(), vec![]);
    assert!(state.running());
    assert_eq!(state.client_id(), None);
    assert_eq!(state.players(), vec![]);
    assert_eq!(state.player(0), None);
    assert_eq!(CLIENT_QUEUE_CAPACITY, 64);
    assert_eq!(PLAYER_SPEED, 1);
}

#[test]
fn the_client_takes_its_id_from_the_server() {
    let mut state = State::new();
    handle_message(&mut state, ServerToClientMessage::ClientIDAssignment { new_client_id: 7 });
    assert_eq!(state.client_id(), Some(7));
    handle_message(&mut state, ServerToClientMessage::Welcome { server_message: "hi".to_string() });
    handle_message(&mut state, ServerToClientMessage::ClientJoined { id: 1 });
    handle_message(&mut state, ServerToClientMessage::ClientLeft { id: 1 });
    handle_message(&mut state, ServerToClientMessage::ChatMessage { from: 1, message: "x".to_string() });
    assert_eq!(state.client_id(), Some(7));
    assert_eq!(state.players(), vec![]);
    assert!(state.running());
}

#[test]
fn spawned_players_are_known_once_each() {
    let mut state = State::new();
    handle_message(&mut state, spawn(1, 5, 2, 3));
    handle_message(&mut state, spawn(2, 6, 0, 0));
    handle_message(&mut state, spawn(3, 5, 9, 9));
    assert_eq!(state.players(), vec![player(3, 5, 9, 9), player(2, 6, 0, 0)]);
    assert_eq!(state.player(5), Some(player(3, 5, 9, 9)));
    assert_eq!(state.player(7), None);
}

#[test]
fn positions_of_known_entities_are_taken_over() {
    let mut state = State::new();
    handle_message(&mut state, spawn(1, 5, 2, 3));
    handle_message(&mut state, ServerToClientMessage::EntityPosition { entity_id: 5, pos: Vec2::new(-1, 4) });
    handle_message(&mut state, ServerToClientMessage::EntityPosition { entity_id: 6, pos: Vec2::new(8, 8) });
    assert_eq!(state.players(), vec![player(1, 5, -1, 4)]);
}

#[test]
fn all_players_arrive_at_rest() {
    let mut state = State::new();
    handle_message(&mut state, spawn(1, 1, 1, 1));
    let moving = Player { owner_client_id: 2, entity_id: 0, pos: Vec2::new(4, 4), vel: Vec2::new(1, 1) };
    let players = vec![moving, player(1, 1, 7, 7), player(3, 2, 0, 0), player(9, 0, 5, 5)];
    handle_message(&mut state, ServerToClientMessage::AllPlayers { players });
    assert_eq!(state.players(), vec![player(1, 1, 7, 7), player(9, 0, 5, 5), player(3, 2, 0, 0)]);
}

#[test]
fn the_message_queue_is_emptied_in_order() {
    let mut state = State::new();
    let mut incoming = Mailbox::new(CLIENT_QUEUE_CAPACITY).unwrap();
    incoming.push(ServerToClientMessage::EntityPosition { entity_id: 0, pos: Vec2::new(1, 1) });
    incoming.push(ServerToClientMessage::ClientIDAssignment { new_client_id: 3 });
    incoming.push(spawn(3, 0, 0, 0));
    incoming.push(ServerToClientMessage::EntityPosition { entity_id: 0, pos: Vec2::new(2, 2) });
    process_message_queue(&mut state, &mut incoming);
    assert_eq!(incoming.len(), 0);
    assert_eq!(state.client_id(), Some(3));
    assert_eq!(state.players(), vec![player(3, 0, 2, 2)]);
    process_message_queue(&mut state, &mut incoming);
    assert_eq!(state.players(), vec![player(3, 0, 2, 2)]);
}

#[test]
fn keys_move_the_clients_own_players() {
    let mut state = State::new();
    handle_message(&mut state, ServerToClientMessage::ClientIDAssignment { new_client_id: 1 });
    handle_message(&mut state, spawn(1, 0, 0, 0));
    handle_message(&mut state, spawn(2, 1, 0, 0));
    process_events_and_input(Input { up: true, right: true, ..NO_KEYS }, &mut state);
    process_events_and_input(Input { up: true, left: true, right: true, ..NO_KEYS }, &mut state);
    process_events_and_input(Input { down: true, up: true, left: true, ..NO_KEYS }, &mut state);
    assert_eq!(state.players(), vec![player(1, 0, 0, -2), player(2, 1, 0, 0)]);
    assert!(state.running());
    process_events_and_input(Input { escape: true, ..NO_KEYS }, &mut state);
    assert!(!state.running());
    process_events_and_input(NO_KEYS, &mut state);
    assert!(!state.running());
    assert_eq!(state.players(), vec![player(1, 0, 0, -2), player(2, 1, 0, 0)]);
}

#[test]
fn a_client_without_an_id_steers_every_player() {
    let mut state = State::new();
    handle_message(&mut state, spawn(1, 0, 0, 0));
    handle_message(&mut state, spawn(2, 1, 5, 5));
    process_events_and_input(Input { down: true, left: true, ..NO_KEYS }, &mut state);
    assert_eq!(state.players(), vec![player(1, 0, -1, 1), player(2, 1, 4, 6)]);
}

#[test]
fn keys_stop_at_the_edge_of_the_grid() {
    let mut state = State::new();
    handle_message(&mut state, spawn(1, 0, i32::MIN, i32::MAX));
    process_events_and_input(Input { left: true, down: true, ..NO_KEYS }, &mut state);
    assert_eq!(state.players(), vec![player(1, 0, i32::MIN, i32::MAX)]);
    process_events_and_input(Input { left: true, right: true, up: true, down: true, ..NO_KEYS }, &mut state);
    assert_eq!(state.players(), vec![player(1, 0, i32::MIN + 1, i32::MAX)]);
}

#[test]
fn own_positions_are_reported_every_interval() {
    let mut state = State::new();
    handle_message(&mut state, spawn(1, 0, 1, 2));
    handle_message(&mut state, spawn(2, 1, 3, 4));
    handle_message(&mut state, spawn(1, 2, 5, 6));
    assert_eq!(interval_transmit_position(0, 1, &state), vec![]);
    handle_message(&mut state, ServerToClientMessage::ClientIDAssignment { new_client_id: 1 });
    let reports = vec![
        ClientToServerMessageData::EntityPosition { entity_id: 0, pos: Vec2::new(1, 2) },
        ClientToServerMessageData::EntityPosition { entity_id: 2, pos: Vec2::new(5, 6) },
    ];
    assert_eq!(interval_transmit_position(0, 1, &state), reports);
    assert_eq!(interval_transmit_position(7, 1, &state), reports);
    assert_eq!(interval_transmit_position(6, 3, &state), reports);
    assert_eq!(interval_transmit_position(7, 3, &state), vec![]);
    assert_eq!(interval_transmit_position(0, 3, &state), reports);
    handle_message(&mut state, ServerToClientMessage::ClientIDAssignment { new_client_id: 9 });
    assert_eq!(interval_transmit_position(0, 1, &state), vec![]);
}

#[test]
fn the_client_simulates_in_fixed_timesteps() {
    let mut state = State::new();
    let mover = Player { owner_client_id: 1, entity_id: 0, pos: Vec2::zero(), vel: Vec2::new(1, 0) };
    handle_message(&mut state, ServerToClientMessage::AllPlayers { players: vec![mover] });
    step(&mut state);
    assert_eq!(state.players(), vec![player(1, 0, 0, 0)]);
    assert_eq!(catch_up(&mut state, TIMESTEP_NANOS), 0);
    assert_eq!(catch_up(&mut state, 2 * TIMESTEP_NANOS), 2);
    assert_eq!(catch_up(&mut state, 1), 1);
    assert_eq!(state.players(), vec![player(1, 0, 0, 0)]);
}
