use multiplayer_server::client_to_server::{
    ClientToServerMessage, ClientToServerMessageBundle, ClientToServerMessageData,
};
use multiplayer_server::endpoint::Endpoint;
use multiplayer_server::game::{
    handle_message, main_loop_pass, process_message_queue, RequestOutcome,
};
use multiplayer_server::game_objects::Player;
use multiplayer_server::network::{add_client, receive_datagram, Admission, Network};
use multiplayer_server::server_to_client::ServerToClientMessage;
use multiplayer_server::state::{catch_up, step, State, TIMESTEP_NANOS};
use multiplayer_server::vec2::Vec2;

fn endpoint(last: u8) -> Endpoint {
    Endpoint::v4(127, 0, 0, last, 4000 + last as u16)
}

/// A server with `clients` clients whose mailboxes and ingestion queue are
/// empty.
fn quiet_server(clients: u8) -> (State, Network) {
    let mut network = Network::new(32, 100).unwrap();
    let mut state = State::new();
    for i in 0..clients {
        assert_eq!(add_client(&mut network, endpoint(i), 0), Some(i as u32));
    }
    process_message_queue(&mut state, &mut network);
    for i in 0..clients {
        network.drain(i as u32, 1000);
    }
    (state, network)
}

fn request(client_id: u32, data: ClientToServerMessageData) -> ClientToServerMessageBundle {
    ClientToServerMessageBundle::new(client_id, ClientToServerMessage::new(0, data), 0)
}

#[test]
fn spawn_request_creates_entity_zero_and_tells_everyone() {
    let (mut state, mut network) = quiet_server(3);
    let a = 1;
    assert!(network.enqueue_request(request(a, ClientToServerMessageData::RequestToSpawnPlayer)));
    main_loop_pass(&mut state, &mut network, 0);

    let expected = Player { owner_client_id: a, entity_id: 0, pos: Vec2::zero(), vel: Vec2::zero() };
    assert_eq!(state.player(0), Some(expected));
    assert_eq!(state.next_eid(), 1);
    for client in 0..3 {
        assert_eq!(
            network.drain(client, 1000),
            vec![ServerToClientMessage::SpawnPlayer {
                owner_client_id: a,
                entity_id: 0,
                pos: Vec2::new(0, 0),
            }]
        );
    }
}

#[test]
fn owner_moves_its_entity_and_the_others_are_told() {
    let (mut state, mut network) = quiet_server(3);
    let b = 2;
    handle_message(
        &mut state,
        &mut network,
        request(b, ClientToServerMessageData::RequestToSpawnPlayer),
    );
    for client in 0..3 {
        network.drain(client, 1000);
    }
    let update = ClientToServerMessageData::EntityPosition { entity_id: 0, pos: Vec2::new(5, 5) };
    assert!(network.enqueue_request(request(b, update)));
    assert_eq!(process_message_queue(&mut state, &mut network), 0);

    assert_eq!(state.player(0).unwrap().pos, Vec2::new(5, 5));
    let told = vec![ServerToClientMessage::EntityPosition { entity_id: 0, pos: Vec2::new(5, 5) }];
    assert_eq!(network.drain(0, 1000), told);
    assert_eq!(network.drain(1, 1000), told);
    assert_eq!(network.drain(b, 1000), vec![]);
}

#[test]
fn foreign_position_update_is_rejected_without_broadcast() {
    let (mut state, mut network) = quiet_server(2);
    handle_message(
        &mut state,
        &mut network,
        request(0, ClientToServerMessageData::RequestToSpawnPlayer),
    );
    network.drain(0, 1000);
    network.drain(1, 1000);
    let update = ClientToServerMessageData::EntityPosition { entity_id: 0, pos: Vec2::new(9, 9) };
    assert_eq!(handle_message(&mut state, &mut network, request(1, update)), RequestOutcome::Rejected);
    assert_eq!(state.player(0).unwrap().pos, Vec2::zero());
    assert_eq!(network.pending_messages(0), Some(0));
    assert_eq!(network.pending_messages(1), Some(0));
}

#[test]
fn position_update_for_missing_entity_is_rejected() {
    let (mut state, mut network) = quiet_server(2);
    let update = ClientToServerMessageData::EntityPosition { entity_id: 7, pos: Vec2::new(1, 1) };
    assert!(network.enqueue_request(request(0, update)));
    assert_eq!(process_message_queue(&mut state, &mut network), 1);
    assert_eq!(state.player(7), None);
    assert_eq!(network.pending_messages(1), Some(0));
}

#[test]
fn all_players_go_to_the_requester_alone() {
    let (mut state, mut network) = quiet_server(3);
    let c = 2;
    handle_message(&mut state, &mut network, request(0, ClientToServerMessageData::RequestToSpawnPlayer));
    handle_message(&mut state, &mut network, request(1, ClientToServerMessageData::RequestToSpawnPlayer));
    for client in 0..3 {
        network.drain(client, 1000);
    }
    assert!(network.enqueue_request(request(c, ClientToServerMessageData::RequestAllPlayers)));
    main_loop_pass(&mut state, &mut network, 0);

    assert_eq!(
        network.drain(c, 1000),
        vec![ServerToClientMessage::AllPlayers {
            players: vec![Player::new(0, 0), Player::new(1, 1)],
        }]
    );
    assert_eq!(network.pending_messages(0), Some(0));
    assert_eq!(network.pending_messages(1), Some(0));
}

#[test]
fn three_timesteps_move_by_three_velocities_however_time_is_cut() {
    let paces: Vec<Vec<u64>> = vec![
        vec![3 * TIMESTEP_NANOS + 1],
        vec![TIMESTEP_NANOS + 1, TIMESTEP_NANOS, TIMESTEP_NANOS],
        vec![1, TIMESTEP_NANOS / 2, TIMESTEP_NANOS / 2, 2 * TIMESTEP_NANOS],
        vec![TIMESTEP_NANOS; 3].into_iter().chain(vec![1]).collect(),
    ];
    for pace in paces {
        let mut state = State::new();
        assert_eq!(state.spawn_player(0), Some(0));
        assert!(state.set_velocity(0, Vec2::new(1, 0)));
        let mut steps = 0;
        for elapsed in pace {
            steps += catch_up(&mut state, elapsed);
        }
        assert_eq!(steps, 3);
        assert_eq!(state.player(0).unwrap().pos, Vec2::new(3, 0));
        assert_eq!(state.time_since_last_update(), 1);
    }
}

#[test]
fn step_moves_every_player_by_its_velocity() {
    let mut state = State::new();
    state.spawn_player(0);
    state.spawn_player(1);
    state.set_velocity(0, Vec2::new(1, 0));
    state.set_velocity(1, Vec2::new(-2, 3));
    step(&mut state);
    step(&mut state);
    step(&mut state);
    assert_eq!(state.player(0).unwrap().pos, Vec2::new(3, 0));
    assert_eq!(state.player(1).unwrap().pos, Vec2::new(-6, 9));
}

#[test]
fn first_datagram_opens_a_session() {
    let mut network = Network::new(32, 100).unwrap();
    let hello = ClientToServerMessage::new(5, ClientToServerMessageData::RequestToSpawnPlayer);
    assert_eq!(
        receive_datagram(&mut network, endpoint(9), Some(hello), 7),
        Admission::Queued { client_id: 0 }
    );
    assert_eq!(network.find_client(endpoint(9)), Some(0));
    assert_eq!(network.endpoint_of(0), Some(endpoint(9)));
    assert_eq!(network.is_disconnected(0), Some(false));
    assert_eq!(
        network.drain(0, 10),
        vec![ServerToClientMessage::ClientIDAssignment { new_client_id: 0 }]
    );
    let first = network.next_request().unwrap();
    assert_eq!(first.client_id, 0);
    assert_eq!(first.message, ClientToServerMessageData::Connect);
    assert_eq!((first.send_time, first.received_time), (7, 7));
    let second = network.next_request().unwrap();
    assert_eq!(second.message, ClientToServerMessageData::RequestToSpawnPlayer);
    assert_eq!((second.client_id, second.send_time, second.received_time), (0, 5, 7));
    assert!(network.next_request().is_none());
}
