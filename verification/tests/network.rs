use multiplayer_server::client_to_server::{ClientToServerMessage, ClientToServerMessageData};
use multiplayer_server::endpoint::Endpoint;
use multiplayer_server::mailbox::MAX_QUEUE_CAPACITY;
use multiplayer_server::mailbox_registry::{MailboxRegistry, PushOutcome};
use multiplayer_server::network::{
    add_client, collect_outbound, receive_datagram, register_client, remove_client,
    signal_disconnect, Admission, Network,
    INCOMING_QUEUE_CAPACITY, MAILBOX_CAPACITY, MAX_MESSAGES_PER_CLIENT_FRAME,
};
use multiplayer_server::outbound::drain_outbound;
use multiplayer_server::server_to_client::ServerToClientMessage;
use multiplayer_server::session_directory::{RegisterError, SessionDirectory};

fn at(port: u16) -> Endpoint {
    Endpoint::v4(192, 168, 0, 1, port)
}

fn left(id: u32) -> ServerToClientMessage {
    ServerToClientMessage::ClientLeft { id }
}

fn spawn_request(send_time: i64) -> Option<ClientToServerMessage> {
    Some(ClientToServerMessage::new(send_time, ClientToServerMessageData::RequestToSpawnPlayer))
}

#[test]
fn the_usual_capacities() {
    assert_eq!(INCOMING_QUEUE_CAPACITY, 32);
    assert_eq!(MAILBOX_CAPACITY, 100);
    assert_eq!(MAX_MESSAGES_PER_CLIENT_FRAME, 128);
    assert!(Network::new(INCOMING_QUEUE_CAPACITY, MAILBOX_CAPACITY).is_some());
}

#[test]
fn capacities_must_be_in_range() {
    assert!(Network::new(0, 1).is_none());
    assert!(Network::new(1, 0).is_none());
    assert!(Network::new(MAX_QUEUE_CAPACITY + 1, 1).is_none());
    assert!(Network::new(1, MAX_QUEUE_CAPACITY + 1).is_none());
    assert!(Network::new(1, 1).is_some());
    assert!(Network::new(MAX_QUEUE_CAPACITY, MAX_QUEUE_CAPACITY).is_some());
}

#[test]
fn a_new_client_gets_session_mailbox_flag_and_its_id() {
    let mut network = Network::new(4, 4).unwrap();
    assert_eq!(add_client(&mut network, at(1), 11), Some(0));
    assert_eq!(add_client(&mut network, at(2), 12), Some(1));
    assert_eq!(network.find_client(at(2)), Some(1));
    assert_eq!(network.endpoint_of(1), Some(at(2)));
    assert_eq!(network.is_disconnected(1), Some(false));
    assert_eq!(network.pending_messages(1), Some(1));
    assert_eq!(
        network.drain(1, 10),
        vec![ServerToClientMessage::ClientIDAssignment { new_client_id: 1 }]
    );
    assert_eq!(network.pending_requests(), 2);
    let notice = network.next_request().unwrap();
    assert_eq!(notice.client_id, 0);
    assert_eq!(notice.message, ClientToServerMessageData::Connect);
    assert_eq!((notice.send_time, notice.received_time), (11, 11));
    let mut ids = network.client_ids();
    ids.sort();
    assert_eq!(ids, vec![0, 1]);
}

#[test]
fn an_endpoint_has_one_client() {
    let mut network = Network::new(4, 4).unwrap();
    assert_eq!(add_client(&mut network, at(1), 0), Some(0));
    assert_eq!(add_client(&mut network, at(1), 0), None);
    assert_eq!(network.client_ids(), vec![0]);
    assert_eq!(network.pending_requests(), 1);
    assert_eq!(network.pending_messages(0), Some(1));
}

#[test]
fn a_removed_client_leaves_nothing_behind_and_its_id_stays_unused() {
    let mut network = Network::new(4, 4).unwrap();
    add_client(&mut network, at(1), 0);
    add_client(&mut network, at(2), 0);
    assert!(remove_client(&mut network, 0));
    assert!(!remove_client(&mut network, 0));
    assert_eq!(network.find_client(at(1)), None);
    assert_eq!(network.endpoint_of(0), None);
    assert_eq!(network.pending_messages(0), None);
    assert_eq!(network.is_disconnected(0), None);
    assert_eq!(network.send(0, left(1)), PushOutcome::NoMailbox);
    assert_eq!(network.drain(0, 10), vec![]);
    assert_eq!(network.client_ids(), vec![1]);
    assert_eq!(add_client(&mut network, at(1), 0), Some(2));
}

#[test]
fn datagrams_are_attributed_and_queued() {
    let mut network = Network::new(3, 4).unwrap();
    assert_eq!(
        receive_datagram(&mut network, at(1), spawn_request(1), 5),
        Admission::Queued { client_id: 0 }
    );
    assert_eq!(network.pending_requests(), 2);
    assert_eq!(
        receive_datagram(&mut network, at(1), spawn_request(2), 6),
        Admission::Queued { client_id: 0 }
    );
    assert_eq!(
        receive_datagram(&mut network, at(1), spawn_request(3), 7),
        Admission::QueueFull { client_id: 0 }
    );
    assert_eq!(network.pending_requests(), 3);
    network.next_request();
    assert_eq!(network.next_request().unwrap().send_time, 1);
    let last = network.next_request().unwrap();
    assert_eq!((last.client_id, last.send_time, last.received_time), (0, 2, 6));
    assert!(network.next_request().is_none());
}

#[test]
fn an_undecodable_datagram_still_opens_a_session_and_harms_none() {
    let mut network = Network::new(8, 4).unwrap();
    assert_eq!(receive_datagram(&mut network, at(1), None, 5), Admission::Undecodable { client_id: 0 });
    assert_eq!(network.find_client(at(1)), Some(0));
    assert_eq!(network.pending_requests(), 1);
    assert_eq!(receive_datagram(&mut network, at(1), None, 6), Admission::Undecodable { client_id: 0 });
    assert_eq!(network.pending_requests(), 1);
    assert_eq!(network.pending_messages(0), Some(1));
    assert_eq!(network.endpoint_of(0), Some(at(1)));
}

#[test]
fn a_full_queue_drops_the_join_notice_but_not_the_session() {
    let mut network = Network::new(1, 4).unwrap();
    add_client(&mut network, at(1), 0);
    assert_eq!(
        receive_datagram(&mut network, at(2), spawn_request(0), 0),
        Admission::QueueFull { client_id: 1 }
    );
    assert_eq!(network.pending_requests(), 1);
    assert_eq!(network.endpoint_of(1), Some(at(2)));
    assert_eq!(network.pending_messages(1), Some(1));
}

#[test]
fn the_liveness_flag_can_be_set() {
    let mut network = Network::new(4, 4).unwrap();
    add_client(&mut network, at(1), 0);
    assert!(network.mark_disconnected(0));
    assert!(!network.mark_disconnected(1));
    assert_eq!(network.is_disconnected(0), Some(true));
}

#[test]
fn one_pass_sends_each_client_a_bounded_batch() {
    let mut network = Network::new(4, 8).unwrap();
    add_client(&mut network, at(1), 0);
    add_client(&mut network, at(2), 0);
    add_client(&mut network, at(3), 0);
    network.drain(0, 10);
    network.drain(1, 10);
    network.drain(2, 10);
    for i in 0..5 {
        assert_eq!(network.send(0, left(i)), PushOutcome::Queued);
    }
    network.send(1, left(9));

    let mut batches = collect_outbound(&mut network, 3);
    batches.sort_by_key(|batch| batch.client_id);
    assert_eq!(batches.len(), 3);
    assert_eq!((batches[0].client_id, batches[0].endpoint), (0, at(1)));
    assert_eq!(batches[0].messages, vec![left(0), left(1), left(2)]);
    assert_eq!((batches[1].client_id, batches[1].endpoint), (1, at(2)));
    assert_eq!(batches[1].messages, vec![left(9)]);
    assert_eq!((batches[2].client_id, batches[2].endpoint), (2, at(3)));
    assert_eq!(batches[2].messages, vec![]);
    assert_eq!(network.pending_messages(0), Some(2));

    let mut batches = collect_outbound(&mut network, 3);
    batches.sort_by_key(|batch| batch.client_id);
    assert_eq!(batches[0].messages, vec![left(3), left(4)]);
    assert_eq!(batches[1].messages, vec![]);
}

#[test]
fn a_mailbox_without_a_session_is_skipped() {
    let mut directory = SessionDirectory::new();
    let mut registry = MailboxRegistry::new();
    assert_eq!(directory.resolve(at(1)), Some(0));
    registry.create_mailbox(0, 4).unwrap();
    registry.create_mailbox(5, 4).unwrap();
    registry.push(0, left(1));
    registry.push(5, left(2));

    let pass = drain_outbound(&directory, &mut registry, 10);
    assert_eq!(pass.batches.len(), 1);
    assert_eq!((pass.batches[0].client_id, pass.batches[0].endpoint), (0, at(1)));
    assert_eq!(pass.batches[0].messages, vec![left(1)]);
    assert_eq!(pass.orphaned, vec![5]);
    assert_eq!(registry.pending(0), Some(0));
    assert_eq!(registry.pending(5), Some(1));
}

#[test]
fn dropped_requests_are_counted() {
    let mut network = Network::new(2, 4).unwrap();
    assert_eq!(network.dropped_requests(), 0);
    add_client(&mut network, at(1), 0);
    add_client(&mut network, at(2), 0);
    assert_eq!(network.dropped_requests(), 0);
    add_client(&mut network, at(3), 0);
    assert_eq!(network.dropped_requests(), 1);
    receive_datagram(&mut network, at(1), spawn_request(0), 0);
    receive_datagram(&mut network, at(1), None, 0);
    assert_eq!(network.dropped_requests(), 2);
    assert_eq!(network.pending_requests(), 2);
    network.next_request();
    receive_datagram(&mut network, at(1), spawn_request(0), 0);
    assert_eq!(network.dropped_requests(), 2);
}

#[test]
fn dropped_messages_are_counted_per_client() {
    let mut network = Network::new(8, 2).unwrap();
    add_client(&mut network, at(1), 0);
    add_client(&mut network, at(2), 0);
    network.drain(1, 10);
    assert_eq!(network.send(0, left(5)), PushOutcome::Queued);
    assert_eq!(network.send(0, left(6)), PushOutcome::Dropped);
    network.broadcast(left(7));
    network.broadcast_except(1, left(8));
    network.broadcast_except(0, left(9));
    assert_eq!(network.dropped_messages(0), Some(3));
    assert_eq!(network.dropped_messages(1), Some(0));
    assert_eq!(network.dropped_messages(2), None);
    assert_eq!(network.send(2, left(5)), PushOutcome::NoMailbox);
    assert_eq!(
        network.drain(0, 10),
        vec![ServerToClientMessage::ClientIDAssignment { new_client_id: 0 }, left(5)]
    );
    assert_eq!(network.drain(1, 10), vec![left(7), left(9)]);
    assert_eq!(network.dropped_messages(0), Some(3));
}

#[test]
fn a_client_can_be_registered_under_a_chosen_id() {
    let mut network = Network::new(4, 4).unwrap();
    assert_eq!(register_client(&mut network, 7, at(1), 3), Ok(()));
    assert_eq!(network.find_client(at(1)), Some(7));
    assert_eq!(network.is_disconnected(7), Some(false));
    assert_eq!(
        network.drain(7, 10),
        vec![ServerToClientMessage::ClientIDAssignment { new_client_id: 7 }]
    );
    let notice = network.next_request().unwrap();
    assert_eq!((notice.client_id, notice.send_time, notice.received_time), (7, 3, 3));
    assert_eq!(notice.message, ClientToServerMessageData::Connect);

    assert_eq!(register_client(&mut network, 7, at(2), 3), Err(RegisterError::ClientIdInUse));
    assert_eq!(register_client(&mut network, 8, at(1), 3), Err(RegisterError::EndpointInUse));
    assert_eq!(network.client_ids(), vec![7]);
    assert_eq!(network.pending_requests(), 0);
    assert_eq!(add_client(&mut network, at(2), 0), Some(8));
}

#[test]
fn a_new_endpoint_is_turned_away_when_no_id_is_left() {
    let mut network = Network::new(4, 4).unwrap();
    assert_eq!(register_client(&mut network, u32::MAX - 1, at(1), 0), Ok(()));
    assert_eq!(receive_datagram(&mut network, at(2), spawn_request(0), 0), Admission::NoIdLeft);
    assert_eq!(receive_datagram(&mut network, at(2), None, 0), Admission::NoIdLeft);
    assert_eq!(add_client(&mut network, at(2), 0), None);
    assert_eq!(network.find_client(at(2)), None);
    assert_eq!(network.client_ids(), vec![u32::MAX - 1]);
    assert_eq!(network.pending_requests(), 1);
    assert_eq!(
        receive_datagram(&mut network, at(1), spawn_request(0), 0),
        Admission::Queued { client_id: u32::MAX - 1 }
    );
}

#[test]
fn a_detected_disconnect_sets_the_flag_and_tells_the_server() {
    let mut network = Network::new(2, 4).unwrap();
    add_client(&mut network, at(1), 0);
    assert!(signal_disconnect(&mut network, 0, 9));
    assert_eq!(network.is_disconnected(0), Some(true));
    network.next_request();
    let notice = network.next_request().unwrap();
    assert_eq!(notice.message, ClientToServerMessageData::Disconnect);
    assert_eq!((notice.client_id, notice.send_time, notice.received_time), (0, 9, 9));

    assert!(!signal_disconnect(&mut network, 5, 9));
    assert!(signal_disconnect(&mut network, 0, 9));
    assert_eq!(network.dropped_requests(), 0);
    assert!(signal_disconnect(&mut network, 0, 9));
    assert_eq!(network.dropped_requests(), 1);
    assert_eq!(network.pending_requests(), 2);
}
