use multiplayer_server::client_to_server::{
    ClientToServerMessage, ClientToServerMessageBundle, ClientToServerMessageData,
};
use multiplayer_server::game_objects::Player;
use multiplayer_server::ingestion::IngestionQueue;
use multiplayer_server::mailbox::{Mailbox, MAX_QUEUE_CAPACITY};
use multiplayer_server::mailbox_registry::{
    broadcast_to_all, broadcast_to_all_except, send_to_one_client, CreateMailboxError,
    MailboxRegistry, PushOutcome,
};
use multiplayer_server::server_to_client::ServerToClientMessage;
use multiplayer_server::vec2::Vec2;

fn joined(id: u32) -> ServerToClientMessage {
    ServerToClientMessage::ClientJoined { id }
}

fn chat(client_id: u32, text: &str) -> ClientToServerMessageBundle {
    let data = ClientToServerMessageData::ChatMessage { message: text.to_string() };
    ClientToServerMessageBundle::new(client_id, ClientToServerMessage::new(1, data), 2)
}

#[test]
fn full_mailbox_drops_the_newest_and_drains_in_order() {
    for capacity in [1usize, 2, 5, 100] {
        let mut mailbox = Mailbox::new(capacity).unwrap();
        for i in 0..capacity {
            assert!(mailbox.push(joined(i as u32)));
        }
        assert!(!mailbox.push(joined(capacity as u32)));
        assert_eq!(mailbox.len(), capacity);
        assert_eq!(mailbox.capacity(), capacity);
        let expected: Vec<ServerToClientMessage> = (0..capacity).map(|i| joined(i as u32)).collect();
        assert_eq!(mailbox.drain(capacity + 1), expected);
        assert_eq!(mailbox.len(), 0);
    }
}

#[test]
fn mailbox_capacity_must_be_in_range() {
    assert!(Mailbox::new(0).is_none());
    assert!(Mailbox::new(MAX_QUEUE_CAPACITY + 1).is_none());
    assert!(Mailbox::new(usize::MAX).is_none());
    assert_eq!(Mailbox::new(MAX_QUEUE_CAPACITY).unwrap().capacity(), 65_536);
    assert_eq!(Mailbox::new(1).unwrap().len(), 0);
}

#[test]
fn drain_takes_at_most_what_is_asked_and_leaves_the_rest() {
    let mut mailbox = Mailbox::new(8).unwrap();
    for i in 0..5 {
        mailbox.push(joined(i));
    }
    assert_eq!(mailbox.drain(0), vec![]);
    assert_eq!(mailbox.drain(2), vec![joined(0), joined(1)]);
    assert_eq!(mailbox.len(), 3);
    assert!(mailbox.push(joined(5)));
    assert_eq!(mailbox.drain(usize::MAX), vec![joined(2), joined(3), joined(4), joined(5)]);
    assert_eq!(mailbox.drain(3), vec![]);
}

#[test]
fn pop_takes_the_oldest_message() {
    let mut mailbox = Mailbox::new(2).unwrap();
    assert_eq!(mailbox.pop(), None);
    mailbox.push(ServerToClientMessage::Welcome { server_message: "hi".to_string() });
    mailbox.push(ServerToClientMessage::ChatMessage { from: 3, message: "yo".to_string() });
    assert_eq!(
        mailbox.pop(),
        Some(ServerToClientMessage::Welcome { server_message: "hi".to_string() })
    );
    assert!(mailbox.push(joined(1)));
    assert_eq!(
        mailbox.pop(),
        Some(ServerToClientMessage::ChatMessage { from: 3, message: "yo".to_string() })
    );
    assert_eq!(mailbox.pop(), Some(joined(1)));
    assert_eq!(mailbox.pop(), None);
}

#[test]
fn a_mailbox_wraps_around_many_times() {
    let mut mailbox = Mailbox::new(3).unwrap();
    for round in 0..20u32 {
        assert!(mailbox.push(joined(2 * round)));
        assert!(mailbox.push(joined(2 * round + 1)));
        assert_eq!(mailbox.len(), 2);
        assert_eq!(mailbox.drain(5), vec![joined(2 * round), joined(2 * round + 1)]);
    }
}

#[test]
fn ingestion_queue_is_bounded_and_first_in_first_out() {
    let mut queue = IngestionQueue::new(2).unwrap();
    assert_eq!((queue.len(), queue.capacity()), (0, 2));
    assert!(queue.push(chat(1, "a")));
    assert!(queue.push(chat(2, "b")));
    assert!(!queue.push(chat(3, "c")));
    assert_eq!(queue.len(), 2);
    assert_eq!(queue.pop(), Some(chat(1, "a")));
    assert!(queue.push(chat(4, "d")));
    assert_eq!(queue.pop(), Some(chat(2, "b")));
    assert_eq!(queue.pop(), Some(chat(4, "d")));
    assert_eq!(queue.pop(), None);
    assert!(IngestionQueue::new(0).is_none());
    assert!(IngestionQueue::new(MAX_QUEUE_CAPACITY + 1).is_none());
}

#[test]
fn bundle_keeps_the_times_and_the_request() {
    let bundle = chat(9, "hello");
    assert_eq!(bundle.client_id, 9);
    assert_eq!(bundle.send_time, 1);
    assert_eq!(bundle.received_time, 2);
    assert_eq!(
        bundle.message,
        ClientToServerMessageData::ChatMessage { message: "hello".to_string() }
    );
    assert_eq!(bundle.clone(), bundle);
}

#[test]
fn create_mailbox_refuses_a_second_one_and_bad_capacities() {
    let mut registry = MailboxRegistry::new();
    assert_eq!(registry.create_mailbox(1, 4), Ok(()));
    assert_eq!(registry.create_mailbox(1, 4), Err(CreateMailboxError::AlreadyExists));
    assert_eq!(registry.create_mailbox(1, 0), Err(CreateMailboxError::AlreadyExists));
    assert_eq!(registry.create_mailbox(2, 0), Err(CreateMailboxError::InvalidCapacity));
    assert_eq!(
        registry.create_mailbox(2, MAX_QUEUE_CAPACITY + 1),
        Err(CreateMailboxError::InvalidCapacity)
    );
    assert!(registry.contains(1));
    assert!(!registry.contains(2));
    assert_eq!(registry.pending(1), Some(0));
    assert_eq!(registry.pending(2), None);
    assert_eq!(registry.is_disconnected(1), Some(false));
}

#[test]
fn push_reports_what_became_of_the_message() {
    let mut registry = MailboxRegistry::new();
    registry.create_mailbox(1, 1).unwrap();
    assert_eq!(registry.push(1, joined(0)), PushOutcome::Queued);
    assert_eq!(registry.push(1, joined(1)), PushOutcome::Dropped);
    assert_eq!(registry.push(2, joined(2)), PushOutcome::NoMailbox);
    assert_eq!(send_to_one_client(&mut registry, 2, joined(2)), PushOutcome::NoMailbox);
    assert_eq!(registry.drain(1, 10), vec![joined(0)]);
    assert_eq!(send_to_one_client(&mut registry, 1, joined(3)), PushOutcome::Queued);
    assert_eq!(registry.drain(1, 10), vec![joined(3)]);
    assert_eq!(registry.drain(2, 10), vec![]);
}

#[test]
fn the_registry_counts_what_each_mailbox_drops() {
    let mut registry = MailboxRegistry::new();
    registry.create_mailbox(1, 1).unwrap();
    registry.create_mailbox(2, 3).unwrap();
    assert_eq!(registry.dropped(1), Some(0));
    for i in 0..5 {
        broadcast_to_all(&mut registry, joined(i));
    }
    assert_eq!(registry.dropped(1), Some(4));
    assert_eq!(registry.dropped(2), Some(2));
    assert_eq!(registry.dropped(3), None);
    registry.drain(1, 1);
    assert_eq!(registry.push(1, joined(9)), PushOutcome::Queued);
    assert_eq!(registry.dropped(1), Some(4));
}

#[test]
fn broadcast_reaches_every_mailbox_that_has_room() {
    let mut registry = MailboxRegistry::new();
    registry.create_mailbox(1, 1).unwrap();
    registry.create_mailbox(2, 2).unwrap();
    registry.create_mailbox(3, 2).unwrap();
    broadcast_to_all(&mut registry, joined(7));
    broadcast_to_all(&mut registry, joined(8));
    assert_eq!(registry.drain(1, 10), vec![joined(7)]);
    assert_eq!(registry.drain(2, 10), vec![joined(7), joined(8)]);
    assert_eq!(registry.drain(3, 10), vec![joined(7), joined(8)]);
}

#[test]
fn broadcast_skips_the_sender() {
    let mut registry = MailboxRegistry::new();
    for id in 0..4 {
        registry.create_mailbox(id, 3).unwrap();
    }
    let players = vec![Player::new(1, 0)];
    let message = ServerToClientMessage::AllPlayers { players };
    broadcast_to_all_except(&mut registry, 2, message.clone());
    broadcast_to_all_except(&mut registry, 9, joined(9));
    assert_eq!(registry.drain(0, 10), vec![message.clone(), joined(9)]);
    assert_eq!(registry.drain(1, 10), vec![message.clone(), joined(9)]);
    assert_eq!(registry.drain(2, 10), vec![joined(9)]);
    assert_eq!(registry.drain(3, 10), vec![message, joined(9)]);
}

#[test]
fn removing_a_mailbox_discards_its_messages() {
    let mut registry = MailboxRegistry::new();
    registry.create_mailbox(1, 3).unwrap();
    registry.create_mailbox(2, 3).unwrap();
    registry.push(1, joined(0));
    registry.push(2, joined(0));
    assert!(registry.remove(1));
    assert!(!registry.remove(1));
    assert_eq!(registry.pending(1), None);
    assert_eq!(registry.client_ids(), vec![2]);
    assert_eq!(registry.create_mailbox(1, 3), Ok(()));
    assert_eq!(registry.pending(1), Some(0));
    assert_eq!(registry.pending(2), Some(1));
}

#[test]
fn liveness_flag_is_set_per_client() {
    let mut registry = MailboxRegistry::new();
    registry.create_mailbox(1, 3).unwrap();
    registry.create_mailbox(2, 3).unwrap();
    assert!(registry.mark_disconnected(2));
    assert!(!registry.mark_disconnected(3));
    assert_eq!(registry.is_disconnected(1), Some(false));
    assert_eq!(registry.is_disconnected(2), Some(true));
    assert_eq!(registry.is_disconnected(3), None);
}

#[test]
fn cloned_messages_say_the_same() {
    let messages = vec![
        ServerToClientMessage::ClientIDAssignment { new_client_id: 4 },
        ServerToClientMessage::Welcome { server_message: "welcome".to_string() },
        joined(1),
        ServerToClientMessage::ClientLeft { id: 2 },
        ServerToClientMessage::ChatMessage { from: 3, message: "gg".to_string() },
        ServerToClientMessage::SpawnPlayer { owner_client_id: 1, entity_id: 2, pos: Vec2::new(3, 4) },
        ServerToClientMessage::EntityPosition { entity_id: 2, pos: Vec2::new(-3, 4) },
        ServerToClientMessage::AllPlayers { players: vec![Player::new(1, 0), Player::new(2, 1)] },
    ];
    for message in &messages {
        assert_eq!(&message.clone(), message);
    }
    let requests = vec![
        ClientToServerMessageData::Connect,
        ClientToServerMessageData::Disconnect,
        ClientToServerMessageData::ChatMessage { message: "hi".to_string() },
        ClientToServerMessageData::RequestToSpawnPlayer,
        ClientToServerMessageData::RequestAllPlayers,
        ClientToServerMessageData::EntityPosition { entity_id: 1, pos: Vec2::new(1, 2) },
    ];
    for request in &requests {
        assert_eq!(&request.clone(), request);
    }
}
