//! The session layer of the server: the session directory, the mailbox
//! registry and the ingestion queue, kept consistent with each other.

use vstd::prelude::*;
use crate::client_to_server::{
    AttributedRequest,
    ClientRequest,
    ClientToServerMessage,
    ClientToServerMessageBundle,
    ClientToServerMessageData,
};
use crate::endpoint::Endpoint;
use crate::ingestion::{admitted, IngestionQueue};
use crate::mailbox::{contents_of, MAX_QUEUE_CAPACITY};
use crate::mailbox_registry::{
    broadcast_to_all,
    broadcast_to_all_except,
    counted,
    delivered_to_all,
    delivered_to_all_except,
    delivered_to_one,
    send_to_one_client,
    MailboxModel,
    MailboxRegistry,
    PushOutcome,
};
use crate::outbound::{after_pass, batch_is_due, drain_outbound, has_batch_for, OutboundBatch};
use crate::server_to_client::{ServerMessageContent, ServerToClientMessage};
use crate::session_directory::{DirectoryModel, RegisterError, SessionDirectory};

verus! {

/// The number of requests the ingestion queue of a server has room for,
/// unless it is made with another capacity.
pub const INCOMING_QUEUE_CAPACITY: usize = 32;

/// The number of messages the mailbox of a client has room for, unless the
/// server is made with another capacity.
pub const MAILBOX_CAPACITY: usize = 100;

/// The number of messages that one pass of the outbound dispatcher sends to
/// one client at most.
pub const MAX_MESSAGES_PER_CLIENT_FRAME: usize = 128;

/// What the session layer holds: the sessions, the mailboxes, the requests
/// waiting in the ingestion queue, the number of requests that were dropped
/// because that queue was full, and the capacities of the queue and of the
/// mailbox that a new client gets.
pub ghost struct NetworkModel {
    pub directory: DirectoryModel,
    pub mailboxes: Map<u32, MailboxModel>,
    pub inbox: Seq<AttributedRequest>,
    pub dropped_requests: nat,
    pub inbox_capacity: nat,
    pub mailbox_capacity: nat,
}

/// The request by which the server tells itself that the client `id` has
/// joined at the time `now`.
pub open spec fn connect_notice(id: u32, now: i64) -> AttributedRequest {
    AttributedRequest {
        client_id: id,
        send_time: now,
        received_time: now,
        request: ClientRequest::Connect,
    }
}

/// The request by which the server tells itself that the client `id` was
/// found to have gone at the time `now`.
pub open spec fn disconnect_notice(id: u32, now: i64) -> AttributedRequest {
    AttributedRequest {
        client_id: id,
        send_time: now,
        received_time: now,
        request: ClientRequest::Disconnect,
    }
}

/// What the server learns from one datagram.
pub open spec fn attributed(
    id: u32,
    message: ClientToServerMessage,
    received_time: i64,
) -> AttributedRequest {
    AttributedRequest {
        client_id: id,
        send_time: message.send_time,
        received_time,
        request: message.data@,
    }
}

impl NetworkModel {
    /// A client has a session exactly if it has a mailbox; the sessions are
    /// well-formed; no queue holds more than its capacity, and each capacity
    /// lies between one and `MAX_QUEUE_CAPACITY`.
    pub open spec fn wf(self) -> bool {
        &&& self.directory.wf()
        &&& forall|id: u32|
            self.directory.sessions.contains_key(id) <==> self.mailboxes.contains_key(id)
        &&& forall|id: u32| #[trigger]
            self.mailboxes.contains_key(id) ==> self.mailboxes[id].items.len()
                <= self.mailboxes[id].capacity
        &&& self.inbox.len() <= self.inbox_capacity
        &&& 0 < self.inbox_capacity <= MAX_QUEUE_CAPACITY
        &&& 0 < self.mailbox_capacity <= MAX_QUEUE_CAPACITY
    }

    /// A session layer without clients and without waiting requests.
    pub open spec fn empty(inbox_capacity: nat, mailbox_capacity: nat) -> NetworkModel {
        NetworkModel {
            directory: DirectoryModel::empty(),
            mailboxes: Map::empty(),
            inbox: Seq::empty(),
            dropped_requests: 0,
            inbox_capacity,
            mailbox_capacity,
        }
    }

    /// The session layer after an attempt to put `request` into the
    /// ingestion queue: a full queue drops the request and counts that.
    pub open spec fn with_request(self, request: AttributedRequest) -> NetworkModel {
        NetworkModel {
            inbox: admitted(self.inbox, self.inbox_capacity, request),
            dropped_requests: if self.inbox.len() < self.inbox_capacity {
                self.dropped_requests
            } else {
                counted(self.dropped_requests)
            },
            ..self
        }
    }

    /// The session layer after a client was added at `endpoint` at the time
    /// `now`. If the endpoint has no session and an id is left, the client
    /// gets the next id, a session, and a mailbox that holds the assignment
    /// of its id; and the server is told of the new client through the
    /// ingestion queue, if that has room. Otherwise nothing changes.
    pub open spec fn after_add_client(self, endpoint: Endpoint, now: i64) -> NetworkModel {
        if self.directory.admits(endpoint) {
            let id = self.directory.next_id as u32;
            NetworkModel {
                directory: self.directory.after_resolve(endpoint),
                mailboxes: self.mailboxes.insert(
                    id,
                    MailboxModel::fresh(self.mailbox_capacity).pushed(
                        ServerMessageContent::ClientIDAssignment { new_client_id: id },
                    ),
                ),
                ..self
            }.with_request(connect_notice(id, now))
        } else {
            self
        }
    }

    /// The session layer after the client `id` was added at `endpoint` at
    /// the time `now` under an id that the caller chose: as after
    /// `add_client`, but unchanged if the id or the endpoint has a session.
    pub open spec fn after_register_client(
        self,
        id: u32,
        endpoint: Endpoint,
        now: i64,
    ) -> NetworkModel {
        if self.directory.register_error(id, endpoint) is Some {
            self
        } else {
            NetworkModel {
                directory: self.directory.after_register(id, endpoint),
                mailboxes: self.mailboxes.insert(
                    id,
                    MailboxModel::fresh(self.mailbox_capacity).pushed(
                        ServerMessageContent::ClientIDAssignment { new_client_id: id },
                    ),
                ),
                ..self
            }.with_request(connect_notice(id, now))
        }
    }

    /// The id of the client that was added at `endpoint`, if one was.
    pub open spec fn added_client(self, endpoint: Endpoint) -> Option<u32> {
        if self.directory.admits(endpoint) {
            Some(self.directory.next_id as u32)
        } else {
            None
        }
    }

    /// The session layer after the client `id` was removed: its session and
    /// its mailbox are gone, with every message that waited in the mailbox.
    pub open spec fn after_remove_client(self, id: u32) -> NetworkModel {
        NetworkModel {
            directory: self.directory.after_remove(id),
            mailboxes: self.mailboxes.remove(id),
            ..self
        }
    }

    /// The session layer after the client `id` was found to have gone at the
    /// time `now`: the server is told through the ingestion queue, if that
    /// has room, and the liveness flag of the client is set, if it has one.
    pub open spec fn after_disconnect_signal(self, id: u32, now: i64) -> NetworkModel {
        let told = self.with_request(disconnect_notice(id, now));
        if told.mailboxes.contains_key(id) {
            NetworkModel {
                mailboxes: told.mailboxes.insert(
                    id,
                    MailboxModel { disconnected: true, ..told.mailboxes[id] },
                ),
                ..told
            }
        } else {
            told
        }
    }

    /// The session layer after a datagram came from `endpoint` at the time
    /// `received_time`. A new endpoint gets a client added first. If the
    /// payload could be decoded, the request goes to the ingestion queue
    /// under the client's id, if the queue has room.
    pub open spec fn after_datagram(
        self,
        endpoint: Endpoint,
        payload: Option<ClientToServerMessage>,
        received_time: i64,
    ) -> NetworkModel {
        let joined = self.after_add_client(endpoint, received_time);
        match (self.directory.resolved(endpoint), payload) {
            (Some(id), Some(message)) => joined.with_request(
                attributed(id, message, received_time),
            ),
            _ => joined,
        }
    }

    /// What becomes of a datagram from `endpoint`.
    pub open spec fn admission(
        self,
        endpoint: Endpoint,
        payload: Option<ClientToServerMessage>,
        received_time: i64,
    ) -> Admission {
        let joined = self.after_add_client(endpoint, received_time);
        match (self.directory.resolved(endpoint), payload) {
            (None, _) => Admission::NoIdLeft,
            (Some(id), None) => Admission::Undecodable { client_id: id },
            (Some(id), Some(_)) => if joined.inbox.len() < joined.inbox_capacity {
                Admission::Queued { client_id: id }
            } else {
                Admission::QueueFull { client_id: id }
            },
        }
    }
}

/// What became of one datagram.
#[derive(Clone, Copy, Debug, PartialEq, Eq, Structural)]
pub enum Admission {
    /// The request waits in the ingestion queue.
    Queued { client_id: u32 },
    /// The ingestion queue was full and the request was dropped.
    QueueFull { client_id: u32 },
    /// The payload could not be decoded and the datagram was discarded. The
    /// client's session is not affected.
    Undecodable { client_id: u32 },
    /// The endpoint is new and every client id has been issued: the datagram
    /// was discarded.
    NoIdLeft,
}

/// The session layer of the server.
pub struct Network {
    directory: SessionDirectory,
    mailboxes: MailboxRegistry,
    inbox: IngestionQueue,
    dropped_requests: u64,
    mailbox_capacity: usize,
}

impl View for Network {
    type V = NetworkModel;

    closed spec fn view(&self) -> NetworkModel {
        NetworkModel {
            directory: self.directory@,
            mailboxes: self.mailboxes@,
            inbox: self.inbox.items(),
            dropped_requests: self.dropped_requests as nat,
            inbox_capacity: self.inbox.limit(),
            mailbox_capacity: self.mailbox_capacity as nat,
        }
    }
}

impl Network {
    /// Every part is well-formed, and so is what the parts hold together.
    pub closed spec fn wf(&self) -> bool {
        &&& self.directory.wf()
        &&& self.mailboxes.wf()
        &&& self.inbox.wf()
        &&& self@.wf()
    }

    /// What a well-formed session layer holds is well-formed.
    pub proof fn lemma_model_wf(&self)
        requires
            self.wf(),
        ensures
            self@.wf(),
    {
    }

    /// Proves the part of well-formedness that the mailboxes owe.
    proof fn lemma_boxes_bounded(&self)
        requires
            self.mailboxes.wf(),
        ensures
            forall|id: u32| #[trigger]
                self.mailboxes@.contains_key(id) ==> self.mailboxes@[id].items.len()
                    <= self.mailboxes@[id].capacity,
    {
        assert forall|id: u32| #[trigger] self.mailboxes@.contains_key(id) implies self.mailboxes@[id].items.len()
            <= self.mailboxes@[id].capacity by {
            self.mailboxes.lemma_mailbox_bounds(id);
        }
    }

    /// A session layer without clients, whose ingestion queue has room for
    /// `inbox_capacity` requests and whose mailboxes will have room for
    /// `mailbox_capacity` messages each. Returns `None` unless both
    /// capacities lie between one and `MAX_QUEUE_CAPACITY`.
    pub fn new(inbox_capacity: usize, mailbox_capacity: usize) -> (network: Option<Network>)
        ensures
            network is Some <==> 0 < inbox_capacity <= MAX_QUEUE_CAPACITY && 0 < mailbox_capacity
                <= MAX_QUEUE_CAPACITY,
            network is Some ==> network->Some_0.wf() && network->Some_0@ == NetworkModel::empty(
                inbox_capacity as nat,
                mailbox_capacity as nat,
            ),
    {
        if mailbox_capacity == 0 || mailbox_capacity > MAX_QUEUE_CAPACITY {
            return None;
        }
        match IngestionQueue::new(inbox_capacity) {
            None => None,
            Some(inbox) => {
                let network = Network {
                    directory: SessionDirectory::new(),
                    mailboxes: MailboxRegistry::new(),
                    inbox,
                    dropped_requests: 0,
                    mailbox_capacity,
                };
                proof {
                    network.inbox.lemma_bounds();
                }
                Some(network)
            },
        }
    }

    /// The client whose session is at `endpoint`, if any.
    pub fn find_client(&self, endpoint: Endpoint) -> (id: Option<u32>)
        requires
            self.wf(),
        ensures
            id == self@.directory.find(endpoint),
    {
        self.directory.find(endpoint)
    }

    /// The endpoint of the client `id`, if it has a session.
    pub fn endpoint_of(&self, id: u32) -> (endpoint: Option<Endpoint>)
        requires
            self.wf(),
        ensures
            endpoint == self@.directory.lookup(id),
    {
        self.directory.lookup(id)
    }

    /// The clients that have a session, each once.
    pub fn client_ids(&self) -> (ids: Vec<u32>)
        requires
            self.wf(),
        ensures
            ids@.no_duplicates(),
            forall|id: u32| ids@.contains(id) <==> self@.mailboxes.contains_key(id),
    {
        self.mailboxes.client_ids()
    }

    /// The number of requests waiting in the ingestion queue.
    pub fn pending_requests(&self) -> (count: usize)
        ensures
            count == self@.inbox.len(),
    {
        self.inbox.len()
    }

    /// The number of requests that were dropped because the ingestion queue
    /// was full.
    pub fn dropped_requests(&self) -> (count: u64)
        ensures
            count == self@.dropped_requests,
    {
        self.dropped_requests
    }

    /// The number of messages for the client `id` that were dropped because
    /// its mailbox was full, if it has a mailbox.
    pub fn dropped_messages(&self, id: u32) -> (count: Option<u64>)
        requires
            self.wf(),
        ensures
            count is Some <==> self@.mailboxes.contains_key(id),
            count is Some ==> count->Some_0 == self@.mailboxes[id].dropped,
    {
        self.mailboxes.dropped(id)
    }

    /// The number of messages waiting for the client `id`, if it has a
    /// mailbox.
    pub fn pending_messages(&self, id: u32) -> (count: Option<usize>)
        requires
            self.wf(),
        ensures
            count is Some <==> self@.mailboxes.contains_key(id),
            count is Some ==> count->Some_0 == self@.mailboxes[id].items.len(),
    {
        self.mailboxes.pending(id)
    }

    /// Whether the client `id` is known to have gone, if it has a mailbox.
    pub fn is_disconnected(&self, id: u32) -> (flag: Option<bool>)
        requires
            self.wf(),
        ensures
            flag is Some <==> self@.mailboxes.contains_key(id),
            flag is Some ==> flag->Some_0 == self@.mailboxes[id].disconnected,
    {
        self.mailboxes.is_disconnected(id)
    }

    /// Sets the liveness flag of the client `id`: the client is known to
    /// have gone. Returns whether the client has a mailbox.
    pub fn mark_disconnected(&mut self, id: u32) -> (present: bool)
        requires
            old(self).wf(),
        ensures
            final(self).wf(),
            present == old(self)@.mailboxes.contains_key(id),
            present ==> final(self)@ == (NetworkModel {
                mailboxes: old(self)@.mailboxes.insert(
                    id,
                    MailboxModel { disconnected: true, ..old(self)@.mailboxes[id] },
                ),
                ..old(self)@
            }),
            !present ==> final(self)@ == old(self)@,
    {
        let present = self.mailboxes.mark_disconnected(id);
        proof {
            self.lemma_boxes_bounded();
        }
        present
    }

    /// Puts `message` into the mailbox of `client_id`. A full mailbox drops
    /// the message; so does a client without a mailbox.
    pub fn send(&mut self, client_id: u32, message: ServerToClientMessage) -> (outcome: PushOutcome)
        requires
            old(self).wf(),
        ensures
            final(self).wf(),
            final(self)@ == (NetworkModel {
                mailboxes: delivered_to_one(old(self)@.mailboxes, client_id, message@),
                ..old(self)@
            }),
            outcome == if !old(self)@.mailboxes.contains_key(client_id) {
                PushOutcome::NoMailbox
            } else if old(self)@.mailboxes[client_id].full() {
                PushOutcome::Dropped
            } else {
                PushOutcome::Queued
            },
    {
        let outcome = send_to_one_client(&mut self.mailboxes, client_id, message);
        proof {
            self.lemma_boxes_bounded();
        }
        outcome
    }

    /// Puts a copy of `message` into the mailbox of every client but
    /// `sender_id`; full mailboxes drop theirs.
    pub fn broadcast_except(&mut self, sender_id: u32, message: ServerToClientMessage)
        requires
            old(self).wf(),
        ensures
            final(self).wf(),
            final(self)@ == (NetworkModel {
                mailboxes: delivered_to_all_except(old(self)@.mailboxes, sender_id, message@),
                ..old(self)@
            }),
    {
        broadcast_to_all_except(&mut self.mailboxes, sender_id, message);
        proof {
            self.lemma_boxes_bounded();
        }
    }

    /// Puts a copy of `message` into the mailbox of every client; full
    /// mailboxes drop theirs.
    pub fn broadcast(&mut self, message: ServerToClientMessage)
        requires
            old(self).wf(),
        ensures
            final(self).wf(),
            final(self)@ == (NetworkModel {
                mailboxes: delivered_to_all(old(self)@.mailboxes, message@),
                ..old(self)@
            }),
    {
        broadcast_to_all(&mut self.mailboxes, message);
        proof {
            self.lemma_boxes_bounded();
        }
    }

    /// Takes up to `max_items` messages out of the mailbox of `client_id`,
    /// oldest first. A client without a mailbox gives no messages.
    pub fn drain(&mut self, client_id: u32, max_items: usize) -> (drained: Vec<
        ServerToClientMessage,
    >)
        requires
            old(self).wf(),
        ensures
            final(self).wf(),
            !old(self)@.mailboxes.contains_key(client_id) ==> drained@.len() == 0 && final(self)@
                == old(self)@,
            old(self)@.mailboxes.contains_key(client_id) ==> contents_of(drained@) == old(
                self,
            )@.mailboxes[client_id].taken(max_items as nat) && final(self)@ == (NetworkModel {
                mailboxes: old(self)@.mailboxes.insert(
                    client_id,
                    old(self)@.mailboxes[client_id].drained(max_items as nat),
                ),
                ..old(self)@
            }),
    {
        let drained = self.mailboxes.drain(client_id, max_items);
        proof {
            self.lemma_boxes_bounded();
        }
        drained
    }

    /// Takes the oldest request out of the ingestion queue, if there is one.
    pub fn next_request(&mut self) -> (bundle: Option<ClientToServerMessageBundle>)
        requires
            old(self).wf(),
        ensures
            final(self).wf(),
            bundle is Some <==> old(self)@.inbox.len() > 0,
            bundle is Some ==> bundle->Some_0@ == old(self)@.inbox[0] && final(self)@ == (
            NetworkModel { inbox: old(self)@.inbox.skip(1), ..old(self)@ }),
            bundle is None ==> final(self)@ == old(self)@,
    {
        self.inbox.pop()
    }

    /// Puts `bundle` at the back of the ingestion queue, or drops it and
    /// counts that when the queue is full. Returns whether the request was
    /// taken.
    pub fn enqueue_request(&mut self, bundle: ClientToServerMessageBundle) -> (taken: bool)
        requires
            old(self).wf(),
        ensures
            final(self).wf(),
            taken == (old(self)@.inbox.len() < old(self)@.inbox_capacity),
            final(self)@ == old(self)@.with_request(bundle@),
    {
        let taken = self.inbox.push(bundle);
        if !taken {
            self.dropped_requests = self.dropped_requests.saturating_add(1);
        }
        proof {
            self.inbox.lemma_bounds();
            self.lemma_boxes_bounded();
            assert forall|id: u32|
                self@.directory.sessions.contains_key(id) <==> self@.mailboxes.contains_key(
                    id,
                ) by {
                assert(old(self)@.directory.sessions.contains_key(id) <==> old(
                    self,
                )@.mailboxes.contains_key(id));
            }
        }
        taken
    }
}

/// Gives the client `id`, whose session the directory holds already, its
/// mailbox and liveness flag, tells the server of the new client through the
/// ingestion queue, and tells the client its id through its mailbox.
fn open_mailbox(network: &mut Network, id: u32, now: i64)
    requires
        old(network).directory.wf(),
        old(network).mailboxes.wf(),
        old(network).inbox.wf(),
        0 < old(network).mailbox_capacity <= MAX_QUEUE_CAPACITY,
        !old(network).mailboxes@.contains_key(id),
    ensures
        final(network).directory.wf(),
        final(network).mailboxes.wf(),
        final(network).inbox.wf(),
        final(network)@ == (NetworkModel {
            mailboxes: old(network)@.mailboxes.insert(
                id,
                MailboxModel::fresh(old(network)@.mailbox_capacity).pushed(
                    ServerMessageContent::ClientIDAssignment { new_client_id: id },
                ),
            ),
            ..old(network)@
        }).with_request(connect_notice(id, now)),
{
    let _ = network.mailboxes.create_mailbox(id, network.mailbox_capacity);
    let to_self_message = ClientToServerMessageBundle {
        client_id: id,
        send_time: now,
        received_time: now,
        message: ClientToServerMessageData::Connect,
    };
    let taken = network.inbox.push(to_self_message);
    if !taken {
        network.dropped_requests = network.dropped_requests.saturating_add(1);
    }
    let new_id_message = ServerToClientMessage::ClientIDAssignment { new_client_id: id };
    let _ = network.mailboxes.push(id, new_id_message);
    proof {
        let fresh = MailboxModel::fresh(network.mailbox_capacity as nat);
        let assignment = ServerMessageContent::ClientIDAssignment { new_client_id: id };
        assert(network.mailboxes@ =~= old(network)@.mailboxes.insert(id, fresh.pushed(assignment)));
    }
}

/// Adds a client at `endpoint` at the time `now`: gives it the next client
/// id, a session, a mailbox and a liveness flag, tells the server of the new
/// client through the ingestion queue (which drops and counts the notice if
/// it is full), and tells the client its id through its mailbox. Returns the
/// id. Returns `None`, and changes nothing, when the endpoint already has a
/// session or every client id has been issued.
pub fn add_client(network: &mut Network, endpoint: Endpoint, now: i64) -> (id: Option<u32>)
    requires
        old(network).wf(),
    ensures
        final(network).wf(),
        id == old(network)@.added_client(endpoint),
        final(network)@ == old(network)@.after_add_client(endpoint, now),
{
    if network.directory.find(endpoint).is_some() {
        return None;
    }
    match network.directory.resolve(endpoint) {
        None => None,
        Some(id) => {
            proof {
                old(network).directory.lemma_model_wf();
                assert(!old(network)@.mailboxes.contains_key(id));
            }
            open_mailbox(network, id, now);
            proof {
                network.lemma_boxes_bounded();
                network.inbox.lemma_bounds();
                network.directory.lemma_model_wf();
                assert forall|other: u32|
                    network@.directory.sessions.contains_key(other)
                        <==> network@.mailboxes.contains_key(other) by {
                    assert(old(network)@.directory.sessions.contains_key(other) <==> old(
                        network,
                    )@.mailboxes.contains_key(other));
                }
            }
            Some(id)
        },
    }
}

/// Adds the client `id` at `endpoint` at the time `now`, as `add_client`
/// does, but under an id that the caller has chosen. Refused, with nothing
/// changed, if the id or the endpoint already has a session. Ids up to `id`
/// are never issued afterwards.
pub fn register_client(
    network: &mut Network,
    id: u32,
    endpoint: Endpoint,
    now: i64,
) -> (result: Result<(), RegisterError>)
    requires
        old(network).wf(),
    ensures
        final(network).wf(),
        result == match old(network)@.directory.register_error(id, endpoint) {
            Some(error) => Err::<(), RegisterError>(error),
            None => Ok::<(), RegisterError>(()),
        },
        final(network)@ == old(network)@.after_register_client(id, endpoint, now),
{
    match network.directory.register(id, endpoint) {
        Err(error) => Err(error),
        Ok(()) => {
            proof {
                assert(old(network)@.directory.sessions.contains_key(id) <==> old(
                    network,
                )@.mailboxes.contains_key(id));
            }
            open_mailbox(network, id, now);
            proof {
                network.lemma_boxes_bounded();
                network.inbox.lemma_bounds();
                network.directory.lemma_model_wf();
                assert forall|other: u32|
                    network@.directory.sessions.contains_key(other)
                        <==> network@.mailboxes.contains_key(other) by {
                    assert(old(network)@.directory.sessions.contains_key(other) <==> old(
                        network,
                    )@.mailboxes.contains_key(other));
                }
            }
            Ok(())
        },
    }
}

/// Removes the client `id`: its session, its mailbox with every message
/// still waiting in it, and its liveness flag. The id is not issued again.
/// Returns whether the client was there.
pub fn remove_client(network: &mut Network, id: u32) -> (present: bool)
    requires
        old(network).wf(),
    ensures
        final(network).wf(),
        present == old(network)@.mailboxes.contains_key(id),
        final(network)@ == old(network)@.after_remove_client(id),
{
    let present = network.mailboxes.remove(id);
    let _ = network.directory.remove(id);
    proof {
        network.lemma_boxes_bounded();
        network.directory.lemma_model_wf();
        assert forall|other: u32|
            network@.directory.sessions.contains_key(other) <==> network@.mailboxes.contains_key(
                other,
            ) by {
            assert(old(network)@.directory.sessions.contains_key(other) <==> old(
                network,
            )@.mailboxes.contains_key(other));
        }
    }
    present
}

/// Takes note that the client `id` has gone, as a stream transport detects
/// it when the stream ends: tells the server through the ingestion queue
/// that the client disconnects (a full queue drops and counts the notice),
/// and sets the client's liveness flag. Returns whether the client has a
/// mailbox, and so a flag to set.
pub fn signal_disconnect(network: &mut Network, id: u32, now: i64) -> (present: bool)
    requires
        old(network).wf(),
    ensures
        final(network).wf(),
        present == old(network)@.mailboxes.contains_key(id),
        final(network)@ == old(network)@.after_disconnect_signal(id, now),
{
    let disconnect_message = ClientToServerMessageBundle {
        client_id: id,
        send_time: now,
        received_time: now,
        message: ClientToServerMessageData::Disconnect,
    };
    let _ = network.enqueue_request(disconnect_message);
    network.mark_disconnected(id)
}

/// Takes in one datagram that came from `endpoint` at the time
/// `received_time`. `payload` is the request it carried, or `None` if it
/// could not be decoded. The endpoint is resolved to its client id first, and
/// a client is added for an endpoint without a session; a payload that could
/// not be decoded leaves that session as it is. A decoded request goes to the
/// ingestion queue under the client's id, unless the queue is full; a request
/// that the queue drops is counted.
pub fn receive_datagram(
    network: &mut Network,
    endpoint: Endpoint,
    payload: Option<ClientToServerMessage>,
    received_time: i64,
) -> (admission: Admission)
    requires
        old(network).wf(),
    ensures
        final(network).wf(),
        admission == old(network)@.admission(endpoint, payload, received_time),
        final(network)@ == old(network)@.after_datagram(endpoint, payload, received_time),
{
    let maybe_client_id = match network.directory.find(endpoint) {
        Some(client_id) => Some(client_id),
        None => add_client(network, endpoint, received_time),
    };
    match maybe_client_id {
        None => Admission::NoIdLeft,
        Some(client_id) => match payload {
            None => Admission::Undecodable { client_id },
            Some(message) => {
                let message_bundle = ClientToServerMessageBundle::new(
                    client_id,
                    message,
                    received_time,
                );
                if network.enqueue_request(message_bundle) {
                    Admission::Queued { client_id }
                } else {
                    Admission::QueueFull { client_id }
                }
            },
        },
    }
}

/// Runs one pass of the outbound dispatcher: takes up to `max_items`
/// messages out of the mailbox of every client and returns them with the
/// endpoint to send them to, one batch per client.
pub fn collect_outbound(network: &mut Network, max_items: usize) -> (batches: Vec<OutboundBatch>)
    requires
        old(network).wf(),
    ensures
        final(network).wf(),
        final(network)@ == (NetworkModel {
            mailboxes: after_pass(old(network)@.mailboxes, old(network)@.directory, max_items as nat),
            ..old(network)@
        }),
        forall|k: int|
            0 <= k < batches@.len() ==> batch_is_due(
                #[trigger] batches@[k],
                old(network)@.mailboxes,
                old(network)@.directory,
                max_items as nat,
            ),
        forall|j: int, k: int|
            0 <= j < k < batches@.len() ==> (#[trigger] batches@[j]).client_id != (
            #[trigger] batches@[k]).client_id,
        forall|id: u32| old(network)@.mailboxes.contains_key(id) ==> has_batch_for(batches@, id),
{
    let pass = drain_outbound(&network.directory, &mut network.mailboxes, max_items);
    proof {
        network.lemma_boxes_bounded();
    }
    pass.batches
}

} // verus!
