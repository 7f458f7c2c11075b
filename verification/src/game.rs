//! The game loop: how the server applies the clients' requests to the world
//! and answers them.

use vstd::prelude::*;
use crate::client_to_server::{
    AttributedRequest,
    ClientRequest,
    ClientToServerMessageBundle,
    ClientToServerMessageData,
};
use crate::game_objects::Player;
use crate::mailbox_registry::{
    delivered_to_all,
    delivered_to_all_except,
    delivered_to_one,
    MailboxModel,
};
use crate::network::{remove_client, Network, NetworkModel};
use crate::server_to_client::{ServerMessageContent, ServerToClientMessage};
use crate::session_directory::DirectoryOp;
use crate::state::{accumulated_time, catch_up, steps_due, State, WorldModel};
use crate::vec2::Vec2;

verus! {

/// The text with which the server greets a client that has joined.
pub open spec fn welcome_text() -> Seq<char> {
    "welcome to the server"@
}

/// Everything the server holds: the world and the session layer.
pub ghost struct ServerModel {
    pub world: WorldModel,
    pub network: NetworkModel,
}

/// Whether the server acted on a request.
#[derive(Clone, Copy, Debug, PartialEq, Eq, Structural)]
pub enum RequestOutcome {
    /// The request was carried out.
    Applied,
    /// The request was refused and nothing changed: a position for an entity
    /// that does not exist or belongs to another client, or a spawn when no
    /// entity id is left.
    Rejected,
}

impl ServerModel {
    /// The world and the session layer are well-formed.
    pub open spec fn wf(self) -> bool {
        self.world.wf() && self.network.wf()
    }

    /// The server with other mailboxes and everything else the same.
    pub open spec fn with_mailboxes(self, mailboxes: Map<u32, MailboxModel>) -> ServerModel {
        ServerModel { network: NetworkModel { mailboxes, ..self.network }, ..self }
    }

    /// Whether the client `client_id` may put the entity `entity_id`
    /// somewhere: the entity exists and belongs to that client.
    pub open spec fn may_move(self, client_id: u32, entity_id: u32) -> bool {
        self.world.player(entity_id) is Some && self.world.player(
            entity_id,
        )->Some_0.owner_client_id == client_id
    }

    /// Whether the server refuses `request`.
    pub open spec fn rejects(self, request: AttributedRequest) -> bool {
        match request.request {
            ClientRequest::RequestToSpawnPlayer => self.world.players.len() >= u32::MAX,
            ClientRequest::EntityPosition { entity_id, pos } => !self.may_move(
                request.client_id,
                entity_id,
            ),
            _ => false,
        }
    }

    /// The server after it has handled `request`.
    ///
    /// - `Connect`: the client is greeted, and every other client is told
    ///   that it joined.
    /// - `Disconnect`: every other client is told that the client left, and
    ///   the client's session and mailbox are removed.
    /// - `ChatMessage`: the text goes to every other client, with the
    ///   sender's id.
    /// - `RequestToSpawnPlayer`: a player of the client appears at the
    ///   origin under the next entity id, and every client, the sender too,
    ///   is told of it.
    /// - `RequestAllPlayers`: the client alone gets the list of all entities.
    /// - `EntityPosition`: if the entity exists and belongs to the client, it
    ///   is put at the position and every other client is told of it;
    ///   otherwise nothing changes.
    pub open spec fn after_request(self, request: AttributedRequest) -> ServerModel {
        let sender = request.client_id;
        let boxes = self.network.mailboxes;
        match request.request {
            ClientRequest::Connect => self.with_mailboxes(
                delivered_to_all_except(
                    delivered_to_one(
                        boxes,
                        sender,
                        ServerMessageContent::Welcome { server_message: welcome_text() },
                    ),
                    sender,
                    ServerMessageContent::ClientJoined { id: sender },
                ),
            ),
            ClientRequest::Disconnect => ServerModel {
                network: NetworkModel {
                    mailboxes: delivered_to_all_except(
                        boxes,
                        sender,
                        ServerMessageContent::ClientLeft { id: sender },
                    ),
                    ..self.network
                }.after_remove_client(sender),
                ..self
            },
            ClientRequest::ChatMessage { message } => self.with_mailboxes(
                delivered_to_all_except(
                    boxes,
                    sender,
                    ServerMessageContent::ChatMessage { from: sender, message },
                ),
            ),
            ClientRequest::RequestToSpawnPlayer => if self.rejects(request) {
                self
            } else {
                let entity_id = self.world.players.len() as u32;
                let origin = Vec2 { x: 0, y: 0 };
                ServerModel {
                    world: WorldModel {
                        players: self.world.players.push(
                            Player {
                                owner_client_id: sender,
                                entity_id,
                                pos: origin,
                                vel: origin,
                            },
                        ),
                        ..self.world
                    },
                    ..self
                }.with_mailboxes(
                    delivered_to_all(
                        boxes,
                        ServerMessageContent::SpawnPlayer {
                            owner_client_id: sender,
                            entity_id,
                            pos: origin,
                        },
                    ),
                )
            },
            ClientRequest::RequestAllPlayers => self.with_mailboxes(
                delivered_to_one(
                    boxes,
                    sender,
                    ServerMessageContent::AllPlayers { players: self.world.players },
                ),
            ),
            ClientRequest::EntityPosition { entity_id, pos } => if self.rejects(request) {
                self
            } else {
                ServerModel {
                    world: WorldModel {
                        players: self.world.players.update(
                            entity_id as int,
                            Player { pos, ..self.world.players[entity_id as int] },
                        ),
                        ..self.world
                    },
                    ..self
                }.with_mailboxes(
                    delivered_to_all_except(
                        boxes,
                        sender,
                        ServerMessageContent::EntityPosition { entity_id, pos },
                    ),
                )
            },
        }
    }

    /// The server after it has handled each of `requests` in turn.
    pub open spec fn after_requests(self, requests: Seq<AttributedRequest>) -> ServerModel
        decreases requests.len(),
    {
        if requests.len() == 0 {
            self
        } else {
            self.after_request(requests[0]).after_requests(requests.skip(1))
        }
    }

    /// The server with an empty ingestion queue and everything else the same.
    pub open spec fn with_empty_inbox(self) -> ServerModel {
        ServerModel { network: NetworkModel { inbox: Seq::empty(), ..self.network }, ..self }
    }

    /// The server after it has emptied the ingestion queue: every request
    /// that waited there has been handled, the oldest first.
    pub open spec fn after_queue(self) -> ServerModel {
        self.with_empty_inbox().after_requests(self.network.inbox)
    }

    /// The server after one pass of the game loop in which `elapsed`
    /// nanoseconds have passed: the ingestion queue is emptied, then the
    /// world catches up with the time.
    pub open spec fn after_pass(self, elapsed: nat) -> ServerModel {
        let handled = self.after_queue();
        ServerModel { world: handled.world.after_elapsed(elapsed), ..handled }
    }
}

/// What the server holds, from its two parts.
pub open spec fn server_model(state: State, network: Network) -> ServerModel {
    ServerModel { world: state@, network: network@ }
}

/// Handles one request of a client.
pub fn handle_message(
    state: &mut State,
    network: &mut Network,
    message_bundle: ClientToServerMessageBundle,
) -> (outcome: RequestOutcome)
    requires
        old(state).wf(),
        old(network).wf(),
    ensures
        final(state).wf(),
        final(network).wf(),
        server_model(*final(state), *final(network)) == server_model(
            *old(state),
            *old(network),
        ).after_request(message_bundle@),
        outcome == if server_model(*old(state), *old(network)).rejects(message_bundle@) {
            RequestOutcome::Rejected
        } else {
            RequestOutcome::Applied
        },
{
    let client_id = message_bundle.client_id;
    match message_bundle.message {
        ClientToServerMessageData::Connect => {
            let outbound_message = ServerToClientMessage::Welcome {
                server_message: "welcome to the server".to_owned(),
            };
            let _ = network.send(client_id, outbound_message);
            let outbound_message = ServerToClientMessage::ClientJoined { id: client_id };
            network.broadcast_except(client_id, outbound_message);
            RequestOutcome::Applied
        },
        ClientToServerMessageData::Disconnect => {
            let outbound_message = ServerToClientMessage::ClientLeft { id: client_id };
            network.broadcast_except(client_id, outbound_message);
            let _ = remove_client(network, client_id);
            RequestOutcome::Applied
        },
        ClientToServerMessageData::ChatMessage { message } => {
            let outbound_message = ServerToClientMessage::ChatMessage { from: client_id, message };
            network.broadcast_except(client_id, outbound_message);
            RequestOutcome::Applied
        },
        ClientToServerMessageData::RequestToSpawnPlayer => {
            match state.spawn_player(client_id) {
                Some(eid) => {
                    let outbound_message = ServerToClientMessage::SpawnPlayer {
                        owner_client_id: client_id,
                        entity_id: eid,
                        pos: Vec2::zero(),
                    };
                    network.broadcast(outbound_message);
                    RequestOutcome::Applied
                },
                None => RequestOutcome::Rejected,
            }
        },
        ClientToServerMessageData::EntityPosition { entity_id, pos } => {
            if state.move_player(client_id, entity_id, pos) {
                let outbound_message = ServerToClientMessage::EntityPosition { entity_id, pos };
                network.broadcast_except(client_id, outbound_message);
                RequestOutcome::Applied
            } else {
                RequestOutcome::Rejected
            }
        },
        ClientToServerMessageData::RequestAllPlayers => {
            let players = state.players();
            let outbound_message = ServerToClientMessage::AllPlayers { players };
            let _ = network.send(client_id, outbound_message);
            RequestOutcome::Applied
        },
    }
}

/// Empties the ingestion queue: handles every request that waits there, the
/// oldest first. Returns the number of requests that were refused.
pub fn process_message_queue(state: &mut State, network: &mut Network) -> (rejected: usize)
    requires
        old(state).wf(),
        old(network).wf(),
    ensures
        final(state).wf(),
        final(network).wf(),
        server_model(*final(state), *final(network)) == server_model(
            *old(state),
            *old(network),
        ).after_queue(),
        rejected == rejections(
            server_model(*old(state), *old(network)).with_empty_inbox(),
            old(network)@.inbox,
        ),
{
    let mut rejected: usize = 0;
    let ghost start = server_model(*old(state), *old(network));
    proof {
        network.lemma_model_wf();
    }
    loop
        invariant
            state.wf(),
            network.wf(),
            server_model(*state, *network).after_queue() == start.after_queue(),
            rejected + rejections(
                server_model(*state, *network).with_empty_inbox(),
                network@.inbox,
            ) == rejections(start.with_empty_inbox(), start.network.inbox),
            rejected + network@.inbox.len() <= start.network.inbox.len(),
            start.network.inbox.len() <= usize::MAX,
        ensures
            network@.inbox.len() == 0,
        decreases network@.inbox.len(),
    {
        let ghost before = server_model(*state, *network);
        match network.next_request() {
            None => {
                break ;
            },
            Some(message_bundle) => {
                let ghost popped = server_model(*state, *network);
                let outcome = handle_message(state, network, message_bundle);
                if outcome == RequestOutcome::Rejected {
                    rejected += 1;
                }
                proof {
                    let request = message_bundle@;
                    let after = server_model(*state, *network);
                    assert(after == popped.after_request(request));
                    assert(after.network.inbox == before.network.inbox.skip(1));
                    assert(after.with_empty_inbox() == before.with_empty_inbox().after_request(
                        request,
                    ));
                    assert(before.with_empty_inbox().rejects(request) == popped.rejects(request));
                }
            },
        }
    }
    proof {
        let end = server_model(*state, *network);
        assert(end.network.inbox =~= Seq::empty());
        assert(end.with_empty_inbox() == end);
    }
    rejected
}

/// The number of `requests` that the server refuses when it handles them in
/// turn.
pub open spec fn rejections(server: ServerModel, requests: Seq<AttributedRequest>) -> nat
    decreases requests.len(),
{
    if requests.len() == 0 {
        0
    } else {
        (if server.rejects(requests[0]) {
            1nat
        } else {
            0nat
        }) + rejections(server.after_request(requests[0]), requests.skip(1))
    }
}

/// Runs one pass of the game loop, in which `elapsed_nanos` nanoseconds have
/// passed since the pass before: empties the ingestion queue, then lets the
/// world catch up with the time. Returns the number of timesteps simulated.
pub fn main_loop_pass(state: &mut State, network: &mut Network, elapsed_nanos: u64) -> (steps: u64)
    requires
        old(state).wf(),
        old(network).wf(),
    ensures
        final(state).wf(),
        final(network).wf(),
        server_model(*final(state), *final(network)) == server_model(
            *old(state),
            *old(network),
        ).after_pass(elapsed_nanos as nat),
        steps == steps_due(
            accumulated_time(
                server_model(*old(state), *old(network)).after_queue().world.time_since_last_update,
                elapsed_nanos as nat,
            ),
        ),
{
    let _ = process_message_queue(state, network);
    catch_up(state, elapsed_nanos)
}

/// The kind of a request of which only the latest is worth keeping, if the
/// request is of such a kind: a position, which the next one overrides.
pub fn get_keep_latest_only_message_type_id(message: &ClientToServerMessageData) -> (kind: Option<u8>)
    ensures
        kind == latest_only_kind(message@),
{
    match message {
        ClientToServerMessageData::EntityPosition { .. } => Some(0),
        _ => None,
    }
}

/// The kind of a request of which only the latest is worth keeping.
pub open spec fn latest_only_kind(request: ClientRequest) -> Option<u8> {
    match request {
        ClientRequest::EntityPosition { .. } => Some(0u8),
        _ => None,
    }
}

/// A client cannot move an entity that it does not own: a position for an
/// entity of another client, or for an entity that does not exist, leaves the
/// whole server as it was. The entity keeps its position and no mailbox gets
/// a message.
pub proof fn lemma_foreign_position_changes_nothing(
    server: ServerModel,
    client_id: u32,
    send_time: i64,
    received_time: i64,
    entity_id: u32,
    pos: Vec2,
)
    requires
        !server.may_move(client_id, entity_id),
    ensures
        server.after_request(
            AttributedRequest {
                client_id,
                send_time,
                received_time,
                request: ClientRequest::EntityPosition { entity_id, pos },
            },
        ) == server,
{
}

/// Handling a request leaves a well-formed server well-formed, and a client
/// has a session afterwards exactly if it has a mailbox.
pub proof fn lemma_request_keeps_wf(server: ServerModel, request: AttributedRequest)
    requires
        server.wf(),
    ensures
        server.after_request(request).wf(),
{
    let after = server.after_request(request);
    match request.request {
        ClientRequest::Disconnect => {
            server.network.directory.lemma_op_keeps_wf(
                DirectoryOp::Remove { id: request.client_id },
            );
            assert forall|id: u32|
                after.network.directory.sessions.contains_key(id)
                    <==> after.network.mailboxes.contains_key(id) by {
                assert(server.network.directory.sessions.contains_key(id)
                    <==> server.network.mailboxes.contains_key(id));
            }
        },
        _ => {
            assert forall|id: u32|
                after.network.directory.sessions.contains_key(id)
                    <==> after.network.mailboxes.contains_key(id) by {
                assert(server.network.directory.sessions.contains_key(id)
                    <==> server.network.mailboxes.contains_key(id));
            }
        },
    }
}

/// Whether every request of the kind of `request` is worth keeping.
pub open spec fn always_kept(request: AttributedRequest) -> bool {
    latest_only_kind(request.request) is None
}

/// The last of `requests` that is of a kind of which only the latest is
/// worth keeping, if there is one.
pub open spec fn latest_of_its_kind(requests: Seq<AttributedRequest>) -> Option<AttributedRequest>
    decreases requests.len(),
{
    if requests.len() == 0 {
        None
    } else if always_kept(requests.last()) {
        latest_of_its_kind(requests.drop_last())
    } else {
        Some(requests.last())
    }
}

/// The requests that stay after pruning: those of the kinds that are always
/// kept, in their order, and behind them the latest of the others.
pub open spec fn pruned(requests: Seq<AttributedRequest>) -> Seq<AttributedRequest> {
    requests.filter(|request: AttributedRequest| always_kept(request)) + match latest_of_its_kind(
        requests,
    ) {
        Some(latest) => seq![latest],
        None => Seq::empty(),
    }
}

/// Prunes the ingestion queue: of the requests of which only the latest is
/// worth keeping, all but the last are dropped, and that last one moves to
/// the back of the queue. The other requests keep their order.
pub fn prune_latest_only_messages(network: &mut Network)
    requires
        old(network).wf(),
    ensures
        final(network).wf(),
        final(network)@ == (NetworkModel { inbox: pruned(old(network)@.inbox), ..old(network)@ }),
{
    let ghost start = network@;
    let ghost keep = |request: AttributedRequest| always_kept(request);
    let mut latest: Option<ClientToServerMessageBundle> = None;
    let mut to_retain: Vec<ClientToServerMessageBundle> = Vec::new();
    let ghost mut seen: Seq<AttributedRequest> = Seq::empty();
    proof {
        network.lemma_model_wf();
        reveal(Seq::filter);
        assert(start.inbox.skip(0) =~= start.inbox);
    }
    loop
        invariant
            network.wf(),
            network@ == (NetworkModel { inbox: start.inbox.skip(seen.len() as int), ..start }),
            start.wf(),
            seen.len() <= start.inbox.len(),
            seen == start.inbox.take(seen.len() as int),
            requests_of(to_retain@) == seen.filter(keep),
            latest is Some <==> latest_of_its_kind(seen) is Some,
            latest is Some ==> latest->Some_0@ == latest_of_its_kind(seen)->Some_0,
            to_retain@.len() + (if latest is Some {
                1int
            } else {
                0int
            }) <= seen.len(),
            keep == |request: AttributedRequest| always_kept(request),
        ensures
            seen == start.inbox,
            network@ == (NetworkModel { inbox: Seq::empty(), ..start }),
        decreases start.inbox.len() - seen.len(),
    {
        match network.next_request() {
            None => {
                proof {
                    assert(start.inbox.take(seen.len() as int) =~= start.inbox);
                    assert(start.inbox.skip(seen.len() as int) =~= Seq::empty());
                }
                break ;
            },
            Some(bundle) => {
                let ghost before = seen;
                let ghost retained_before = to_retain@;
                proof {
                    let n = before.len() as int;
                    assert(start.inbox.skip(n).len() > 0);
                    assert(start.inbox.skip(n)[0] == start.inbox[n]);
                    seen = start.inbox.take(n + 1);
                    assert(seen.drop_last() =~= before);
                    assert(seen.last() == bundle@);
                    assert(start.inbox.skip(n).skip(1) =~= start.inbox.skip(n + 1));
                    reveal(Seq::filter);
                }
                if get_keep_latest_only_message_type_id(&bundle.message).is_some() {
                    latest = Some(bundle);
                } else {
                    to_retain.push(bundle);
                    proof {
                        assert(requests_of(to_retain@) =~= requests_of(retained_before).push(
                            bundle@,
                        ));
                    }
                }
            },
        }
    }
    let ghost kept = seen.filter(keep);
    proof {
        seen.lemma_filter_len(keep);
        assert(kept.take(0) =~= Seq::<AttributedRequest>::empty());
    }
    let mut i: usize = 0;
    while i < to_retain.len()
        invariant
            network.wf(),
            i <= to_retain@.len(),
            requests_of(to_retain@) == kept,
            network@ == (NetworkModel { inbox: kept.take(i as int), ..start }),
            start.wf(),
            to_retain@.len() + (if latest is Some {
                1int
            } else {
                0int
            }) <= start.inbox.len(),
        decreases to_retain.len() - i,
    {
        let copy = to_retain[i].clone();
        let _ = network.enqueue_request(copy);
        proof {
            assert(kept[i as int] == to_retain@[i as int]@);
            assert(kept.take(i + 1) =~= kept.take(i as int).push(kept[i as int]));
        }
        i += 1;
    }
    proof {
        assert(kept.take(kept.len() as int) =~= kept);
    }
    match latest {
        Some(bundle) => {
            let _ = network.enqueue_request(bundle);
            proof {
                assert(network@.inbox =~= pruned(start.inbox));
            }
        },
        None => {
            proof {
                assert(network@.inbox =~= pruned(start.inbox));
            }
        },
    }
}

/// What each bundle of a list says, in the same order.
pub open spec fn requests_of(bundles: Seq<ClientToServerMessageBundle>) -> Seq<AttributedRequest> {
    bundles.map_values(|bundle: ClientToServerMessageBundle| bundle@)
}

} // verus!
