//! The client's side of the game: what a client knows of the world, how the
//! server's messages change that, and what the client reports back.

use vstd::prelude::*;
use crate::client_to_server::{ClientRequest, ClientToServerMessageData};
use crate::game_objects::Player;
use crate::mailbox::Mailbox;
use crate::server_to_client::{copy_players, ServerMessageContent, ServerToClientMessage};
use crate::state::{accumulated_time, players_after, steps_due, time_left, TIMESTEP_NANOS};
use crate::vec2::{add_coordinates, clamp_coordinate, lemma_moves_compose, Vec2};

verus! {

/// The number of requests and of messages that a client queues at most.
pub const CLIENT_QUEUE_CAPACITY: usize = 64;

/// The distance a player moves in one frame in which a key is held down.
pub const PLAYER_SPEED: i32 = 1;

/// What a client knows: whether it goes on running, the nanoseconds of
/// elapsed time it has not simulated yet, the id that the server gave it, and
/// the players it has heard of, each entity once.
pub ghost struct ClientModel {
    pub running: bool,
    pub time_since_last_update: nat,
    pub client_id: Option<u32>,
    pub players: Seq<Player>,
}

/// The keys that are held down in one frame.
#[derive(Clone, Copy, Debug, PartialEq, Eq, Structural)]
pub struct Input {
    pub escape: bool,
    pub up: bool,
    pub down: bool,
    pub left: bool,
    pub right: bool,
}

/// Whether the list holds the entity `entity_id`.
pub open spec fn knows(players: Seq<Player>, entity_id: u32) -> bool {
    exists|i: int| 0 <= i < players.len() && (#[trigger] players[i]).entity_id == entity_id
}

/// The place of the entity `entity_id` in the list, where it is there.
pub open spec fn place_of(players: Seq<Player>, entity_id: u32) -> int {
    choose|i: int| 0 <= i < players.len() && (#[trigger] players[i]).entity_id == entity_id
}

/// No entity occurs twice in the list.
pub open spec fn one_each(players: Seq<Player>) -> bool {
    forall|i: int, j: int|
        0 <= i < j < players.len() ==> (#[trigger] players[i]).entity_id != (
        #[trigger] players[j]).entity_id
}

/// The list with `player` in it: in the place of the entity if the list
/// holds it, and at the end otherwise.
pub open spec fn with_player(players: Seq<Player>, player: Player) -> Seq<Player> {
    if knows(players, player.entity_id) {
        players.update(place_of(players, player.entity_id), player)
    } else {
        players.push(player)
    }
}

/// The player as a client takes it over from the server: at rest.
pub open spec fn at_rest(player: Player) -> Player {
    Player { vel: Vec2 { x: 0, y: 0 }, ..player }
}

/// The list with each of `arrivals` in it, at rest, taken in turn.
pub open spec fn with_players(players: Seq<Player>, arrivals: Seq<Player>) -> Seq<Player>
    decreases arrivals.len(),
{
    if arrivals.len() == 0 {
        players
    } else {
        with_players(with_player(players, at_rest(arrivals[0])), arrivals.skip(1))
    }
}

/// The coordinate after one frame in which the key toward smaller values is
/// held down if `back`, and the key toward larger values if `forth`.
pub open spec fn steered(coordinate: i32, back: bool, forth: bool) -> i32 {
    let after_back = if back {
        clamp_coordinate(coordinate - PLAYER_SPEED) as i32
    } else {
        coordinate
    };
    if forth {
        clamp_coordinate(after_back + PLAYER_SPEED) as i32
    } else {
        after_back
    }
}

impl ClientModel {
    /// A client that runs and knows nothing yet.
    pub open spec fn fresh() -> ClientModel {
        ClientModel {
            running: true,
            time_since_last_update: 0,
            client_id: None,
            players: Seq::empty(),
        }
    }

    /// No entity occurs twice.
    pub open spec fn wf(self) -> bool {
        one_each(self.players)
    }

    /// The player with the entity id `entity_id`, if the client knows it.
    pub open spec fn player(self, entity_id: u32) -> Option<Player> {
        if knows(self.players, entity_id) {
            Some(self.players[place_of(self.players, entity_id)])
        } else {
            None
        }
    }

    /// Whether the keys of this client steer `player`: it does if the player
    /// is the client's own, and also as long as the client has no id.
    pub open spec fn steers(self, player: Player) -> bool {
        match self.client_id {
            Some(client_id) => player.owner_client_id == client_id,
            None => true,
        }
    }

    /// Whether the client reports the position of `player`: it does if the
    /// player is its own.
    pub open spec fn reports(self, player: Player) -> bool {
        self.client_id == Some(player.owner_client_id)
    }

    /// The client after the message `message` of the server.
    ///
    /// - `ClientIDAssignment`: the client has the id.
    /// - `SpawnPlayer`: the client knows the player, at rest at the position.
    /// - `EntityPosition`: the entity is at the position, if the client knows
    ///   it.
    /// - `AllPlayers`: the client knows each of the players, at rest.
    /// - Every other message leaves the client as it is.
    pub open spec fn after_message(self, message: ServerMessageContent) -> ClientModel {
        match message {
            ServerMessageContent::ClientIDAssignment { new_client_id } => ClientModel {
                client_id: Some(new_client_id),
                ..self
            },
            ServerMessageContent::SpawnPlayer { owner_client_id, entity_id, pos } => ClientModel {
                players: with_player(
                    self.players,
                    Player { owner_client_id, entity_id, pos, vel: Vec2 { x: 0, y: 0 } },
                ),
                ..self
            },
            ServerMessageContent::EntityPosition { entity_id, pos } => if knows(
                self.players,
                entity_id,
            ) {
                let place = place_of(self.players, entity_id);
                ClientModel {
                    players: self.players.update(place, Player { pos, ..self.players[place] }),
                    ..self
                }
            } else {
                self
            },
            ServerMessageContent::AllPlayers { players } => ClientModel {
                players: with_players(self.players, players),
                ..self
            },
            _ => self,
        }
    }

    /// The client after each of `messages` in turn.
    pub open spec fn after_messages(self, messages: Seq<ServerMessageContent>) -> ClientModel
        decreases messages.len(),
    {
        if messages.len() == 0 {
            self
        } else {
            self.after_message(messages[0]).after_messages(messages.skip(1))
        }
    }

    /// The client after one frame with the keys `input`: the escape key ends
    /// the run, and the other keys move every player that the client steers.
    pub open spec fn after_input(self, input: Input) -> ClientModel {
        ClientModel {
            running: self.running && !input.escape,
            players: Seq::new(
                self.players.len(),
                |i: int|
                    if self.steers(self.players[i]) {
                        Player {
                            pos: Vec2 {
                                x: steered(self.players[i].pos.x, input.left, input.right),
                                y: steered(self.players[i].pos.y, input.up, input.down),
                            },
                            ..self.players[i]
                        }
                    } else {
                        self.players[i]
                    },
            ),
            ..self
        }
    }

    /// The client after `steps` timesteps: every player has moved by its
    /// velocity that many times.
    pub open spec fn after_steps(self, steps: nat) -> ClientModel {
        ClientModel { players: players_after(self.players, steps), ..self }
    }

    /// The client after `elapsed` more nanoseconds have passed: the timesteps
    /// due are simulated, and the rest of the time stays outstanding.
    pub open spec fn after_elapsed(self, elapsed: nat) -> ClientModel {
        let total = accumulated_time(self.time_since_last_update, elapsed);
        ClientModel {
            players: players_after(self.players, steps_due(total)),
            time_since_last_update: time_left(total),
            ..self
        }
    }
}

/// The request by which a client reports where `player` is.
pub open spec fn position_report(player: Player) -> ClientRequest {
    ClientRequest::EntityPosition { entity_id: player.entity_id, pos: player.pos }
}

/// The reports that a client owes in a frame in which it reports: one for
/// each player of its own, in the order of the list.
pub open spec fn reports_due(client: ClientModel, players: Seq<Player>) -> Seq<ClientRequest>
    decreases players.len(),
{
    if players.len() == 0 {
        Seq::empty()
    } else if client.reports(players.last()) {
        reports_due(client, players.drop_last()).push(position_report(players.last()))
    } else {
        reports_due(client, players.drop_last())
    }
}

/// What each request of a list says, in the same order.
pub open spec fn requests_said(requests: Seq<ClientToServerMessageData>) -> Seq<ClientRequest> {
    requests.map_values(|request: ClientToServerMessageData| request@)
}

/// What a client knows of the game.
pub struct State {
    running: bool,
    time_since_last_update: u64,
    client_id: Option<u32>,
    players: Vec<Player>,
}

impl View for State {
    type V = ClientModel;

    closed spec fn view(&self) -> ClientModel {
        ClientModel {
            running: self.running,
            time_since_last_update: self.time_since_last_update as nat,
            client_id: self.client_id,
            players: self.players@,
        }
    }
}

impl State {
    /// What the client knows is well-formed.
    pub open spec fn wf(&self) -> bool {
        self@.wf()
    }

    /// A client that runs and knows nothing yet.
    pub fn new() -> (state: State)
        ensures
            state.wf(),
            state@ == ClientModel::fresh(),
    {
        State { running: true, time_since_last_update: 0, client_id: None, players: Vec::new() }
    }

    /// Whether the client goes on running.
    pub fn running(&self) -> (running: bool)
        ensures
            running == self@.running,
    {
        self.running
    }

    /// The id that the server gave the client, if it has one yet.
    pub fn client_id(&self) -> (client_id: Option<u32>)
        ensures
            client_id == self@.client_id,
    {
        self.client_id
    }

    /// The players the client knows, in the order in which it heard of them.
    pub fn players(&self) -> (players: Vec<Player>)
        ensures
            players@ == self@.players,
    {
        copy_players(&self.players)
    }

    /// The place of the entity `entity_id` in the list, if it is there.
    fn find(&self, entity_id: u32) -> (place: Option<usize>)
        requires
            self.wf(),
        ensures
            place is Some <==> knows(self@.players, entity_id),
            place is Some ==> place->Some_0 == place_of(self@.players, entity_id)
                && place->Some_0 < self@.players.len(),
    {
        let mut i: usize = 0;
        while i < self.players.len()
            invariant
                self.wf(),
                i <= self.players@.len(),
                forall|k: int| 0 <= k < i ==> (#[trigger] self.players@[k]).entity_id != entity_id,
            decreases self.players.len() - i,
        {
            if self.players[i].entity_id == entity_id {
                proof {
                    let chosen = place_of(self.players@, entity_id);
                    assert(self.players@[i as int].entity_id == entity_id);
                    assert(self.players@[chosen].entity_id == entity_id);
                    if chosen < i {
                        assert(self.players@[chosen].entity_id != self.players@[i as int].entity_id);
                    } else if i < chosen {
                        assert(self.players@[i as int].entity_id != self.players@[chosen].entity_id);
                    }
                }
                return Some(i);
            }
            i += 1;
        }
        None
    }

    /// The player with the entity id `entity_id`, if the client knows it.
    pub fn player(&self, entity_id: u32) -> (player: Option<Player>)
        requires
            self.wf(),
        ensures
            player == self@.player(entity_id),
    {
        match self.find(entity_id) {
            Some(place) => Some(self.players[place]),
            None => None,
        }
    }

    /// Puts `player` into the list: in the place of its entity if the list
    /// holds it, and at the end otherwise.
    fn put(&mut self, player: Player)
        requires
            old(self).wf(),
        ensures
            final(self).wf(),
            final(self)@ == (ClientModel {
                players: with_player(old(self)@.players, player),
                ..old(self)@
            }),
    {
        match self.find(player.entity_id) {
            Some(place) => {
                self.players[place] = player;
                proof {
                    assert(self.players@ =~= old(self).players@.update(place as int, player));
                    assert forall|i: int, j: int| 0 <= i < j < self.players@.len() implies (
                    #[trigger] self.players@[i]).entity_id != (
                    #[trigger] self.players@[j]).entity_id by {
                        assert(old(self).players@[i].entity_id != old(self).players@[j].entity_id);
                    }
                }
            },
            None => {
                self.players.push(player);
                proof {
                    assert forall|i: int, j: int| 0 <= i < j < self.players@.len() implies (
                    #[trigger] self.players@[i]).entity_id != (
                    #[trigger] self.players@[j]).entity_id by {
                        assert(self.players@[i] == old(self).players@[i]);
                        if j < old(self).players@.len() {
                            assert(self.players@[j] == old(self).players@[j]);
                        }
                    }
                }
            },
        }
    }
}

impl Default for State {
    /// A client that runs and knows nothing yet.
    fn default() -> (state: State)
        ensures
            state.wf(),
            state@ == ClientModel::fresh(),
    {
        State::new()
    }
}

/// Takes in one message of the server.
pub fn handle_message(state: &mut State, message: ServerToClientMessage)
    requires
        old(state).wf(),
    ensures
        final(state).wf(),
        final(state)@ == old(state)@.after_message(message@),
{
    match message {
        ServerToClientMessage::ClientIDAssignment { new_client_id } => {
            state.client_id = Some(new_client_id);
        },
        ServerToClientMessage::Welcome { .. } => {},
        ServerToClientMessage::ClientJoined { .. } => {},
        ServerToClientMessage::ClientLeft { .. } => {},
        ServerToClientMessage::ChatMessage { .. } => {},
        ServerToClientMessage::SpawnPlayer { owner_client_id, entity_id, pos } => {
            state.put(Player { owner_client_id, entity_id, pos, vel: Vec2::zero() });
        },
        ServerToClientMessage::EntityPosition { entity_id, pos } => {
            match state.find(entity_id) {
                Some(place) => {
                    state.players[place].pos = pos;
                    proof {
                        let before = old(state).players@;
                        assert(state.players@ =~= before.update(
                            place as int,
                            Player { pos, ..before[place as int] },
                        ));
                        assert forall|i: int, j: int| 0 <= i < j < state.players@.len() implies (
                        #[trigger] state.players@[i]).entity_id != (
                        #[trigger] state.players@[j]).entity_id by {
                            assert(before[i].entity_id != before[j].entity_id);
                        }
                    }
                },
                None => {},
            }
        },
        ServerToClientMessage::AllPlayers { players } => {
            let mut i: usize = 0;
            proof {
                assert(players@.skip(0) =~= players@);
            }
            while i < players.len()
                invariant
                    state.wf(),
                    i <= players@.len(),
                    with_players(state@.players, players@.skip(i as int)) == with_players(
                        old(state)@.players,
                        players@,
                    ),
                    state@ == (ClientModel { players: state@.players, ..old(state)@ }),
                decreases players.len() - i,
            {
                let player = players[i];
                proof {
                    assert(players@.skip(i as int)[0] == player);
                    assert(players@.skip(i as int).skip(1) =~= players@.skip(i + 1));
                }
                state.put(
                    Player {
                        owner_client_id: player.owner_client_id,
                        entity_id: player.entity_id,
                        pos: player.pos,
                        vel: Vec2::zero(),
                    },
                );
                i += 1;
            }
        },
    }
}

/// Empties the queue of messages that came from the server: takes in every
/// message that waits there, the oldest first.
pub fn process_message_queue(state: &mut State, incoming: &mut Mailbox)
    requires
        old(state).wf(),
        old(incoming).wf(),
    ensures
        final(state).wf(),
        final(incoming).wf(),
        final(incoming).limit() == old(incoming).limit(),
        final(incoming).items() == Seq::<ServerMessageContent>::empty(),
        final(state)@ == old(state)@.after_messages(old(incoming).items()),
{
    loop
        invariant
            state.wf(),
            incoming.wf(),
            incoming.limit() == old(incoming).limit(),
            state@.after_messages(incoming.items()) == old(state)@.after_messages(
                old(incoming).items(),
            ),
        ensures
            incoming.items().len() == 0,
        decreases incoming.items().len(),
    {
        match incoming.pop() {
            None => {
                break ;
            },
            Some(message) => {
                handle_message(state, message);
            },
        }
    }
    proof {
        assert(incoming.items() =~= Seq::<ServerMessageContent>::empty());
    }
}

/// Advances what the client knows by one timestep: every player moves by its
/// velocity.
pub fn step(state: &mut State)
    requires
        old(state).wf(),
    ensures
        final(state).wf(),
        final(state)@ == old(state)@.after_steps(1),
{
    let mut i: usize = 0;
    while i < state.players.len()
        invariant
            i <= state.players@.len(),
            state.players@.len() == old(state).players@.len(),
            state@ == (ClientModel { players: state@.players, ..old(state)@ }),
            forall|k: int| 0 <= k < i ==> #[trigger] state.players@[k] == old(
                state,
            ).players@[k].after_steps(1),
            forall|k: int|
                i <= k < state.players@.len() ==> #[trigger] state.players@[k] == old(
                    state,
                ).players@[k],
        decreases state.players.len() - i,
    {
        state.players[i].step();
        i += 1;
    }
    proof {
        assert(state.players@ =~= old(state)@.after_steps(1).players);
    }
}

/// Lets `elapsed_nanos` nanoseconds pass: adds them to the outstanding time
/// and, while that exceeds one timestep, takes a timestep off and advances
/// what the client knows by it. Returns the number of timesteps simulated,
/// which is the number of frames that have passed.
pub fn catch_up(state: &mut State, elapsed_nanos: u64) -> (steps: u64)
    requires
        old(state).wf(),
    ensures
        final(state).wf(),
        steps == steps_due(
            accumulated_time(old(state)@.time_since_last_update, elapsed_nanos as nat),
        ),
        final(state)@ == old(state)@.after_elapsed(elapsed_nanos as nat),
{
    state.time_since_last_update = state.time_since_last_update.saturating_add(elapsed_nanos);
    let ghost total = state.time_since_last_update as nat;
    let mut steps: u64 = 0;
    proof {
        assert(state.players@ =~= players_after(old(state).players@, 0)) by {
            assert forall|k: int| 0 <= k < state.players@.len() implies state.players@[k] == old(
                state,
            ).players@[k].after_steps(0) by {
                let p = old(state).players@[k];
                lemma_moves_compose(p.pos, p.vel, 0, 0);
            }
        }
    }
    while state.time_since_last_update > TIMESTEP_NANOS
        invariant
            state.wf(),
            total == accumulated_time(
                old(state)@.time_since_last_update,
                elapsed_nanos as nat,
            ),
            state.time_since_last_update + steps * TIMESTEP_NANOS == total,
            steps_due(total) == steps + steps_due(state.time_since_last_update as nat),
            state.players@ == players_after(old(state).players@, steps as nat),
            state.running == old(state).running,
            state.client_id == old(state).client_id,
        decreases state.time_since_last_update,
    {
        state.time_since_last_update -= TIMESTEP_NANOS;
        let ghost before = state.players@;
        step(state);
        steps += 1;
        proof {
            assert(state.players@ =~= players_after(old(state).players@, steps as nat)) by {
                assert forall|k: int| 0 <= k < state.players@.len() implies state.players@[k]
                    == old(state).players@[k].after_steps(steps as nat) by {
                    let p = old(state).players@[k];
                    lemma_moves_compose(p.pos, p.vel, (steps - 1) as nat, 1);
                    assert(before[k] == p.after_steps((steps - 1) as nat));
                    assert(state.players@[k] == before[k].after_steps(1));
                }
            }
        }
    }
    steps
}

/// Applies the keys held down in one frame: the escape key ends the run, and
/// the other keys move every player that the client steers by
/// `PLAYER_SPEED`.
pub fn process_events_and_input(input: Input, state: &mut State)
    requires
        old(state).wf(),
    ensures
        final(state).wf(),
        final(state)@ == old(state)@.after_input(input),
{
    if input.escape {
        state.running = false;
    }
    let mut i: usize = 0;
    while i < state.players.len()
        invariant
            i <= state.players@.len(),
            state.players@.len() == old(state).players@.len(),
            state@ == (ClientModel {
                running: old(state)@.running && !input.escape,
                players: state@.players,
                ..old(state)@
            }),
            forall|k: int| 0 <= k < i ==> #[trigger] state.players@[k] == old(
                state,
            )@.after_input(input).players[k],
            forall|k: int|
                i <= k < state.players@.len() ==> #[trigger] state.players@[k] == old(
                    state,
                ).players@[k],
        decreases state.players.len() - i,
    {
        let player = state.players[i];
        let steers = match state.client_id {
            Some(client_id) => player.owner_client_id == client_id,
            None => true,
        };
        if steers {
            let mut pos = player.pos;
            if input.up {
                pos.y = add_coordinates(pos.y, -PLAYER_SPEED);
            }
            if input.down {
                pos.y = add_coordinates(pos.y, PLAYER_SPEED);
            }
            if input.left {
                pos.x = add_coordinates(pos.x, -PLAYER_SPEED);
            }
            if input.right {
                pos.x = add_coordinates(pos.x, PLAYER_SPEED);
            }
            state.players[i].pos = pos;
        }
        i += 1;
    }
    proof {
        assert(state.players@ =~= old(state)@.after_input(input).players);
    }
}

/// The position reports that the client owes in the frame `current_frame`
/// when it reports every `interval` frames: in a frame that is a multiple of
/// the interval, one report for each player of its own; in any other frame,
/// none.
pub fn interval_transmit_position(current_frame: u32, interval: u32, state: &State) -> (reports: Vec<
    ClientToServerMessageData,
>)
    requires
        interval != 0,
    ensures
        requests_said(reports@) == if current_frame % interval == 0 {
            reports_due(state@, state@.players)
        } else {
            Seq::empty()
        },
{
    let mut reports: Vec<ClientToServerMessageData> = Vec::new();
    if current_frame % interval != 0 {
        proof {
            assert(requests_said(reports@) =~= Seq::<ClientRequest>::empty());
        }
        return reports;
    }
    let mut i: usize = 0;
    proof {
        assert(requests_said(reports@) =~= Seq::<ClientRequest>::empty());
        assert(state.players@.take(0) =~= Seq::<Player>::empty());
    }
    while i < state.players.len()
        invariant
            i <= state.players@.len(),
            requests_said(reports@) == reports_due(state@, state.players@.take(i as int)),
        decreases state.players.len() - i,
    {
        let player = state.players[i];
        let ghost before = reports@;
        proof {
            let next = state.players@.take(i + 1);
            assert(next.drop_last() =~= state.players@.take(i as int));
            assert(next.last() == player);
        }
        let own = match state.client_id {
            Some(client_id) => player.owner_client_id == client_id,
            None => false,
        };
        if own {
            let report = ClientToServerMessageData::EntityPosition {
                entity_id: player.entity_id,
                pos: player.pos,
            };
            reports.push(report);
            proof {
                assert(requests_said(reports@) =~= requests_said(before).push(
                    position_report(player),
                ));
            }
        }
        i += 1;
    }
    proof {
        assert(state.players@.take(state.players@.len() as int) =~= state.players@);
    }
    reports
}

} // verus!
