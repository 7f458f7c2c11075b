//! The world: every entity, and the time that has not been simulated yet.

use vstd::prelude::*;
use crate::game_objects::Player;
use crate::server_to_client::copy_players;
use crate::vec2::{lemma_moves_compose, Vec2};

verus! {

/// The number of timesteps simulated per second.
pub const FRAMES_PER_SECOND: u32 = 60;

/// The length of one timestep in nanoseconds.
pub const TIMESTEP_NANOS: u64 = 16_666_666;

/// What the world holds: its entities, each at the place of its entity id,
/// and the nanoseconds of elapsed time not yet simulated.
pub ghost struct WorldModel {
    pub players: Seq<Player>,
    pub time_since_last_update: nat,
}

/// The entities after each has been advanced by `steps` timesteps.
pub open spec fn players_after(players: Seq<Player>, steps: nat) -> Seq<Player> {
    Seq::new(players.len(), |i: int| players[i].after_steps(steps))
}

/// The number of whole timesteps to simulate when `accumulated` nanoseconds
/// are outstanding: one for every timestep that the time exceeds.
pub open spec fn steps_due(accumulated: nat) -> nat {
    if accumulated == 0 {
        0
    } else {
        ((accumulated - 1) / TIMESTEP_NANOS as int) as nat
    }
}

/// The nanoseconds that stay outstanding after the timesteps due have been
/// simulated.
pub open spec fn time_left(accumulated: nat) -> nat {
    (accumulated - steps_due(accumulated) * TIMESTEP_NANOS) as nat
}

/// The outstanding time after `elapsed` more nanoseconds, which stops at the
/// largest value the counter holds.
pub open spec fn accumulated_time(outstanding: nat, elapsed: nat) -> nat {
    if outstanding + elapsed > u64::MAX {
        u64::MAX as nat
    } else {
        outstanding + elapsed
    }
}

impl WorldModel {
    /// The world without entities and without outstanding time.
    pub open spec fn empty() -> WorldModel {
        WorldModel { players: Seq::empty(), time_since_last_update: 0 }
    }

    /// Every entity stands at the place of its id, and the ids fit their
    /// type with one value to spare.
    pub open spec fn wf(self) -> bool {
        &&& self.players.len() <= u32::MAX
        &&& forall|i: int| 0 <= i < self.players.len() ==> (#[trigger] self.players[i]).entity_id == i
    }

    /// The entity with the id `entity_id`, if there is one.
    pub open spec fn player(self, entity_id: u32) -> Option<Player> {
        if entity_id < self.players.len() {
            Some(self.players[entity_id as int])
        } else {
            None
        }
    }

    /// The world after `steps` timesteps.
    pub open spec fn after_steps(self, steps: nat) -> WorldModel {
        WorldModel { players: players_after(self.players, steps), ..self }
    }

    /// The world after `elapsed` more nanoseconds have passed: the timesteps
    /// due are simulated, and the rest of the time stays outstanding.
    pub open spec fn after_elapsed(self, elapsed: nat) -> WorldModel {
        let total = accumulated_time(self.time_since_last_update, elapsed);
        WorldModel {
            players: players_after(self.players, steps_due(total)),
            time_since_last_update: time_left(total),
        }
    }
}

/// The world of the game.
pub struct State {
    time_since_last_update: u64,
    players: Vec<Player>,
}

impl View for State {
    type V = WorldModel;

    closed spec fn view(&self) -> WorldModel {
        WorldModel {
            players: self.players@,
            time_since_last_update: self.time_since_last_update as nat,
        }
    }
}

impl State {
    /// The world is well-formed.
    pub open spec fn wf(&self) -> bool {
        self@.wf()
    }

    /// A world without entities and without outstanding time.
    pub fn new() -> (state: State)
        ensures
            state.wf(),
            state@ == WorldModel::empty(),
    {
        State { time_since_last_update: 0, players: Vec::new() }
    }

    /// The nanoseconds of elapsed time not yet simulated.
    pub fn time_since_last_update(&self) -> (nanos: u64)
        ensures
            nanos == self@.time_since_last_update,
    {
        self.time_since_last_update
    }

    /// The id that the next entity gets.
    pub fn next_eid(&self) -> (next: u32)
        requires
            self.wf(),
        ensures
            next == self@.players.len(),
    {
        self.players.len() as u32
    }

    /// The entity with the id `entity_id`, if there is one.
    pub fn player(&self, entity_id: u32) -> (player: Option<Player>)
        ensures
            player == self@.player(entity_id),
    {
        if (entity_id as usize) < self.players.len() {
            Some(self.players[entity_id as usize])
        } else {
            None
        }
    }

    /// Every entity, in the order of the entity ids.
    pub fn players(&self) -> (players: Vec<Player>)
        ensures
            players@ == self@.players,
    {
        copy_players(&self.players)
    }

    /// Adds a player of the client `owner_client_id` at rest at the origin,
    /// and returns its entity id: the number of entities before. Returns
    /// `None`, and changes nothing, when no entity id is left.
    pub fn spawn_player(&mut self, owner_client_id: u32) -> (entity_id: Option<u32>)
        requires
            old(self).wf(),
        ensures
            final(self).wf(),
            old(self)@.players.len() < u32::MAX ==> entity_id == Some(
                old(self)@.players.len() as u32,
            ) && final(self)@ == (WorldModel {
                players: old(self)@.players.push(
                    Player {
                        owner_client_id,
                        entity_id: old(self)@.players.len() as u32,
                        pos: Vec2 { x: 0, y: 0 },
                        vel: Vec2 { x: 0, y: 0 },
                    },
                ),
                ..old(self)@
            }),
            old(self)@.players.len() >= u32::MAX ==> entity_id is None && final(self)@ == old(
                self,
            )@,
    {
        if self.players.len() >= u32::MAX as usize {
            return None;
        }
        let entity_id: u32 = self.players.len() as u32;
        self.players.push(Player::new(owner_client_id, entity_id));
        Some(entity_id)
    }

    /// Puts the entity `entity_id` at `pos`, if it exists and belongs to the
    /// client `client_id`. Returns whether it did; otherwise nothing changes.
    pub fn move_player(&mut self, client_id: u32, entity_id: u32, pos: Vec2) -> (moved: bool)
        requires
            old(self).wf(),
        ensures
            final(self).wf(),
            moved == (old(self)@.player(entity_id) is Some && old(self)@.player(
                entity_id,
            )->Some_0.owner_client_id == client_id),
            moved ==> final(self)@ == (WorldModel {
                players: old(self)@.players.update(
                    entity_id as int,
                    Player { pos, ..old(self)@.players[entity_id as int] },
                ),
                ..old(self)@
            }),
            !moved ==> final(self)@ == old(self)@,
    {
        let place = entity_id as usize;
        if place < self.players.len() && self.players[place].owner_client_id == client_id {
            self.players[place].pos = pos;
            proof {
                assert(self.players@ =~= old(self).players@.update(
                    entity_id as int,
                    Player { pos, ..old(self).players@[entity_id as int] },
                ));
            }
            true
        } else {
            false
        }
    }

    /// Gives the entity `entity_id` the velocity `vel`, if it exists. Returns
    /// whether it does; otherwise nothing changes.
    pub fn set_velocity(&mut self, entity_id: u32, vel: Vec2) -> (found: bool)
        requires
            old(self).wf(),
        ensures
            final(self).wf(),
            found == (old(self)@.player(entity_id) is Some),
            found ==> final(self)@ == (WorldModel {
                players: old(self)@.players.update(
                    entity_id as int,
                    Player { vel, ..old(self)@.players[entity_id as int] },
                ),
                ..old(self)@
            }),
            !found ==> final(self)@ == old(self)@,
    {
        let place = entity_id as usize;
        if place < self.players.len() {
            self.players[place].vel = vel;
            proof {
                assert(self.players@ =~= old(self).players@.update(
                    entity_id as int,
                    Player { vel, ..old(self).players@[entity_id as int] },
                ));
            }
            true
        } else {
            false
        }
    }
}

impl Default for State {
    /// A world without entities and without outstanding time.
    fn default() -> (state: State)
        ensures
            state.wf(),
            state@ == WorldModel::empty(),
    {
        State::new()
    }
}

/// Advances the world by one timestep: every entity moves by its velocity.
pub fn step(state: &mut State)
    requires
        old(state).wf(),
    ensures
        final(state).wf(),
        final(state)@ == old(state)@.after_steps(1),
{
    let mut i: usize = 0;
    while i < state.players.len()
        invariant
            i <= state.players@.len(),
            state.players@.len() == old(state).players@.len(),
            state.time_since_last_update == old(state).time_since_last_update,
            forall|k: int| 0 <= k < i ==> #[trigger] state.players@[k] == old(
                state,
            ).players@[k].after_steps(1),
            forall|k: int|
                i <= k < state.players@.len() ==> #[trigger] state.players@[k] == old(
                    state,
                ).players@[k],
        decreases state.players.len() - i,
    {
        state.players[i].step();
        i += 1;
    }
    proof {
        assert(state.players@ =~= players_after(old(state).players@, 1));
    }
}

/// Lets `elapsed_nanos` nanoseconds pass: adds them to the outstanding time
/// and, while that exceeds one timestep, takes a timestep off and advances
/// the world by it. Returns the number of timesteps simulated.
pub fn catch_up(state: &mut State, elapsed_nanos: u64) -> (steps: u64)
    requires
        old(state).wf(),
    ensures
        final(state).wf(),
        steps == steps_due(
            accumulated_time(old(state)@.time_since_last_update, elapsed_nanos as nat),
        ),
        final(state)@ == old(state)@.after_elapsed(elapsed_nanos as nat),
{
    state.time_since_last_update = state.time_since_last_update.saturating_add(elapsed_nanos);
    let ghost total = state.time_since_last_update as nat;
    let mut steps: u64 = 0;
    proof {
        assert(state.players@ =~= players_after(old(state).players@, 0)) by {
            assert forall|k: int| 0 <= k < state.players@.len() implies state.players@[k] == old(
                state,
            ).players@[k].after_steps(0) by {
                let p = old(state).players@[k];
                lemma_moves_compose(p.pos, p.vel, 0, 0);
            }
        }
    }
    while state.time_since_last_update > TIMESTEP_NANOS
        invariant
            state.wf(),
            total == accumulated_time(
                old(state)@.time_since_last_update,
                elapsed_nanos as nat,
            ),
            state.time_since_last_update + steps * TIMESTEP_NANOS == total,
            steps_due(total) == steps + steps_due(state.time_since_last_update as nat),
            state.players@ == players_after(old(state).players@, steps as nat),
        decreases state.time_since_last_update,
    {
        state.time_since_last_update -= TIMESTEP_NANOS;
        let ghost before = state.players@;
        step(state);
        steps += 1;
        proof {
            assert(state.players@ =~= players_after(old(state).players@, steps as nat)) by {
                assert forall|k: int| 0 <= k < state.players@.len() implies state.players@[k]
                    == old(state).players@[k].after_steps(steps as nat) by {
                    let p = old(state).players@[k];
                    lemma_moves_compose(p.pos, p.vel, (steps - 1) as nat, 1);
                    assert(before[k] == p.after_steps((steps - 1) as nat));
                    assert(state.players@[k] == before[k].after_steps(1));
                }
            }
        }
    }
    steps
}

/// Simulating `first` timesteps and then `second` more leaves every entity
/// where `first + second` timesteps at once leave it.
pub proof fn lemma_steps_compose(world: WorldModel, first: nat, second: nat)
    ensures
        world.after_steps(first).after_steps(second) == world.after_steps(first + second),
        world.after_steps(0) == world,
{
    assert forall|k: int| 0 <= k < world.players.len() implies players_after(
        players_after(world.players, first),
        second,
    )[k] == players_after(world.players, first + second)[k] && players_after(world.players, 0)[k]
        == world.players[k] by {
        let p = world.players[k];
        lemma_moves_compose(p.pos, p.vel, first, second);
    }
    assert(players_after(players_after(world.players, first), second) =~= players_after(
        world.players,
        first + second,
    ));
    assert(players_after(world.players, 0) =~= world.players);
}

/// However elapsed time is cut into pieces, the same total gives the same
/// world: letting `first` and then `second` nanoseconds pass simulates as
/// many timesteps, and leaves as much time outstanding, as letting
/// `first + second` nanoseconds pass at once. This holds as long as the
/// counter of outstanding time does not reach its largest value.
pub proof fn lemma_pacing_is_irrelevant(world: WorldModel, first: nat, second: nat)
    requires
        world.time_since_last_update + first + second <= u64::MAX,
    ensures
        world.after_elapsed(first).after_elapsed(second) == world.after_elapsed(first + second),
        steps_due(world.time_since_last_update + first) + steps_due(
            time_left(world.time_since_last_update + first) + second,
        ) == steps_due(world.time_since_last_update + first + second),
{
    let t = TIMESTEP_NANOS as int;
    let x = (world.time_since_last_update + first) as int;
    let s1 = steps_due(x as nat) as int;
    let rest = time_left(x as nat) as int;
    lemma_time_left_bounds(x as nat);
    lemma_steps_compose(world, s1 as nat, steps_due((rest + second) as nat));
}

/// After the timesteps due, at most one timestep of time stays outstanding,
/// and no time is lost.
pub proof fn lemma_time_left_bounds(accumulated: nat)
    ensures
        time_left(accumulated) <= TIMESTEP_NANOS,
        accumulated > 0 ==> time_left(accumulated) > 0,
        time_left(accumulated) + steps_due(accumulated) * TIMESTEP_NANOS == accumulated,
        steps_due(time_left(accumulated)) == 0,
{
}

} // verus!
