//! The simulated objects of the world.

use vstd::prelude::*;
use crate::vec2::Vec2;

verus! {

/// A player's entity: who owns it, its id in the world, where it is and how
/// far it moves in one timestep.
#[derive(Clone, Copy, Debug, PartialEq, Eq, Structural)]
pub struct Player {
    pub owner_client_id: u32,
    pub entity_id: u32,
    pub pos: Vec2,
    pub vel: Vec2,
}

impl Player {
    /// A player at rest at the origin.
    pub fn new(owner_client_id: u32, id: u32) -> (player: Player)
        ensures
            player == (Player {
                owner_client_id,
                entity_id: id,
                pos: Vec2 { x: 0, y: 0 },
                vel: Vec2 { x: 0, y: 0 },
            }),
    {
        Player { owner_client_id, entity_id: id, pos: Vec2::zero(), vel: Vec2::zero() }
    }

    /// The player after `steps` timesteps: moved by its velocity that many
    /// times, everything else unchanged.
    pub open spec fn after_steps(self, steps: nat) -> Player {
        Player { pos: self.pos.moved(self.vel, steps), ..self }
    }

    /// Advances the player by one timestep.
    pub fn step(&mut self)
        ensures
            *final(self) == old(self).after_steps(1),
    {
        self.pos = self.pos.saturating_add(self.vel);
    }
}

} // verus!
