//! What moves in the world: live bots and projectiles in flight.
//!
//! Their motion is computed elsewhere. The simulation frame only keeps
//! them, so they are plain data; positions and velocities are vectors of
//! single-precision bit patterns.

use crate::botdef::BotDef;
use crate::id::{allocate, BotDefId, BotId, ProjectileId};
use crate::part::Scalar;
use vstd::prelude::*;

verus! {

/// A live bot: an instance of a bot definition in the world.
#[derive(Debug, Clone, Copy, PartialEq, Eq)]
pub struct KBot {
    pub id: BotId,
    pub botdef_id: BotDefId,
    pub team: u8,
    pub position: [u32; 3],
    pub dir: [u32; 3],
    pub speed: Scalar,
    pub life: i32,
}

impl KBot {
    /// A bot of the kind that `botdef` defines, for `team`, standing
    /// still at `position` and facing `dir`, with the full life of its
    /// kind and an identifier drawn at random.
    pub fn new(botdef: &BotDef, team: u8, position: [u32; 3], dir: [u32; 3]) -> (bot: KBot)
        ensures
            bot.botdef_id@ == botdef.id@,
            bot.team == team,
            bot.position == position,
            bot.dir == dir,
            bot.speed == (Scalar { bits: 0 }),
            bot.life == botdef.max_life,
    {
        KBot {
            id: allocate(),
            botdef_id: botdef.id,
            team,
            position,
            dir,
            speed: Scalar { bits: 0 },
            life: botdef.max_life,
        }
    }
}

/// A projectile in flight.
#[derive(Debug, Clone, Copy, PartialEq, Eq)]
pub struct KinematicProjectile {
    pub id: ProjectileId,
    pub position: [u32; 3],
    pub velocity: [u32; 3],
    pub birth_frame: i32,
}

impl KinematicProjectile {
    /// A projectile launched in frame `birth_frame` from `position` with
    /// `velocity`, with an identifier drawn at random.
    pub fn new(position: [u32; 3], velocity: [u32; 3], birth_frame: i32) -> (shot:
        KinematicProjectile)
        ensures
            shot.position == position,
            shot.velocity == velocity,
            shot.birth_frame == birth_frame,
    {
        KinematicProjectile { id: allocate(), position, velocity, birth_frame }
    }
}

} // verus!
