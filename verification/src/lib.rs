//! Game rules of a small vertical space shooter.
//!
//! The engine side (sprites, windows, timers, positions, which are all
//! floating point) lives outside this crate. What stays here is every
//! decision the game makes on plain values: how many enemies may be alive,
//! how enemies are grouped into formations, when enemies fire, how the
//! player's input turns into movement and shots, which laser/enemy hits
//! turn into despawns and explosions, and how an explosion animation runs
//! its course.
use vstd::prelude::*;

pub mod combat;
pub mod enemy;
pub mod player;

verus! {

/// Number of cells in the explosion sprite sheet.
pub const EXPLOSION_LEN: usize = 16;

/// Most enemies the spawner lets into the game.
pub const ENEMY_MAX: u32 = 2;

/// Most enemies that share one formation before a new one is drawn.
pub const FORMATION_MEMBERS_MAX: u32 = 2;

} // verus!
