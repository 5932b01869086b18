//! Fixed configuration of the simulation: map dimensions, room limits,
//! progression formula constants and item effect strengths.

use vstd::prelude::*;

verus! {

/// Index of the player in the active entity collection; the player is
/// always the first entity.
pub const PLAYER: usize = 0;

/// Width of the tile grid, in tiles.
pub const MAP_WIDTH: i32 = 80;
/// Height of the tile grid, in tiles.
pub const MAP_HEIGHT: i32 = 43;

/// Number of candidate rooms attempted per generated map.
pub const MAX_ROOMS: i32 = 30;
/// Smallest allowed room extent.
pub const ROOM_MIN_SIZE: i32 = 6;
/// Largest allowed room extent.
pub const ROOM_MAX_SIZE: i32 = 10;

/// Base experience needed for the first level-up.
pub const LEVEL_UP_BASE: i32 = 200;
/// Additional experience needed per level already reached.
pub const LEVEL_UP_FACTOR: i32 = 150;

/// Fixed capacity of the player's inventory.
pub const MAX_INVENTORY: usize = 26;

/// Hit points restored by a healing potion.
pub const HEAL_AMOUNT: i32 = 40;
/// Damage dealt by a lightning bolt scroll.
pub const LIGHTNING_DAMAGE: i32 = 40;
/// Maximum distance at which a lightning bolt finds a target.
pub const LIGHTNING_RANGE: i32 = 5;
/// Turns a confused monster stumbles around.
pub const CONFUSE_NUM_TURNS: i32 = 10;
/// Maximum distance at which a confusion scroll finds a target.
pub const CONFUSE_RANGE: i32 = 8;
/// Radius of a fireball blast, in tiles.
pub const FIREBALL_RADIUS: i32 = 3;
/// Damage dealt by a fireball to everything in its radius.
pub const FIREBALL_DAMAGE: i32 = 25;

} // verus!
