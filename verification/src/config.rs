use vstd::prelude::*;

verus! {

/// Sub-units per world unit.
pub const UNIT: i32 = 1_000;

/// Width of the arena.
pub const ARENA_W: i32 = 800_000;

/// Height of the arena.
pub const ARENA_H: i32 = 600_000;

/// Edge of one maze tile; the arena holds 20 by 15 of them.
pub const TILE: i32 = 40_000;

/// World x of the centre of the top-left tile.
pub const ORIGIN_X: i32 = -380_000;

/// World y of the centre of the top-left tile.
pub const ORIGIN_Y: i32 = 280_000;

/// Where the player starts when the maze marks no start: x.
pub const FALLBACK_START_X: i32 = 0;

/// Where the player starts when the maze marks no start: y.
pub const FALLBACK_START_Y: i32 = -210_000;

/// Speed of the player, in sub-units per second.
pub const PLAYER_SPEED: i32 = 300_000;

/// Edge of the player's square box.
pub const PLAYER_SIZE: i32 = 32_000;

/// Speed of every bullet, in sub-units per second.
pub const BULLET_SPEED: i32 = 600_000;

/// Width of a bullet's box.
pub const BULLET_W: i32 = 6_000;

/// Height of a bullet's box.
pub const BULLET_H: i32 = 12_000;

/// Speed of an enemy, in sub-units per second.
pub const ENEMY_SPEED: i32 = 180_000;

/// Edge of an enemy's square box.
pub const ENEMY_SIZE: i32 = 28_000;

/// Most enemies alive at once.
pub const ENEMY_CAP: usize = 24;

/// Period of the enemy spawn timer, in nanoseconds.
pub const ENEMY_SPAWN_NANOS: u64 = 1_250_000_000;

/// Period of each enemy's gun, in nanoseconds.
pub const ENEMY_FIRE_NANOS: u64 = 1_100_000_000;

/// Cooldown between two shots of the player, in nanoseconds.
pub const FIRE_COOLDOWN_NANOS: u64 = 160_000_000;

/// Sub-steps a blocked move is divided into.
pub const SWEEP_STEPS: i64 = 6;

/// Safety margin added to a bullet's look-ahead distance: half a world unit.
pub const CULL_MARGIN: i64 = 500;

/// Nanoseconds per second.
pub const NANOS_PER_SEC: i64 = 1_000_000_000;

} // verus!
