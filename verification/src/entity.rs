use vstd::prelude::*;
use crate::config::{
    BULLET_H, BULLET_SPEED, BULLET_W, ENEMY_FIRE_NANOS, ENEMY_SIZE, PLAYER_SIZE,
};
use crate::geometry::{trunc_div, Vector};
use crate::math::{aim, aimed};
use crate::timer::{Countdown, TimerKind};

verus! {

/// Whose bullet it is.
#[derive(Clone, Copy, PartialEq, Eq, Structural, Debug)]
pub enum Faction {
    Player,
    Enemy,
}

/// What every mover has: a position, a velocity in sub-units per second and
/// the full size of its box.
#[derive(Clone, Copy, PartialEq, Eq, Structural, Debug)]
pub struct Body {
    pub pos: Vector,
    pub vel: Vector,
    pub size: Vector,
}

/// The player's tank. `facing` is the direction of its last movement input,
/// each component -1, 0 or 1; shots leave along it.
#[derive(Clone, Copy, PartialEq, Eq, Structural, Debug)]
pub struct Player {
    pub body: Body,
    pub facing: Vector,
}

/// An enemy tank with the timer of its gun.
#[derive(Clone, Copy, PartialEq, Eq, Structural, Debug)]
pub struct Enemy {
    pub body: Body,
    pub gun: Countdown,
}

/// A bullet in flight.
#[derive(Clone, Copy, PartialEq, Eq, Structural, Debug)]
pub struct Bullet {
    pub body: Body,
    pub faction: Faction,
}

/// What the keyboard says in one frame: the movement keys that are held, and
/// whether fire was pressed in this frame.
#[derive(Clone, Copy, PartialEq, Eq, Structural, Debug)]
pub struct Input {
    pub up: bool,
    pub down: bool,
    pub left: bool,
    pub right: bool,
    pub fire: bool,
}

/// How far from its shooter's centre a bullet appears: six tenths of the
/// shooter's width.
pub open spec fn muzzle_reach(width: int) -> int {
    trunc_div(width * 6, 10)
}

impl Body {
    /// Half of the box's size on each axis.
    pub open spec fn half_extent(self) -> Vector {
        self.size.halved()
    }
}

impl Player {
    /// The player as it enters the arena at `start`: at rest, facing right.
    pub open spec fn placed_at(start: Vector) -> Player {
        Player {
            body: Body {
                pos: start,
                vel: Vector::zero(),
                size: Vector { x: PLAYER_SIZE, y: PLAYER_SIZE },
            },
            facing: Vector { x: 1, y: 0 },
        }
    }

    /// Makes the player that enters the arena at `start`.
    pub fn spawn(start: Vector) -> (p: Player)
        ensures
            p == Player::placed_at(start),
    {
        Player {
            body: Body {
                pos: start,
                vel: Vector { x: 0, y: 0 },
                size: Vector { x: PLAYER_SIZE, y: PLAYER_SIZE },
            },
            facing: Vector { x: 1, y: 0 },
        }
    }
}

impl Enemy {
    /// An enemy as it enters the arena at `pos`: at rest, its gun just started.
    pub open spec fn placed_at(pos: Vector) -> Enemy {
        Enemy {
            body: Body {
                pos,
                vel: Vector::zero(),
                size: Vector { x: ENEMY_SIZE, y: ENEMY_SIZE },
            },
            gun: Countdown::fresh(TimerKind::Repeating, ENEMY_FIRE_NANOS),
        }
    }

    /// Makes the enemy that enters the arena at `pos`.
    pub fn spawn(pos: Vector) -> (e: Enemy)
        ensures
            e == Enemy::placed_at(pos),
    {
        Enemy {
            body: Body {
                pos,
                vel: Vector { x: 0, y: 0 },
                size: Vector { x: ENEMY_SIZE, y: ENEMY_SIZE },
            },
            gun: Countdown::new(TimerKind::Repeating, ENEMY_FIRE_NANOS),
        }
    }
}

impl Bullet {
    /// The bullet that a shooter fires along the direction from `from` to
    /// `to`: it appears `muzzle_reach` of the shooter's width ahead of the
    /// shooter's centre and flies at bullet speed.
    pub open spec fn fired(shooter: Body, from: Vector, to: Vector, faction: Faction) -> Bullet {
        Bullet {
            body: Body {
                pos: shooter.pos.moved_by(aimed(from, to, muzzle_reach(shooter.size.x as int))),
                vel: aimed(from, to, BULLET_SPEED as int),
                size: Vector { x: BULLET_W, y: BULLET_H },
            },
            faction,
        }
    }

    /// Makes the bullet that `shooter` fires along the direction from
    /// `from` to `to`.
    pub fn fire(shooter: &Body, from: Vector, to: Vector, faction: Faction) -> (b: Bullet)
        ensures
            b == Bullet::fired(*shooter, from, to, faction),
    {
        let reach: i64 = (shooter.size.x as i64 * 6) / 10;
        Bullet {
            body: Body {
                pos: shooter.pos.offset(aim(from, to, reach)),
                vel: aim(from, to, BULLET_SPEED as i64),
                size: Vector { x: BULLET_W, y: BULLET_H },
            },
            faction,
        }
    }
}

} // verus!
