use vstd::prelude::*;
use crate::config::PLAYER_SPEED;
use crate::entity::{Body, Bullet, Faction, Input, Player};
use crate::geometry::Vector;
use crate::math::{aim, aimed};
use crate::timer::Countdown;

verus! {

/// The direction that the held movement keys ask for: each component is
/// -1, 0 or 1, and opposite keys cancel.
pub open spec fn input_direction(input: Input) -> Vector {
    Vector {
        x: ((if input.right { 1int } else { 0int }) - (if input.left { 1int } else { 0int })) as i32,
        y: ((if input.up { 1int } else { 0int }) - (if input.down { 1int } else { 0int })) as i32,
    }
}

impl Player {
    /// This player under the given input: with a direction held it turns to
    /// face it and moves along it at player speed; with none it stops and
    /// keeps facing where it did.
    pub open spec fn steered(self, input: Input) -> Player {
        let dir = input_direction(input);
        if dir.is_zero() {
            Player {
                body: Body { pos: self.body.pos, vel: Vector::zero(), size: self.body.size },
                facing: self.facing,
            }
        } else {
            Player {
                body: Body {
                    pos: self.body.pos,
                    vel: aimed(Vector::zero(), dir, PLAYER_SPEED as int),
                    size: self.body.size,
                },
                facing: dir,
            }
        }
    }
}

/// The player, if there is one, under the given input.
pub open spec fn steered_player(player: Option<Player>, input: Input) -> Option<Player> {
    match player {
        Some(p) => Some(p.steered(input)),
        None => None,
    }
}

/// Reads the direction off the movement keys.
pub fn direction_of(input: &Input) -> (dir: Vector)
    ensures
        dir == input_direction(*input),
{
    let mut x: i32 = 0;
    let mut y: i32 = 0;
    if input.up {
        y = y + 1;
    }
    if input.down {
        y = y - 1;
    }
    if input.left {
        x = x - 1;
    }
    if input.right {
        x = x + 1;
    }
    Vector { x, y }
}

/// Turns the held movement keys into the player's velocity and facing.
pub fn player_input(player: &mut Option<Player>, input: &Input)
    ensures
        *final(player) == steered_player(*old(player), *input),
{
    if let Some(p) = *player {
        let dir = direction_of(input);
        if dir.x == 0 && dir.y == 0 {
            *player = Some(
                Player {
                    body: Body { pos: p.body.pos, vel: Vector { x: 0, y: 0 }, size: p.body.size },
                    facing: p.facing,
                },
            );
        } else {
            *player = Some(
                Player {
                    body: Body {
                        pos: p.body.pos,
                        vel: aim(Vector::origin(), dir, PLAYER_SPEED as i64),
                        size: p.body.size,
                    },
                    facing: dir,
                },
            );
        }
    }
}

/// Whether the player shoots in this frame: fire was pressed, the cooldown
/// has finished, and there is a player that faces somewhere.
pub open spec fn player_fires(
    cooldown: Countdown,
    fire: bool,
    player: Option<Player>,
    dt_nanos: nat,
) -> bool {
    &&& fire
    &&& cooldown.ticked(dt_nanos).finished
    &&& player is Some
    &&& !player->0.facing.is_zero()
}

/// The cooldown after one frame: it has ticked, and starts over after a shot.
pub open spec fn cooldown_after(
    cooldown: Countdown,
    fire: bool,
    player: Option<Player>,
    dt_nanos: nat,
) -> Countdown {
    if player_fires(cooldown, fire, player, dt_nanos) {
        cooldown.ticked(dt_nanos).rewound()
    } else {
        cooldown.ticked(dt_nanos)
    }
}

/// The bullets after the player's turn to shoot: a new bullet follows the
/// old ones.
pub open spec fn with_player_shot(
    bullets: Seq<Bullet>,
    cooldown: Countdown,
    fire: bool,
    player: Option<Player>,
    dt_nanos: nat,
) -> Seq<Bullet> {
    if player_fires(cooldown, fire, player, dt_nanos) {
        bullets.push(
            Bullet::fired(player->0.body, Vector::zero(), player->0.facing, Faction::Player),
        )
    } else {
        bullets
    }
}

/// Ticks the cooldown and fires a bullet along the player's facing when
/// fire was pressed and the cooldown has finished.
pub fn handle_fire(
    cooldown: &mut Countdown,
    fire: bool,
    player: &Option<Player>,
    bullets: &mut Vec<Bullet>,
    dt_nanos: u32,
)
    ensures
        *final(cooldown) == cooldown_after(*old(cooldown), fire, *player, dt_nanos as nat),
        final(bullets)@ == with_player_shot(
            old(bullets)@,
            *old(cooldown),
            fire,
            *player,
            dt_nanos as nat,
        ),
{
    cooldown.tick(dt_nanos as u64);
    if !fire || !cooldown.finished() {
        return;
    }
    let p = match player {
        Some(p) => p,
        None => {
            return;
        },
    };
    if p.facing.x == 0 && p.facing.y == 0 {
        return;
    }
    bullets.push(Bullet::fire(&p.body, Vector::origin(), p.facing, Faction::Player));
    cooldown.reset();
}

} // verus!
