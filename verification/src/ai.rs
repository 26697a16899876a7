use vstd::prelude::*;
use crate::config::{ENEMY_SPEED, UNIT};
use crate::entity::{Body, Bullet, Enemy, Faction, Player};
use crate::geometry::Vector;
use crate::math::{aim, aimed, dist_squared, distance_squared};

verus! {

/// The velocity of an enemy that seeks `target`: enemy speed toward the
/// target, and rest once the enemy is within one world unit of it.
pub open spec fn seek_velocity(pos: Vector, target: Vector) -> Vector {
    if distance_squared(pos, target) > UNIT * UNIT {
        aimed(pos, target, ENEMY_SPEED as int)
    } else {
        Vector::zero()
    }
}

impl Enemy {
    /// This enemy steering toward `target`.
    pub open spec fn seeking(self, target: Vector) -> Enemy {
        Enemy {
            body: Body {
                pos: self.body.pos,
                vel: seek_velocity(self.body.pos, target),
                size: self.body.size,
            },
            gun: self.gun,
        }
    }

    /// Whether this enemy shoots at `target` in this frame: its gun has just
    /// finished and the target is not at its own centre.
    pub open spec fn shoots(self, target: Vector, dt_nanos: nat) -> bool {
        self.gun.ticked(dt_nanos).finished && self.body.pos != target
    }

    /// This enemy after its gun ran for one frame: the gun has ticked, and
    /// starts over where it was fired.
    pub open spec fn after_gun(self, target: Vector, dt_nanos: nat) -> Enemy {
        Enemy {
            body: self.body,
            gun: if self.shoots(target, dt_nanos) {
                self.gun.ticked(dt_nanos).rewound()
            } else {
                self.gun.ticked(dt_nanos)
            },
        }
    }
}

/// The enemies after each has set its velocity toward the player; without
/// a player they keep their velocities.
pub open spec fn enemies_seeking(enemies: Seq<Enemy>, player: Option<Player>) -> Seq<Enemy> {
    match player {
        Some(p) => Seq::new(enemies.len(), |i: int| enemies[i].seeking(p.body.pos)),
        None => enemies,
    }
}

/// Computes the velocity of an enemy that seeks `target`.
pub fn seek(pos: Vector, target: Vector) -> (v: Vector)
    ensures
        v == seek_velocity(pos, target),
{
    if dist_squared(pos, target) > (UNIT as u128) * (UNIT as u128) {
        aim(pos, target, ENEMY_SPEED as i64)
    } else {
        Vector { x: 0, y: 0 }
    }
}

/// Steers every enemy toward the player.
pub fn enemy_ai_seek_player(enemies: &mut Vec<Enemy>, player: &Option<Player>)
    ensures
        final(enemies)@ == enemies_seeking(old(enemies)@, *player),
{
    let target = match player {
        Some(p) => p.body.pos,
        None => {
            return;
        },
    };
    let ghost all_enemies = enemies@;
    let mut i: usize = 0;
    while i < enemies.len()
        invariant
            i <= enemies.len(),
            enemies@.len() == all_enemies.len(),
            forall|j: int| 0 <= j < i ==> enemies@[j] == all_enemies[j].seeking(target),
            forall|j: int| i <= j < enemies@.len() ==> enemies@[j] == all_enemies[j],
        decreases enemies.len() - i,
    {
        let enemy = enemies[i];
        let body = Body { pos: enemy.body.pos, vel: seek(enemy.body.pos, target), size: enemy.body.size };
        enemies.set(i, Enemy { body, gun: enemy.gun });
        i += 1;
    }
    assert(enemies@ =~= enemies_seeking(all_enemies, *player));
}

/// The bullets that the first `count` enemies fire at `target` in this
/// frame, in the order of the enemies.
pub open spec fn shots(enemies: Seq<Enemy>, target: Vector, dt_nanos: nat, count: int) -> Seq<Bullet>
    decreases count,
{
    if count <= 0 {
        Seq::empty()
    } else {
        let enemy = enemies[count - 1];
        let before = shots(enemies, target, dt_nanos, count - 1);
        if enemy.shoots(target, dt_nanos) {
            before.push(Bullet::fired(enemy.body, enemy.body.pos, target, Faction::Enemy))
        } else {
            before
        }
    }
}

/// The enemies after their guns ran for one frame; without a player the
/// guns stand still.
pub open spec fn enemies_after_guns(enemies: Seq<Enemy>, player: Option<Player>, dt_nanos: nat) -> Seq<
    Enemy,
> {
    match player {
        Some(p) => Seq::new(enemies.len(), |i: int| enemies[i].after_gun(p.body.pos, dt_nanos)),
        None => enemies,
    }
}

/// The bullets after the enemies fired: the new ones follow the old ones.
pub open spec fn with_enemy_shots(
    bullets: Seq<Bullet>,
    enemies: Seq<Enemy>,
    player: Option<Player>,
    dt_nanos: nat,
) -> Seq<Bullet> {
    match player {
        Some(p) => bullets + shots(enemies, p.body.pos, dt_nanos, enemies.len() as int),
        None => bullets,
    }
}

/// Ticks the gun of every enemy and lets each gun that has finished fire a
/// bullet at the player. Nothing happens without a player, and a gun that
/// finished on top of the player does not fire and is not reset.
pub fn enemy_handle_fire(
    enemies: &mut Vec<Enemy>,
    bullets: &mut Vec<Bullet>,
    player: &Option<Player>,
    dt_nanos: u32,
)
    ensures
        final(enemies)@ == enemies_after_guns(old(enemies)@, *player, dt_nanos as nat),
        final(bullets)@ == with_enemy_shots(old(bullets)@, old(enemies)@, *player, dt_nanos as nat),
{
    let target = match player {
        Some(p) => p.body.pos,
        None => {
            return;
        },
    };
    let ghost all_enemies = enemies@;
    let ghost old_bullets = bullets@;
    let mut i: usize = 0;
    assert(bullets@ =~= old_bullets + shots(all_enemies, target, dt_nanos as nat, 0));
    while i < enemies.len()
        invariant
            i <= enemies.len(),
            enemies@.len() == all_enemies.len(),
            forall|j: int|
                0 <= j < i ==> enemies@[j] == all_enemies[j].after_gun(target, dt_nanos as nat),
            forall|j: int| i <= j < enemies@.len() ==> enemies@[j] == all_enemies[j],
            bullets@ == old_bullets + shots(all_enemies, target, dt_nanos as nat, i as int),
        decreases enemies.len() - i,
    {
        let enemy = enemies[i];
        let mut gun = enemy.gun;
        gun.tick(dt_nanos as u64);
        if gun.finished() && (enemy.body.pos.x != target.x || enemy.body.pos.y != target.y) {
            bullets.push(Bullet::fire(&enemy.body, enemy.body.pos, target, Faction::Enemy));
            gun.reset();
        }
        enemies.set(i, Enemy { body: enemy.body, gun });
        assert(bullets@ =~= old_bullets + shots(all_enemies, target, dt_nanos as nat, i + 1));
        i += 1;
    }
    assert(enemies@ =~= enemies_after_guns(all_enemies, *player, dt_nanos as nat));
}

} // verus!
