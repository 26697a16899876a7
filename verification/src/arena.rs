use vstd::prelude::*;
use crate::config::{ARENA_H, ARENA_W};
use crate::entity::{Body, Bullet, Enemy, Player};
use crate::geometry::Vector;

verus! {

/// The value nearest to `v` between `-limit` and `limit`.
pub open spec fn clamp_axis(v: int, limit: int) -> int {
    if v < -limit {
        -limit
    } else if v > limit {
        limit
    } else {
        v
    }
}

/// The point of the arena nearest to `pos`.
pub open spec fn kept_in_arena(pos: Vector) -> Vector {
    Vector {
        x: clamp_axis(pos.x as int, ARENA_W as int / 2) as i32,
        y: clamp_axis(pos.y as int, ARENA_H as int / 2) as i32,
    }
}

/// Whether a point lies in the arena, its border included.
pub open spec fn inside_arena(pos: Vector) -> bool {
    &&& -(ARENA_W as int / 2) <= pos.x <= ARENA_W as int / 2
    &&& -(ARENA_H as int / 2) <= pos.y <= ARENA_H as int / 2
}

impl Body {
    /// This body with its centre brought back into the arena.
    pub open spec fn confined(self) -> Body {
        Body { pos: kept_in_arena(self.pos), vel: self.vel, size: self.size }
    }

    /// Brings the centre back into the arena.
    pub fn confine(&mut self)
        ensures
            *final(self) == old(self).confined(),
            inside_arena(final(self).pos),
    {
        let half_w: i32 = ARENA_W / 2;
        let half_h: i32 = ARENA_H / 2;
        if self.pos.x < -half_w {
            self.pos.x = -half_w;
        } else if self.pos.x > half_w {
            self.pos.x = half_w;
        }
        if self.pos.y < -half_h {
            self.pos.y = -half_h;
        } else if self.pos.y > half_h {
            self.pos.y = half_h;
        }
    }
}

/// The player, if there is one, brought back into the arena.
pub open spec fn confined_player(player: Option<Player>) -> Option<Player> {
    match player {
        Some(p) => Some(Player { body: p.body.confined(), facing: p.facing }),
        None => None,
    }
}

/// Every enemy brought back into the arena.
pub open spec fn confined_enemies(enemies: Seq<Enemy>) -> Seq<Enemy> {
    Seq::new(
        enemies.len(),
        |i: int| Enemy { body: enemies[i].body.confined(), gun: enemies[i].gun },
    )
}

/// Every bullet brought back into the arena.
pub open spec fn confined_bullets(bullets: Seq<Bullet>) -> Seq<Bullet> {
    Seq::new(
        bullets.len(),
        |i: int| Bullet { body: bullets[i].body.confined(), faction: bullets[i].faction },
    )
}

/// Keeps the centre of the player, of every enemy and of every bullet
/// inside the arena.
pub fn clamp_to_arena(player: &mut Option<Player>, enemies: &mut Vec<Enemy>, bullets: &mut Vec<Bullet>)
    ensures
        *final(player) == confined_player(*old(player)),
        final(enemies)@ == confined_enemies(old(enemies)@),
        final(bullets)@ == confined_bullets(old(bullets)@),
        *final(player) matches Some(p) ==> inside_arena(p.body.pos),
        forall|i: int| 0 <= i < final(enemies)@.len() ==> inside_arena(
            (#[trigger] final(enemies)@[i]).body.pos,
        ),
        forall|i: int| 0 <= i < final(bullets)@.len() ==> inside_arena(
            (#[trigger] final(bullets)@[i]).body.pos,
        ),
{
    if let Some(p) = *player {
        let mut body = p.body;
        body.confine();
        *player = Some(Player { body, facing: p.facing });
    }
    let ghost all_enemies = enemies@;
    let mut i: usize = 0;
    while i < enemies.len()
        invariant
            i <= enemies.len(),
            enemies@.len() == all_enemies.len(),
            forall|j: int|
                0 <= j < i ==> enemies@[j] == (Enemy {
                    body: all_enemies[j].body.confined(),
                    gun: all_enemies[j].gun,
                }),
            forall|j: int| i <= j < enemies@.len() ==> enemies@[j] == all_enemies[j],
        decreases enemies.len() - i,
    {
        let enemy = enemies[i];
        let mut body = enemy.body;
        body.confine();
        enemies.set(i, Enemy { body, gun: enemy.gun });
        i += 1;
    }
    assert(enemies@ =~= confined_enemies(all_enemies));
    let ghost all_bullets = bullets@;
    let mut k: usize = 0;
    while k < bullets.len()
        invariant
            k <= bullets.len(),
            bullets@.len() == all_bullets.len(),
            forall|j: int|
                0 <= j < k ==> bullets@[j] == (Bullet {
                    body: all_bullets[j].body.confined(),
                    faction: all_bullets[j].faction,
                }),
            forall|j: int| k <= j < bullets@.len() ==> bullets@[j] == all_bullets[j],
        decreases bullets.len() - k,
    {
        let bullet = bullets[k];
        let mut body = bullet.body;
        body.confine();
        bullets.set(k, Bullet { body, faction: bullet.faction });
        k += 1;
    }
    assert(bullets@ =~= confined_bullets(all_bullets));
}

} // verus!
