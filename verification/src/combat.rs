use vstd::prelude::*;
use crate::config::{
    BULLET_H, BULLET_SPEED, BULLET_W, CULL_MARGIN, NANOS_PER_SEC, SWEEP_STEPS, TILE,
};
use crate::entity::{Body, Bullet, Enemy, Faction, Player};
use crate::geometry::{aabb_overlap, clamp_coord, distance, overlap, trunc_div, Axis, Vector};
use crate::math::{
    aim, aimed, displacement, isqrt, lemma_aimed_straight, lemma_sqrt_floor_bounds,
    lemma_sqrt_of_square, sqrt_floor,
};
use crate::maze::Wall;
use crate::movement::{
    clear_steps, hits_wall, lemma_axis_move_stays_clear, lemma_clear_steps, overlaps_any, resolved,
    resolved_axis,
};

verus! {

/// Whether the bullet's box overlaps the target's box.
pub open spec fn strikes(bullet: Bullet, target: Body) -> bool {
    overlap(bullet.body.pos, bullet.body.half_extent(), target.pos, target.half_extent())
}

/// Index of the first enemy, from index `from` on, that the bullet strikes;
/// the number of enemies where it strikes none of them.
pub open spec fn first_struck(bullet: Bullet, enemies: Seq<Enemy>, from: int) -> int
    decreases enemies.len() - from,
{
    if from >= enemies.len() {
        enemies.len() as int
    } else if strikes(bullet, enemies[from].body) {
        from
    } else {
        first_struck(bullet, enemies, from + 1)
    }
}

/// `first_struck` finds the least index of a struck enemy.
pub proof fn lemma_first_struck(bullet: Bullet, enemies: Seq<Enemy>, from: int)
    requires
        0 <= from,
    ensures
        first_struck(bullet, enemies, from) <= enemies.len(),
        from <= enemies.len() ==> from <= first_struck(bullet, enemies, from),
        first_struck(bullet, enemies, from) < enemies.len() ==> strikes(
            bullet,
            enemies[first_struck(bullet, enemies, from)].body,
        ),
        forall|j: int|
            from <= j < first_struck(bullet, enemies, from) ==> !strikes(
                bullet,
                (#[trigger] enemies[j]).body,
            ),
    decreases enemies.len() - from,
{
    if from < enemies.len() && !strikes(bullet, enemies[from].body) {
        lemma_first_struck(bullet, enemies, from + 1);
    }
}

/// Finds the first enemy that a bullet strikes.
pub fn find_struck(bullet: &Bullet, enemies: &Vec<Enemy>) -> (hit: Option<usize>)
    ensures
        match hit {
            Some(i) => i < enemies.len() && i == first_struck(*bullet, enemies@, 0),
            None => first_struck(*bullet, enemies@, 0) == enemies.len(),
        },
{
    let half = bullet.body.size.half();
    let mut i: usize = 0;
    while i < enemies.len()
        invariant
            i <= enemies.len(),
            half == bullet.body.half_extent(),
            first_struck(*bullet, enemies@, 0) == first_struck(*bullet, enemies@, i as int),
        decreases enemies.len() - i,
    {
        let target = enemies[i].body;
        if aabb_overlap(bullet.body.pos, half, target.pos, target.size.half()) {
            return Some(i);
        }
        i += 1;
    }
    None
}

/// Whether the bullet strikes one of the enemies.
pub open spec fn strikes_any(bullet: Bullet, enemies: Seq<Enemy>) -> bool {
    exists|i: int| 0 <= i < enemies.len() && strikes(bullet, (#[trigger] enemies[i]).body)
}

/// A bullet strikes one of the enemies exactly when `first_struck` names one.
pub proof fn lemma_strikes_any(bullet: Bullet, enemies: Seq<Enemy>)
    ensures
        strikes_any(bullet, enemies) <==> first_struck(bullet, enemies, 0) < enemies.len(),
{
    lemma_first_struck(bullet, enemies, 0);
    if strikes_any(bullet, enemies) {
        let i = choose|i: int| 0 <= i < enemies.len() && strikes(bullet, (#[trigger] enemies[i]).body);
        if first_struck(bullet, enemies, 0) >= enemies.len() {
            assert(!strikes(bullet, enemies[i].body));
        }
    }
}

/// Whether a bullet goes in the pass over the bullets: a bullet of the
/// player goes when it strikes one of the enemies that stood at the start of
/// the pass, and a bullet of the enemies goes when it strikes the player.
pub open spec fn bullet_goes(bullet: Bullet, enemies: Seq<Enemy>, player: Option<Player>) -> bool {
    match bullet.faction {
        Faction::Player => strikes_any(bullet, enemies),
        Faction::Enemy => player is Some && strikes(bullet, player->0.body),
    }
}

/// The test that keeps the bullets which hit nothing.
pub open spec fn passes_by(enemies: Seq<Enemy>, player: Option<Player>) -> spec_fn(Bullet) -> bool {
    |bullet: Bullet| !bullet_goes(bullet, enemies, player)
}

/// Whether enemy `i` is the first enemy that one of the first `count`
/// bullets strikes, that bullet being one of the player.
pub open spec fn struck_down(bullets: Seq<Bullet>, enemies: Seq<Enemy>, i: int, count: int) -> bool {
    exists|k: int|
        0 <= k < count && (#[trigger] bullets[k]).faction == Faction::Player && first_struck(
            bullets[k],
            enemies,
            0,
        ) == i
}

/// The enemies, among the first `count`, that no bullet of the pass strikes
/// down, in their order.
pub open spec fn enemies_left(bullets: Seq<Bullet>, enemies: Seq<Enemy>, count: int) -> Seq<Enemy>
    decreases count,
{
    if count <= 0 {
        Seq::empty()
    } else if struck_down(bullets, enemies, count - 1, bullets.len() as int) {
        enemies_left(bullets, enemies, count - 1)
    } else {
        enemies_left(bullets, enemies, count - 1).push(enemies[count - 1])
    }
}

/// Whether one of the first `count` bullets is a bullet of the enemies that
/// strikes the player.
pub open spec fn player_hit(bullets: Seq<Bullet>, player: Option<Player>, count: int) -> bool {
    exists|k: int|
        0 <= k < count && (#[trigger] bullets[k]).faction == Faction::Enemy && player is Some
            && strikes(bullets[k], player->0.body)
}

/// One more bullet strikes down the enemy it strikes first, if it is a
/// bullet of the player, and changes nothing else.
proof fn lemma_struck_down_step(bullets: Seq<Bullet>, enemies: Seq<Enemy>, i: int, count: int)
    requires
        0 <= count,
    ensures
        struck_down(bullets, enemies, i, count + 1) <==> struck_down(bullets, enemies, i, count) || (
        bullets[count].faction == Faction::Player && first_struck(bullets[count], enemies, 0) == i),
{
    if struck_down(bullets, enemies, i, count + 1) {
        let k = choose|k: int|
            0 <= k < count + 1 && (#[trigger] bullets[k]).faction == Faction::Player && first_struck(
                bullets[k],
                enemies,
                0,
            ) == i;
        if k < count {
            assert(struck_down(bullets, enemies, i, count));
        }
    }
    if struck_down(bullets, enemies, i, count) {
        let k = choose|k: int|
            0 <= k < count && (#[trigger] bullets[k]).faction == Faction::Player && first_struck(
                bullets[k],
                enemies,
                0,
            ) == i;
        assert(0 <= k < count + 1 && bullets[k].faction == Faction::Player);
    }
    if bullets[count].faction == Faction::Player && first_struck(bullets[count], enemies, 0) == i {
        assert(0 <= count < count + 1 && bullets[count].faction == Faction::Player);
    }
}

/// One more bullet hits the player if it is a bullet of the enemies that
/// strikes the player.
proof fn lemma_player_hit_step(bullets: Seq<Bullet>, player: Option<Player>, count: int)
    requires
        0 <= count,
    ensures
        player_hit(bullets, player, count + 1) <==> player_hit(bullets, player, count) || (
        bullets[count].faction == Faction::Enemy && player is Some && strikes(
            bullets[count],
            player->0.body,
        )),
{
    if player_hit(bullets, player, count + 1) {
        let k = choose|k: int|
            0 <= k < count + 1 && (#[trigger] bullets[k]).faction == Faction::Enemy && player is Some
                && strikes(bullets[k], player->0.body);
        if k < count {
            assert(player_hit(bullets, player, count));
        }
    }
    if player_hit(bullets, player, count) {
        let k = choose|k: int|
            0 <= k < count && (#[trigger] bullets[k]).faction == Faction::Enemy && player is Some
                && strikes(bullets[k], player->0.body);
        assert(0 <= k < count + 1 && bullets[k].faction == Faction::Enemy);
    }
    if bullets[count].faction == Faction::Enemy && player is Some && strikes(
        bullets[count],
        player->0.body,
    ) {
        assert(0 <= count < count + 1 && bullets[count].faction == Faction::Enemy);
    }
}

/// A pass adds no enemy: of the first `count` enemies at most `count` are left.
pub proof fn lemma_enemies_left_len(bullets: Seq<Bullet>, enemies: Seq<Enemy>, count: int)
    requires
        0 <= count,
    ensures
        enemies_left(bullets, enemies, count).len() <= count,
    decreases count,
{
    if count > 0 {
        lemma_enemies_left_len(bullets, enemies, count - 1);
    }
}

/// Every bullet of the player that overlaps one enemy or several goes in
/// the pass, and with it the first enemy it overlaps: the bullet is not among
/// the bullets that stay, and that enemy is struck down. The enemy is the
/// first in the order of the enemies as they stood at the start of the pass,
/// whatever the other bullets do.
pub proof fn lemma_player_bullet_removes_first(
    bullets: Seq<Bullet>,
    enemies: Seq<Enemy>,
    player: Option<Player>,
    turn: int,
)
    requires
        0 <= turn < bullets.len(),
        bullets[turn].faction == Faction::Player,
        strikes_any(bullets[turn], enemies),
    ensures
        bullet_goes(bullets[turn], enemies, player),
        !bullets.filter(passes_by(enemies, player)).contains(bullets[turn]),
        0 <= first_struck(bullets[turn], enemies, 0) < enemies.len(),
        strikes(bullets[turn], enemies[first_struck(bullets[turn], enemies, 0)].body),
        forall|j: int|
            0 <= j < first_struck(bullets[turn], enemies, 0) ==> !strikes(
                bullets[turn],
                (#[trigger] enemies[j]).body,
            ),
        struck_down(
            bullets,
            enemies,
            first_struck(bullets[turn], enemies, 0),
            bullets.len() as int,
        ),
{
    let bullet = bullets[turn];
    let keep = passes_by(enemies, player);
    let kept = bullets.filter(keep);
    lemma_strikes_any(bullet, enemies);
    lemma_first_struck(bullet, enemies, 0);
    if kept.contains(bullet) {
        let i = choose|i: int| 0 <= i < kept.len() && kept[i] == bullet;
        bullets.lemma_filter_pred(keep, i);
    }
}

/// With one bullet in the pass, a bullet of the player that overlaps one
/// enemy or several removes exactly one enemy and itself: the first enemy it
/// overlaps goes, the others stay in their order, and no bullet is left.
pub proof fn lemma_player_bullet_removes_one(bullet: Bullet, enemies: Seq<Enemy>, player: Option<Player>)
    requires
        bullet.faction == Faction::Player,
        strikes_any(bullet, enemies),
    ensures
        seq![bullet].filter(passes_by(enemies, player)).len() == 0,
        0 <= first_struck(bullet, enemies, 0) < enemies.len(),
        enemies_left(seq![bullet], enemies, enemies.len() as int) == enemies.remove(
            first_struck(bullet, enemies, 0),
        ),
        enemies_left(seq![bullet], enemies, enemies.len() as int).len() == enemies.len() - 1,
{
    let bullets = seq![bullet];
    let keep = passes_by(enemies, player);
    let first = first_struck(bullet, enemies, 0);
    lemma_strikes_any(bullet, enemies);
    lemma_first_struck(bullet, enemies, 0);
    assert(bullets.filter(keep).len() == 0) by {
        assert(bullets =~= Seq::<Bullet>::empty().push(bullet));
        Seq::<Bullet>::empty().lemma_filter_push(bullet, keep);
        assert(Seq::<Bullet>::empty().filter(keep).len() == 0) by {
            reveal(Seq::filter);
        }
    }
    lemma_left_of_one(bullet, enemies, enemies.len() as int);
    assert(enemies.take(enemies.len() as int) =~= enemies);
    enemies.remove_ensures(first);
}

/// With one bullet of the player in the pass, the enemies left among the
/// first `count` are those but the first one that the bullet strikes.
proof fn lemma_left_of_one(bullet: Bullet, enemies: Seq<Enemy>, count: int)
    requires
        bullet.faction == Faction::Player,
        0 <= count <= enemies.len(),
    ensures
        enemies_left(seq![bullet], enemies, count) == if count <= first_struck(bullet, enemies, 0) {
            enemies.take(count)
        } else {
            enemies.take(count).remove(first_struck(bullet, enemies, 0))
        },
    decreases count,
{
    let bullets = seq![bullet];
    let first = first_struck(bullet, enemies, 0);
    lemma_first_struck(bullet, enemies, 0);
    if count > 0 {
        lemma_left_of_one(bullet, enemies, count - 1);
        let down = struck_down(bullets, enemies, count - 1, 1);
        if count - 1 == first {
            assert(bullets[0].faction == Faction::Player && first_struck(bullets[0], enemies, 0)
                == count - 1);
            assert(down);
            assert(enemies.take(count).remove(first) =~= enemies.take(count - 1));
        } else {
            assert(!down) by {
                if down {
                    let k = choose|k: int|
                        0 <= k < 1 && (#[trigger] bullets[k]).faction == Faction::Player
                            && first_struck(bullets[k], enemies, 0) == count - 1;
                    assert(bullets[k] == bullet);
                }
            }
            if count - 1 < first {
                assert(enemies.take(count) =~= enemies.take(count - 1).push(enemies[count - 1]));
            } else {
                assert(enemies.take(count).remove(first) =~= enemies.take(count - 1).remove(
                    first,
                ).push(enemies[count - 1]));
            }
        }
    } else {
        assert(enemies.take(0) =~= Seq::<Enemy>::empty());
    }
}

/// A bullet of the player that overlaps no enemy stays, and strikes no enemy down.
pub proof fn lemma_player_bullet_misses(
    bullets: Seq<Bullet>,
    enemies: Seq<Enemy>,
    player: Option<Player>,
    turn: int,
)
    requires
        0 <= turn < bullets.len(),
        bullets[turn].faction == Faction::Player,
        !strikes_any(bullets[turn], enemies),
    ensures
        !bullet_goes(bullets[turn], enemies, player),
        bullets.filter(passes_by(enemies, player)).contains(bullets[turn]),
        first_struck(bullets[turn], enemies, 0) == enemies.len(),
{
    lemma_strikes_any(bullets[turn], enemies);
    lemma_first_struck(bullets[turn], enemies, 0);
    bullets.lemma_filter_contains(passes_by(enemies, player), turn);
}

/// A bullet of the enemies that overlaps the player goes and raises the
/// restart signal.
pub proof fn lemma_enemy_bullet_hits_player(
    bullets: Seq<Bullet>,
    enemies: Seq<Enemy>,
    player: Player,
    turn: int,
)
    requires
        0 <= turn < bullets.len(),
        bullets[turn].faction == Faction::Enemy,
        strikes(bullets[turn], player.body),
    ensures
        player_hit(bullets, Some(player), bullets.len() as int),
        bullet_goes(bullets[turn], enemies, Some(player)),
        !bullets.filter(passes_by(enemies, Some(player))).contains(bullets[turn]),
{
    let keep = passes_by(enemies, Some(player));
    let kept = bullets.filter(keep);
    if kept.contains(bullets[turn]) {
        let i = choose|i: int| 0 <= i < kept.len() && kept[i] == bullets[turn];
        bullets.lemma_filter_pred(keep, i);
    }
}

/// Resolves every bullet against its targets and tells whether the player
/// was hit. Each bullet meets the enemies as they stood when the pass began:
/// a bullet of the player that strikes one of them goes, and so does the
/// first enemy it strikes, once the pass is over; a bullet of the enemies that
/// strikes the player goes and raises the restart signal. What stays keeps
/// its order.
pub fn bullet_hits(bullets: &mut Vec<Bullet>, enemies: &mut Vec<Enemy>, player: &Option<Player>) -> (restart:
    bool)
    ensures
        final(bullets)@ == old(bullets)@.filter(passes_by(old(enemies)@, *player)),
        final(enemies)@ == enemies_left(old(bullets)@, old(enemies)@, old(enemies)@.len() as int),
        restart == player_hit(old(bullets)@, *player, old(bullets)@.len() as int),
{
    let ghost all_bullets = bullets@;
    let ghost all_enemies = enemies@;
    let ghost keep = passes_by(all_enemies, *player);
    let mut struck: Vec<bool> = Vec::new();
    let mut n: usize = 0;
    while n < enemies.len()
        invariant
            n <= enemies.len(),
            struck@.len() == n,
            forall|i: int| 0 <= i < n ==> !struck@[i],
        decreases enemies.len() - n,
    {
        struck.push(false);
        n += 1;
    }
    let mut survivors: Vec<Bullet> = Vec::new();
    let mut restart = false;
    let mut k: usize = 0;
    assert(all_bullets.take(0).filter(keep) =~= Seq::empty()) by {
        reveal(Seq::filter);
    }
    while k < bullets.len()
        invariant
            k <= bullets.len(),
            bullets@ == all_bullets,
            enemies@ == all_enemies,
            keep == passes_by(all_enemies, *player),
            struck@.len() == all_enemies.len(),
            forall|i: int|
                0 <= i < struck@.len() ==> struck@[i] == struck_down(
                    all_bullets,
                    all_enemies,
                    i,
                    k as int,
                ),
            survivors@ == all_bullets.take(k as int).filter(keep),
            restart == player_hit(all_bullets, *player, k as int),
        decreases bullets.len() - k,
    {
        let bullet = bullets[k];
        let ghost struck_before = struck@;
        proof {
            assert(all_bullets.take(k + 1) =~= all_bullets.take(k as int).push(bullet));
            all_bullets.take(k as int).lemma_filter_push(bullet, keep);
            lemma_strikes_any(bullet, all_enemies);
            lemma_player_hit_step(all_bullets, *player, k as int);
        }
        match bullet.faction {
            Faction::Player => {
                match find_struck(&bullet, enemies) {
                    Some(j) => {
                        struck.set(j, true);
                    },
                    None => {
                        survivors.push(bullet);
                    },
                }
            },
            Faction::Enemy => {
                let hit = match player {
                    Some(p) => aabb_overlap(
                        bullet.body.pos,
                        bullet.body.size.half(),
                        p.body.pos,
                        p.body.size.half(),
                    ),
                    None => false,
                };
                if hit {
                    restart = true;
                } else {
                    survivors.push(bullet);
                }
            },
        }
        assert forall|i: int| 0 <= i < struck@.len() implies struck@[i] == struck_down(
            all_bullets,
            all_enemies,
            i,
            k + 1,
        ) by {
            lemma_struck_down_step(all_bullets, all_enemies, i, k as int);
            assert(struck_before[i] == struck_down(all_bullets, all_enemies, i, k as int));
        }
        k += 1;
    }
    assert(all_bullets.take(all_bullets.len() as int) =~= all_bullets);
    let mut left: Vec<Enemy> = Vec::new();
    let mut i: usize = 0;
    while i < enemies.len()
        invariant
            i <= enemies.len(),
            enemies@ == all_enemies,
            struck@.len() == all_enemies.len(),
            forall|j: int|
                0 <= j < struck@.len() ==> struck@[j] == struck_down(
                    all_bullets,
                    all_enemies,
                    j,
                    all_bullets.len() as int,
                ),
            left@ == enemies_left(all_bullets, all_enemies, i as int),
        decreases enemies.len() - i,
    {
        if !struck[i] {
            left.push(enemies[i]);
        }
        i += 1;
    }
    *bullets = survivors;
    *enemies = left;
    restart
}

/// The speed of a velocity: its length, rounded down.
pub open spec fn speed_of(vel: Vector) -> nat {
    sqrt_floor((vel.x * vel.x + vel.y * vel.y) as nat)
}

/// How far ahead of itself a bullet looks for walls: the length of one
/// sub-step of its move in this frame, plus the safety margin.
pub open spec fn look_ahead_distance(vel: Vector, dt_nanos: int) -> int {
    trunc_div(displacement(speed_of(vel) as int, dt_nanos), SWEEP_STEPS as int) + CULL_MARGIN
}

/// The point ahead of a bullet, along its velocity, that is tested for walls.
pub open spec fn look_ahead(body: Body, dt_nanos: int) -> Vector {
    body.pos.moved_by(aimed(Vector::zero(), body.vel, look_ahead_distance(body.vel, dt_nanos)))
}

/// Whether a bullet ends at a wall in this frame: it overlaps a wall where
/// it is, or it moves and would overlap one at its look-ahead point.
pub open spec fn meets_wall(bullet: Bullet, walls: Seq<Wall>, dt_nanos: int) -> bool {
    let half = bullet.body.half_extent();
    ||| hits_wall(bullet.body.pos, half, walls)
    ||| (speed_of(bullet.body.vel) > 0 && hits_wall(look_ahead(bullet.body, dt_nanos), half, walls))
}

/// The test that keeps the bullets which meet no wall.
pub open spec fn flies_on(walls: Seq<Wall>, dt_nanos: int) -> spec_fn(Bullet) -> bool {
    |bullet: Bullet| !meets_wall(bullet, walls, dt_nanos)
}

/// On a line: a box stands at `start`, has come `gone` far in its direction
/// and is free of a wall there, while `block` far it would overlap the wall.
/// Then a point up to `reach` beyond where it stands overlaps the wall too,
/// as long as `reach` covers the way to the blocked place and does not
/// exceed the extent of box and wall together.
proof fn lemma_probe_line(
    start: int,
    forward: bool,
    gone: int,
    block: int,
    reach: int,
    wall: int,
    extent: int,
)
    requires
        i32::MIN <= start <= i32::MAX,
        0 <= gone <= block <= gone + reach,
        reach <= i32::MAX,
        reach <= 2 * extent + 1,
        distance(clamp_coord(if forward { start + block } else { start - block }), wall) <= extent,
        distance(clamp_coord(if forward { start + gone } else { start - gone }), wall) > extent,
    ensures
        distance(
            clamp_coord(
                clamp_coord(if forward { start + gone } else { start - gone }) + clamp_coord(
                    if forward {
                        reach
                    } else {
                        -reach
                    },
                ),
            ),
            wall,
        ) <= extent,
{
}

/// What a bullet that flies straight along `axis` covers in a frame, and
/// how far it looks ahead: with `travel` the distance its speed covers in the
/// frame and `sub` a sixth of it, its move is `travel` long, a sub-step is
/// `sub` long, both toward where it flies, and it looks `sub` plus the margin
/// ahead, straight along the axis.
proof fn lemma_straight_flight(vel: Vector, dt_nanos: int, axis: Axis)
    requires
        0 <= dt_nanos <= u32::MAX,
        vel.along(axis) != 0,
        vel.along(axis.other()) == 0,
    ensures
        speed_of(vel) == distance(vel.along(axis), 0),
        0 <= displacement(speed_of(vel) as int, dt_nanos) <= 9_223_372_034,
        displacement(vel.along(axis), dt_nanos) == (if vel.along(axis) > 0 {
            displacement(speed_of(vel) as int, dt_nanos)
        } else {
            -displacement(speed_of(vel) as int, dt_nanos)
        }),
        displacement(0, dt_nanos) == 0,
        look_ahead_distance(vel, dt_nanos) == displacement(speed_of(vel) as int, dt_nanos) / (
        SWEEP_STEPS as int) + CULL_MARGIN,
        aimed(Vector::zero(), vel, look_ahead_distance(vel, dt_nanos)).along(axis) == (if vel.along(
            axis,
        ) > 0 {
            look_ahead_distance(vel, dt_nanos)
        } else {
            -look_ahead_distance(vel, dt_nanos)
        }),
        aimed(Vector::zero(), vel, look_ahead_distance(vel, dt_nanos)).along(axis.other()) == 0,
{
    let v = vel.along(axis);
    let speed: int = if v > 0 { v } else { -v };
    let prod = speed * dt_nanos;
    assert(0 <= prod <= 0x8000_0000 * 0xffff_ffff && v * dt_nanos == (if v > 0 {
        prod
    } else {
        -prod
    })) by (nonlinear_arith)
        requires
            0 < speed <= 0x8000_0000,
            speed == v || speed == -v,
            0 <= dt_nanos <= 0xffff_ffff,
            prod == speed * dt_nanos,
    ;
    assert(vel.x * vel.x + vel.y * vel.y == speed * speed) by (nonlinear_arith)
        requires
            (vel.x == v && vel.y == 0) || (vel.x == 0 && vel.y == v),
            speed == v || speed == -v,
    ;
    lemma_sqrt_of_square(speed as nat);
    assert(speed_of(vel) == speed);
    assert(0 * dt_nanos == 0) by (nonlinear_arith);
    lemma_aimed_straight(Vector::zero(), vel, look_ahead_distance(vel, dt_nanos), axis);
}

/// A body that moves straight along `axis` is resolved along that axis alone.
proof fn lemma_straight_move(body: Body, walls: Seq<Wall>, dt_nanos: int, axis: Axis)
    requires
        displacement(body.vel.along(axis.other()), dt_nanos) == 0,
        !hits_wall(body.pos, body.half_extent(), walls),
    ensures
        resolved(body, walls, dt_nanos) == resolved_axis(
            body.pos,
            body.half_extent(),
            displacement(body.vel.along(axis), dt_nanos),
            axis,
            walls,
        ),
{
    let pos = body.pos;
    let half = body.half_extent();
    let delta = displacement(body.vel.along(axis), dt_nanos);
    match axis {
        Axis::X => {
            let after_x = resolved_axis(pos, half, delta, Axis::X, walls);
            lemma_axis_move_stays_clear(pos, half, delta, Axis::X, walls);
            assert(after_x.shifted(Axis::Y, 0) == after_x);
        },
        Axis::Y => {
            assert(pos.shifted(Axis::X, 0) == pos);
        },
    }
}

/// Where a blocked move along one axis ends, and what blocks it: the box
/// ends after the sub-steps that `clear_steps` counts, free of the walls,
/// and one place further on, at the next sub-step or at the target of the
/// move, it would overlap a wall.
proof fn lemma_blocked_move(pos: Vector, half: Vector, delta: int, axis: Axis, walls: Seq<Wall>)
    requires
        !hits_wall(pos, half, walls),
        hits_wall(pos.shifted(axis, delta), half, walls),
    ensures
        ({
            let step = trunc_div(delta, SWEEP_STEPS as int);
            let count = clear_steps(pos, half, step, axis, walls, 0);
            &&& 0 <= count <= SWEEP_STEPS
            &&& resolved_axis(pos, half, delta, axis, walls) == pos.shifted(axis, count * step)
            &&& !hits_wall(pos.shifted(axis, count * step), half, walls)
            &&& hits_wall(
                pos.shifted(axis, if count < SWEEP_STEPS { (count + 1) * step } else { delta }),
                half,
                walls,
            )
        }),
{
    let step = trunc_div(delta, SWEEP_STEPS as int);
    lemma_clear_steps(pos, half, step, axis, walls, 0);
    lemma_axis_move_stays_clear(pos, half, delta, axis, walls);
}

/// Two boxes of one size that differ along one axis only, and a wall: where
/// one of them overlaps the wall and the other does not, they lie on
/// different sides of the wall's reach along that axis.
proof fn lemma_overlap_along(
    free: Vector,
    blocked: Vector,
    half: Vector,
    wall: Wall,
    axis: Axis,
)
    requires
        free.along(axis.other()) == blocked.along(axis.other()),
        overlap(blocked, half, wall.pos, wall.size.halved()),
        !overlap(free, half, wall.pos, wall.size.halved()),
    ensures
        distance(blocked.along(axis), wall.pos.along(axis)) <= half.along(axis)
            + wall.size.halved().along(axis),
        distance(free.along(axis), wall.pos.along(axis)) > half.along(axis)
            + wall.size.halved().along(axis),
        forall|other: Vector|
            other.along(axis.other()) == blocked.along(axis.other()) && distance(
                other.along(axis),
                wall.pos.along(axis),
            ) <= half.along(axis) + wall.size.halved().along(axis) ==> #[trigger] overlap(
                other,
                half,
                wall.pos,
                wall.size.halved(),
            ),
{
}

/// Where a blocked bullet that flies straight along `axis` ends: it has come
/// `gone` far and is free of the walls there, and `block` far it would overlap
/// a wall, with `block` no further beyond `gone` than the bullet looks ahead.
proof fn lemma_straight_blocked(
    bullet: Bullet,
    walls: Seq<Wall>,
    dt_nanos: int,
    axis: Axis,
) -> (covered: (int, int))
    requires
        0 <= dt_nanos <= u32::MAX,
        bullet.body.vel.along(axis) != 0,
        bullet.body.vel.along(axis.other()) == 0,
        !hits_wall(bullet.body.pos, bullet.body.half_extent(), walls),
        hits_wall(
            bullet.body.pos.shifted(axis, displacement(bullet.body.vel.along(axis), dt_nanos)),
            bullet.body.half_extent(),
            walls,
        ),
    ensures
        0 <= covered.0 <= covered.1 <= covered.0 + look_ahead_distance(bullet.body.vel, dt_nanos),
        bullet.moved(walls, dt_nanos).body.pos == bullet.body.pos.shifted(
            axis,
            if bullet.body.vel.along(axis) > 0 {
                covered.0
            } else {
                -covered.0
            },
        ),
        !hits_wall(bullet.moved(walls, dt_nanos).body.pos, bullet.body.half_extent(), walls),
        hits_wall(
            bullet.body.pos.shifted(
                axis,
                if bullet.body.vel.along(axis) > 0 {
                    covered.1
                } else {
                    -covered.1
                },
            ),
            bullet.body.half_extent(),
            walls,
        ),
{
    let body = bullet.body;
    let pos = body.pos;
    let half = body.half_extent();
    let forward = body.vel.along(axis) > 0;
    let delta = displacement(body.vel.along(axis), dt_nanos);
    let travel = displacement(speed_of(body.vel) as int, dt_nanos);
    let sub = travel / (SWEEP_STEPS as int);
    let step = trunc_div(delta, SWEEP_STEPS as int);
    let count = clear_steps(pos, half, step, axis, walls, 0);
    let gone = count * sub;
    let block: int = if count < SWEEP_STEPS { gone + sub } else { travel };
    lemma_straight_flight(body.vel, dt_nanos, axis);
    lemma_straight_move(body, walls, dt_nanos, axis);
    lemma_blocked_move(pos, half, delta, axis, walls);
    assert(0 <= gone <= 6 * sub && count * step == (if forward { gone } else { -gone }) && (count
        + 1) * step == (if forward { gone + sub } else { -(gone + sub) })) by (nonlinear_arith)
        requires
            0 <= count <= 6,
            0 <= sub,
            gone == count * sub,
            (forward && step == sub) || (!forward && step == -sub),
    ;
    (gone, block)
}

/// A bullet that flies straight along `axis`, stands free of a wall, and
/// would overlap that wall no further on than it looks ahead, meets a wall.
proof fn lemma_look_ahead_meets(
    start: Vector,
    after: Bullet,
    wall: Wall,
    walls: Seq<Wall>,
    dt_nanos: int,
    axis: Axis,
    gone: int,
    block: int,
)
    requires
        0 <= dt_nanos <= u32::MAX,
        after.body.vel.along(axis) != 0,
        after.body.vel.along(axis.other()) == 0,
        0 <= gone <= block <= gone + look_ahead_distance(after.body.vel, dt_nanos),
        after.body.pos == start.shifted(axis, if after.body.vel.along(axis) > 0 { gone } else { -gone }),
        walls.contains(wall),
        !overlap(after.body.pos, after.body.half_extent(), wall.pos, wall.size.halved()),
        overlap(
            start.shifted(axis, if after.body.vel.along(axis) > 0 { block } else { -block }),
            after.body.half_extent(),
            wall.pos,
            wall.size.halved(),
        ),
        look_ahead_distance(after.body.vel, dt_nanos) <= 2 * (wall.size.halved().along(axis)
            + after.body.half_extent().along(axis)) + 1,
    ensures
        meets_wall(after, walls, dt_nanos),
{
    let vel = after.body.vel;
    let half = after.body.half_extent();
    let forward = vel.along(axis) > 0;
    let reach = look_ahead_distance(vel, dt_nanos);
    let q = after.body.pos;
    let blocked = start.shifted(axis, if forward { block } else { -block });
    let ahead = look_ahead(after.body, dt_nanos);
    lemma_straight_flight(vel, dt_nanos, axis);
    lemma_overlap_along(q, blocked, half, wall, axis);
    lemma_probe_line(
        start.along(axis),
        forward,
        gone,
        block,
        reach,
        wall.pos.along(axis),
        half.along(axis) + wall.size.halved().along(axis),
    );
    assert(ahead.along(axis.other()) == blocked.along(axis.other()));
    assert(overlap(ahead, half, wall.pos, wall.size.halved()));
    let i = choose|i: int| 0 <= i < walls.len() && walls[i] == wall;
    assert(overlap(ahead, half, walls[i].pos, walls[i].size.halved()));
}

/// A bullet that flies straight along an axis ends at the wall it runs
/// into. Let the bullet start free of the walls, and let its move in this
/// frame be blocked: the place it would reach overlaps a wall. Then after the
/// move it is still free of every wall, so it has not crossed into one, and
/// it meets a wall, so the cull of the same frame removes it. This holds
/// where no wall is thinner than the look-ahead: along the axis, twice the
/// extent of a wall and of the bullet together reaches the look-ahead
/// distance. Where a frame is so long that a sub-step is longer than a wall
/// is thick, the look-ahead can jump the wall and the law does not hold.
pub proof fn lemma_bullet_ends_at_wall(bullet: Bullet, walls: Seq<Wall>, dt_nanos: int, axis: Axis)
    requires
        0 <= dt_nanos <= u32::MAX,
        bullet.body.vel.along(axis) != 0,
        bullet.body.vel.along(axis.other()) == 0,
        !hits_wall(bullet.body.pos, bullet.body.half_extent(), walls),
        hits_wall(
            bullet.body.pos.shifted(axis, displacement(bullet.body.vel.along(axis), dt_nanos)),
            bullet.body.half_extent(),
            walls,
        ),
        forall|i: int|
            0 <= i < walls.len() ==> look_ahead_distance(bullet.body.vel, dt_nanos) <= 2 * ((
            #[trigger] walls[i]).size.halved().along(axis) + bullet.body.half_extent().along(axis))
                + 1,
    ensures
        !hits_wall(bullet.moved(walls, dt_nanos).body.pos, bullet.body.half_extent(), walls),
        meets_wall(bullet.moved(walls, dt_nanos), walls, dt_nanos),
{
    let (gone, block) = lemma_straight_blocked(bullet, walls, dt_nanos, axis);
    let half = bullet.body.half_extent();
    let after = bullet.moved(walls, dt_nanos);
    let blocked = bullet.body.pos.shifted(
        axis,
        if bullet.body.vel.along(axis) > 0 {
            block
        } else {
            -block
        },
    );
    let w = choose|i: int|
        0 <= i < walls.len() && overlap(blocked, half, (#[trigger] walls[i]).pos, walls[i].size.halved());
    assert(!overlap(after.body.pos, half, walls[w].pos, walls[w].size.halved()));
    assert(walls.contains(walls[w]));
    lemma_look_ahead_meets(bullet.body.pos, after, walls[w], walls, dt_nanos, axis, gone, block);
}

/// The cull of the frame removes a bullet that ended at a wall: under the
/// premises of `lemma_bullet_ends_at_wall` the moved bullet is not among the
/// bullets that the cull keeps, whatever bullets the cull runs over.
pub proof fn lemma_blocked_bullet_is_culled(
    bullet: Bullet,
    others: Seq<Bullet>,
    walls: Seq<Wall>,
    dt_nanos: int,
    axis: Axis,
)
    requires
        0 <= dt_nanos <= u32::MAX,
        bullet.body.vel.along(axis) != 0,
        bullet.body.vel.along(axis.other()) == 0,
        !hits_wall(bullet.body.pos, bullet.body.half_extent(), walls),
        hits_wall(
            bullet.body.pos.shifted(axis, displacement(bullet.body.vel.along(axis), dt_nanos)),
            bullet.body.half_extent(),
            walls,
        ),
        forall|i: int|
            0 <= i < walls.len() ==> look_ahead_distance(bullet.body.vel, dt_nanos) <= 2 * ((
            #[trigger] walls[i]).size.halved().along(axis) + bullet.body.half_extent().along(axis))
                + 1,
    ensures
        !others.filter(flies_on(walls, dt_nanos)).contains(bullet.moved(walls, dt_nanos)),
{
    lemma_bullet_ends_at_wall(bullet, walls, dt_nanos, axis);
    let keep = flies_on(walls, dt_nanos);
    let kept = others.filter(keep);
    let moved = bullet.moved(walls, dt_nanos);
    if kept.contains(moved) {
        let i = choose|i: int| 0 <= i < kept.len() && kept[i] == moved;
        others.lemma_filter_pred(keep, i);
    }
}

/// In the game's own measures: a bullet of the usual size that flies at
/// bullet speed straight along an axis, between walls of one tile each, ends
/// at the wall it runs into, in any frame of up to 450 milliseconds.
pub proof fn lemma_bullet_ends_at_tile_wall(
    bullet: Bullet,
    walls: Seq<Wall>,
    dt_nanos: int,
    axis: Axis,
)
    requires
        0 <= dt_nanos <= 450_000_000,
        bullet.body.size == (Vector { x: BULLET_W, y: BULLET_H }),
        bullet.body.vel.along(axis) == BULLET_SPEED || bullet.body.vel.along(axis) == -BULLET_SPEED,
        bullet.body.vel.along(axis.other()) == 0,
        forall|i: int| 0 <= i < walls.len() ==> (#[trigger] walls[i]).size == (Vector { x: TILE, y: TILE }),
        !hits_wall(bullet.body.pos, bullet.body.half_extent(), walls),
        hits_wall(
            bullet.body.pos.shifted(axis, displacement(bullet.body.vel.along(axis), dt_nanos)),
            bullet.body.half_extent(),
            walls,
        ),
    ensures
        !hits_wall(bullet.moved(walls, dt_nanos).body.pos, bullet.body.half_extent(), walls),
        meets_wall(bullet.moved(walls, dt_nanos), walls, dt_nanos),
{
    lemma_straight_flight(bullet.body.vel, dt_nanos, axis);
    assert(speed_of(bullet.body.vel) == BULLET_SPEED);
    assert(look_ahead_distance(bullet.body.vel, dt_nanos) <= 45_500);
    lemma_bullet_ends_at_wall(bullet, walls, dt_nanos, axis);
}

/// Computes the speed of a velocity.
pub fn speed(vel: Vector) -> (s: u64)
    ensures
        s == speed_of(vel),
        s <= 0xffff_ffff,
{
    let vx: i128 = vel.x as i128;
    let vy: i128 = vel.y as i128;
    assert(0 <= vx * vx <= 0x8000_0000 * 0x8000_0000) by (nonlinear_arith)
        requires
            -0x8000_0000 <= vx <= 0x8000_0000,
    ;
    assert(0 <= vy * vy <= 0x8000_0000 * 0x8000_0000) by (nonlinear_arith)
        requires
            -0x8000_0000 <= vy <= 0x8000_0000,
    ;
    let squared: u128 = (vx * vx + vy * vy) as u128;
    let s = isqrt(squared);
    proof {
        lemma_sqrt_floor_bounds(squared as nat);
        if s > 0xffff_ffff {
            assert(s * s >= 0x1_0000_0000 * 0x1_0000_0000) by (nonlinear_arith)
                requires
                    s >= 0x1_0000_0000,
            ;
        }
    }
    s
}

/// Decides whether a bullet ends at a wall in this frame.
pub fn bullet_meets_wall(bullet: &Bullet, walls: &Vec<Wall>, dt_nanos: u32) -> (gone: bool)
    ensures
        gone == meets_wall(*bullet, walls@, dt_nanos as int),
{
    let half = bullet.body.size.half();
    if overlaps_any(bullet.body.pos, half, walls) {
        return true;
    }
    let s: u64 = speed(bullet.body.vel);
    if s == 0 {
        return false;
    }
    assert(0 <= s * dt_nanos <= 0xffff_ffff * 0xffff_ffff) by (nonlinear_arith)
        requires
            0 <= s <= 0xffff_ffff,
            0 <= dt_nanos <= 0xffff_ffff,
    ;
    let travelled: i64 = ((s as u128 * dt_nanos as u128) / (NANOS_PER_SEC as u128)) as i64;
    let reach: i64 = travelled / SWEEP_STEPS + CULL_MARGIN;
    let ahead = bullet.body.pos.offset(aim(Vector::origin(), bullet.body.vel, reach));
    overlaps_any(ahead, half, walls)
}

/// Removes the bullets that overlap a wall or are about to.
pub fn bullet_wall_cull(bullets: &mut Vec<Bullet>, walls: &Vec<Wall>, dt_nanos: u32)
    ensures
        final(bullets)@ == old(bullets)@.filter(flies_on(walls@, dt_nanos as int)),
{
    let ghost all_bullets = bullets@;
    let ghost keep = flies_on(walls@, dt_nanos as int);
    let mut survivors: Vec<Bullet> = Vec::new();
    let mut i: usize = 0;
    assert(all_bullets.take(0) =~= Seq::empty());
    assert(all_bullets.take(0).filter(keep) =~= Seq::empty()) by {
        reveal(Seq::filter);
    }
    while i < bullets.len()
        invariant
            i <= bullets.len(),
            bullets@ == all_bullets,
            keep == flies_on(walls@, dt_nanos as int),
            survivors@ == all_bullets.take(i as int).filter(keep),
        decreases bullets.len() - i,
    {
        let bullet = bullets[i];
        proof {
            assert(all_bullets.take(i + 1) =~= all_bullets.take(i as int).push(bullet));
            all_bullets.take(i as int).lemma_filter_push(bullet, keep);
        }
        if !bullet_meets_wall(&bullet, walls, dt_nanos) {
            survivors.push(bullet);
        }
        i += 1;
    }
    assert(all_bullets.take(all_bullets.len() as int) =~= all_bullets);
    *bullets = survivors;
}

} // verus!
