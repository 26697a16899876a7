use vstd::prelude::*;
use crate::config::SWEEP_STEPS;
use crate::entity::{Body, Bullet, Enemy, Player};
use crate::geometry::{aabb_overlap, distance, overlap, trunc_div, Axis, Vector};
use crate::math::{displacement, travel};
use crate::maze::Wall;

verus! {

/// Whether a box at `pos` with half-extent `half` overlaps any of the walls.
pub open spec fn hits_wall(pos: Vector, half: Vector, walls: Seq<Wall>) -> bool {
    exists|i: int|
        0 <= i < walls.len() && overlap(pos, half, (#[trigger] walls[i]).pos, walls[i].size.halved())
}

/// Tests a box against every wall.
pub fn overlaps_any(pos: Vector, half: Vector, walls: &Vec<Wall>) -> (hit: bool)
    ensures
        hit == hits_wall(pos, half, walls@),
{
    let mut i: usize = 0;
    while i < walls.len()
        invariant
            i <= walls.len(),
            forall|j: int|
                0 <= j < i ==> !overlap(pos, half, (#[trigger] walls[j]).pos, walls[j].size.halved()),
        decreases walls.len() - i,
    {
        let wall = walls[i];
        if aabb_overlap(pos, half, wall.pos, wall.size.half()) {
            return true;
        }
        i += 1;
    }
    false
}

/// Counts the sub-steps of length `step` that a box can take from `pos`
/// along `axis` before the next one would overlap a wall, given that the
/// first `done` of them are free; it never counts past `SWEEP_STEPS`.
pub open spec fn clear_steps(
    pos: Vector,
    half: Vector,
    step: int,
    axis: Axis,
    walls: Seq<Wall>,
    done: int,
) -> int
    decreases SWEEP_STEPS - done,
{
    if done >= SWEEP_STEPS || hits_wall(pos.shifted(axis, (done + 1) * step), half, walls) {
        done
    } else {
        clear_steps(pos, half, step, axis, walls, done + 1)
    }
}

/// How far a blocked move of `delta` gets: the move is cut into
/// `SWEEP_STEPS` equal sub-steps, and the box advances by the sub-steps that
/// come before the first one that would overlap a wall.
pub open spec fn swept(pos: Vector, half: Vector, delta: int, axis: Axis, walls: Seq<Wall>) -> int {
    let step = trunc_div(delta, SWEEP_STEPS as int);
    clear_steps(pos, half, step, axis, walls, 0) * step
}

/// Advances a box sub-step by sub-step along one axis and returns the
/// distance covered before the first sub-step that would overlap a wall.
pub fn sweep_axis(pos: Vector, half: Vector, delta: i64, axis: Axis, walls: &Vec<Wall>) -> (moved:
    i64)
    ensures
        moved == swept(pos, half, delta as int, axis, walls@),
{
    if delta == 0 {
        assert(swept(pos, half, 0, axis, walls@) == 0) by (nonlinear_arith)
            requires
                swept(pos, half, 0, axis, walls@) == clear_steps(pos, half, 0, axis, walls@, 0) * 0,
        ;
        return 0;
    }
    let step: i64 = delta / SWEEP_STEPS;
    let mut moved: i64 = 0;
    let mut done: i64 = 0;
    assert(0 * step == 0);
    while done < SWEEP_STEPS
        invariant
            0 <= done <= SWEEP_STEPS,
            step == trunc_div(delta as int, SWEEP_STEPS as int),
            -1537228672809129301 <= step <= 1537228672809129301,
            moved == done * step,
            clear_steps(pos, half, step as int, axis, walls@, 0) == clear_steps(
                pos,
                half,
                step as int,
                axis,
                walls@,
                done as int,
            ),
        ensures
            0 <= done <= SWEEP_STEPS,
            moved == done * step,
            done == clear_steps(pos, half, step as int, axis, walls@, 0),
        decreases SWEEP_STEPS - done,
    {
        assert((done + 1) * step == moved + step && -9223372036854775806 <= (done + 1) * step
            <= 9223372036854775806) by (nonlinear_arith)
            requires
                moved == done * step,
                0 <= done < 6,
                -1537228672809129301 <= step <= 1537228672809129301,
        ;
        let probe = pos.shift(axis, moved + step);
        if overlaps_any(probe, half, walls) {
            break;
        }
        moved = moved + step;
        done = done + 1;
    }
    moved
}

/// What `clear_steps` counts: every sub-step after the first `done`, up to
/// the count, leaves the box free of walls, and where the count is short of
/// `SWEEP_STEPS` the next sub-step would overlap one.
pub proof fn lemma_clear_steps(
    pos: Vector,
    half: Vector,
    step: int,
    axis: Axis,
    walls: Seq<Wall>,
    done: int,
)
    requires
        0 <= done <= SWEEP_STEPS,
    ensures
        done <= clear_steps(pos, half, step, axis, walls, done) <= SWEEP_STEPS,
        forall|j: int|
            done < j <= clear_steps(pos, half, step, axis, walls, done) ==> !hits_wall(
                #[trigger] pos.shifted(axis, j * step),
                half,
                walls,
            ),
        clear_steps(pos, half, step, axis, walls, done) < SWEEP_STEPS ==> hits_wall(
            pos.shifted(axis, (clear_steps(pos, half, step, axis, walls, done) + 1) * step),
            half,
            walls,
        ),
    decreases SWEEP_STEPS - done,
{
    if done < SWEEP_STEPS && !hits_wall(pos.shifted(axis, (done + 1) * step), half, walls) {
        lemma_clear_steps(pos, half, step, axis, walls, done + 1);
    }
}

/// Where a move of `delta` along one axis ends: at its target where that is
/// free of walls, and else as far as the sweep gets.
pub open spec fn resolved_axis(
    pos: Vector,
    half: Vector,
    delta: int,
    axis: Axis,
    walls: Seq<Wall>,
) -> Vector {
    let target = pos.shifted(axis, delta);
    if hits_wall(target, half, walls) {
        pos.shifted(axis, swept(pos, half, delta, axis, walls))
    } else {
        target
    }
}

/// Where a body stands after `dt_nanos` nanoseconds: it moves along x, then
/// along y, each move resolved against the walls by itself, so that a body
/// blocked on one axis still slides along the other.
pub open spec fn resolved(body: Body, walls: Seq<Wall>, dt_nanos: int) -> Vector {
    let half = body.half_extent();
    let after_x = resolved_axis(
        body.pos,
        half,
        displacement(body.vel.x as int, dt_nanos),
        Axis::X,
        walls,
    );
    resolved_axis(after_x, half, displacement(body.vel.y as int, dt_nanos), Axis::Y, walls)
}

/// Moves a box by `delta` along one axis, up to the walls.
pub fn resolve_axis(pos: Vector, half: Vector, delta: i64, axis: Axis, walls: &Vec<Wall>) -> (r:
    Vector)
    ensures
        r == resolved_axis(pos, half, delta as int, axis, walls@),
{
    let target = pos.shift(axis, delta);
    if overlaps_any(target, half, walls) {
        pos.shift(axis, sweep_axis(pos, half, delta, axis, walls))
    } else {
        target
    }
}

/// A move along one axis never ends inside a wall: a box that is free of
/// the walls where it starts is free of them where the move ends, not even
/// touching one.
pub proof fn lemma_axis_move_stays_clear(
    pos: Vector,
    half: Vector,
    delta: int,
    axis: Axis,
    walls: Seq<Wall>,
)
    requires
        !hits_wall(pos, half, walls),
    ensures
        !hits_wall(resolved_axis(pos, half, delta, axis, walls), half, walls),
{
    let target = pos.shifted(axis, delta);
    if hits_wall(target, half, walls) {
        let step = trunc_div(delta, SWEEP_STEPS as int);
        let count = clear_steps(pos, half, step, axis, walls, 0);
        lemma_clear_steps(pos, half, step, axis, walls, 0);
        if count == 0 {
            assert(count * step == 0);
            assert(pos.shifted(axis, 0) == pos);
        } else {
            assert(!hits_wall(pos.shifted(axis, count * step), half, walls));
        }
    }
}

/// A short move does not pass a wall. Let a box be free of the walls and
/// face one of them across the other axis, so that only its place along
/// `axis` keeps it off that wall, and let its move along `axis` be no longer
/// than twice the extent of box and wall together. Then the move ends on the
/// side of the wall where it began, still out of the wall's reach.
pub proof fn lemma_axis_move_same_side(
    pos: Vector,
    half: Vector,
    delta: int,
    axis: Axis,
    walls: Seq<Wall>,
    i: int,
)
    requires
        !hits_wall(pos, half, walls),
        0 <= i < walls.len(),
        distance(pos.along(axis.other()), walls[i].pos.along(axis.other())) <= half.along(
            axis.other(),
        ) + walls[i].size.halved().along(axis.other()),
        distance(delta, 0) <= 2 * (half.along(axis) + walls[i].size.halved().along(axis)),
    ensures
        ({
            let end = resolved_axis(pos, half, delta, axis, walls);
            let extent = half.along(axis) + walls[i].size.halved().along(axis);
            let wall = walls[i].pos.along(axis);
            &&& (pos.along(axis) < wall) == (end.along(axis) < wall)
            &&& distance(end.along(axis), wall) > extent
            &&& end.along(axis.other()) == pos.along(axis.other())
        }),
{
    let step = trunc_div(delta, SWEEP_STEPS as int);
    let count = clear_steps(pos, half, step, axis, walls, 0);
    let end = resolved_axis(pos, half, delta, axis, walls);
    lemma_clear_steps(pos, half, step, axis, walls, 0);
    lemma_axis_move_stays_clear(pos, half, delta, axis, walls);
    let covered = count * step;
    assert(distance(covered, 0) <= distance(delta, 0)) by (nonlinear_arith)
        requires
            0 <= count <= 6,
            covered == count * step,
            (delta >= 0 && 0 <= step && 6 * step <= delta) || (delta <= 0 && step <= 0 && delta <= 6
                * step),
    ;
    assert(!overlap(pos, half, walls[i].pos, walls[i].size.halved()));
    assert(!overlap(end, half, walls[i].pos, walls[i].size.halved()));
}

/// Where a move ends is free of the walls: a body that is free of the walls
/// before it moves is free of every wall after the move, whatever its
/// velocity and the time step. Its box and a wall's box do not even touch.
/// This speaks of the end of the move only; that a move which is short
/// enough stays on its side of a wall is `lemma_axis_move_same_side`.
pub proof fn lemma_move_stays_clear(body: Body, walls: Seq<Wall>, dt_nanos: int)
    requires
        !hits_wall(body.pos, body.half_extent(), walls),
    ensures
        !hits_wall(resolved(body, walls, dt_nanos), body.half_extent(), walls),
        forall|i: int|
            0 <= i < walls.len() ==> !overlap(
                resolved(body, walls, dt_nanos),
                body.half_extent(),
                (#[trigger] walls[i]).pos,
                walls[i].size.halved(),
            ),
{
    let half = body.half_extent();
    let dx = displacement(body.vel.x as int, dt_nanos);
    let dy = displacement(body.vel.y as int, dt_nanos);
    lemma_axis_move_stays_clear(body.pos, half, dx, Axis::X, walls);
    let after_x = resolved_axis(body.pos, half, dx, Axis::X, walls);
    lemma_axis_move_stays_clear(after_x, half, dy, Axis::Y, walls);
}

impl Body {
    /// This body after one time step.
    pub open spec fn advanced(self, walls: Seq<Wall>, dt_nanos: int) -> Body {
        Body { pos: resolved(self, walls, dt_nanos), vel: self.vel, size: self.size }
    }

    /// Integrates the velocity over one time step and resolves the move
    /// against the walls.
    pub fn advance(&mut self, walls: &Vec<Wall>, dt_nanos: u32)
        ensures
            *final(self) == old(self).advanced(walls@, dt_nanos as int),
    {
        let half = self.size.half();
        let after_x = resolve_axis(self.pos, half, travel(self.vel.x, dt_nanos), Axis::X, walls);
        self.pos = resolve_axis(after_x, half, travel(self.vel.y, dt_nanos), Axis::Y, walls);
    }
}

impl Player {
    /// This player after one time step.
    pub open spec fn moved(self, walls: Seq<Wall>, dt_nanos: int) -> Player {
        Player { body: self.body.advanced(walls, dt_nanos), facing: self.facing }
    }
}

impl Enemy {
    /// This enemy after one time step.
    pub open spec fn moved(self, walls: Seq<Wall>, dt_nanos: int) -> Enemy {
        Enemy { body: self.body.advanced(walls, dt_nanos), gun: self.gun }
    }
}

impl Bullet {
    /// This bullet after one time step.
    pub open spec fn moved(self, walls: Seq<Wall>, dt_nanos: int) -> Bullet {
        Bullet { body: self.body.advanced(walls, dt_nanos), faction: self.faction }
    }
}

/// The player, if there is one, after one time step.
pub open spec fn moved_player(player: Option<Player>, walls: Seq<Wall>, dt_nanos: int) -> Option<
    Player,
> {
    match player {
        Some(p) => Some(p.moved(walls, dt_nanos)),
        None => None,
    }
}

/// Every enemy after one time step.
pub open spec fn moved_enemies(enemies: Seq<Enemy>, walls: Seq<Wall>, dt_nanos: int) -> Seq<Enemy> {
    Seq::new(enemies.len(), |i: int| enemies[i].moved(walls, dt_nanos))
}

/// Every bullet after one time step.
pub open spec fn moved_bullets(bullets: Seq<Bullet>, walls: Seq<Wall>, dt_nanos: int) -> Seq<Bullet> {
    Seq::new(bullets.len(), |i: int| bullets[i].moved(walls, dt_nanos))
}

/// The movement pass leaves no mover in a wall that was free of the walls
/// before it: this holds of the player, of every enemy and of every bullet.
pub proof fn lemma_pass_stays_clear(
    player: Option<Player>,
    enemies: Seq<Enemy>,
    bullets: Seq<Bullet>,
    walls: Seq<Wall>,
    dt_nanos: int,
)
    ensures
        player matches Some(p) ==> (!hits_wall(p.body.pos, p.body.half_extent(), walls) ==> !hits_wall(
            moved_player(player, walls, dt_nanos)->0.body.pos,
            p.body.half_extent(),
            walls,
        )),
        forall|i: int|
            0 <= i < enemies.len() && !hits_wall(
                (#[trigger] enemies[i]).body.pos,
                enemies[i].body.half_extent(),
                walls,
            ) ==> !hits_wall(
                moved_enemies(enemies, walls, dt_nanos)[i].body.pos,
                enemies[i].body.half_extent(),
                walls,
            ),
        forall|i: int|
            0 <= i < bullets.len() && !hits_wall(
                (#[trigger] bullets[i]).body.pos,
                bullets[i].body.half_extent(),
                walls,
            ) ==> !hits_wall(
                moved_bullets(bullets, walls, dt_nanos)[i].body.pos,
                bullets[i].body.half_extent(),
                walls,
            ),
{
    if let Some(p) = player {
        if !hits_wall(p.body.pos, p.body.half_extent(), walls) {
            lemma_move_stays_clear(p.body, walls, dt_nanos);
        }
    }
    assert forall|i: int|
        0 <= i < enemies.len() && !hits_wall(
            (#[trigger] enemies[i]).body.pos,
            enemies[i].body.half_extent(),
            walls,
        ) implies !hits_wall(
        moved_enemies(enemies, walls, dt_nanos)[i].body.pos,
        enemies[i].body.half_extent(),
        walls,
    ) by {
        lemma_move_stays_clear(enemies[i].body, walls, dt_nanos);
    }
    assert forall|i: int|
        0 <= i < bullets.len() && !hits_wall(
            (#[trigger] bullets[i]).body.pos,
            bullets[i].body.half_extent(),
            walls,
        ) implies !hits_wall(
        moved_bullets(bullets, walls, dt_nanos)[i].body.pos,
        bullets[i].body.half_extent(),
        walls,
    ) by {
        lemma_move_stays_clear(bullets[i].body, walls, dt_nanos);
    }
}

/// Moves the player, the enemies and the bullets by one time step, each
/// resolved against the walls.
pub fn move_with_collisions(
    player: &mut Option<Player>,
    enemies: &mut Vec<Enemy>,
    bullets: &mut Vec<Bullet>,
    walls: &Vec<Wall>,
    dt_nanos: u32,
)
    ensures
        *final(player) == moved_player(*old(player), walls@, dt_nanos as int),
        final(enemies)@ == moved_enemies(old(enemies)@, walls@, dt_nanos as int),
        final(bullets)@ == moved_bullets(old(bullets)@, walls@, dt_nanos as int),
{
    if let Some(p) = *player {
        let mut body = p.body;
        body.advance(walls, dt_nanos);
        *player = Some(Player { body, facing: p.facing });
    }
    let ghost all_enemies = enemies@;
    let mut i: usize = 0;
    while i < enemies.len()
        invariant
            i <= enemies.len(),
            enemies@.len() == all_enemies.len(),
            forall|j: int| 0 <= j < i ==> enemies@[j] == all_enemies[j].moved(walls@, dt_nanos as int),
            forall|j: int| i <= j < enemies@.len() ==> enemies@[j] == all_enemies[j],
        decreases enemies.len() - i,
    {
        let enemy = enemies[i];
        let mut body = enemy.body;
        body.advance(walls, dt_nanos);
        enemies.set(i, Enemy { body, gun: enemy.gun });
        i += 1;
    }
    assert(enemies@ =~= moved_enemies(all_enemies, walls@, dt_nanos as int));
    let ghost all_bullets = bullets@;
    let mut k: usize = 0;
    while k < bullets.len()
        invariant
            k <= bullets.len(),
            bullets@.len() == all_bullets.len(),
            forall|j: int| 0 <= j < k ==> bullets@[j] == all_bullets[j].moved(walls@, dt_nanos as int),
            forall|j: int| k <= j < bullets@.len() ==> bullets@[j] == all_bullets[j],
        decreases bullets.len() - k,
    {
        let bullet = bullets[k];
        let mut body = bullet.body;
        body.advance(walls, dt_nanos);
        bullets.set(k, Bullet { body, faction: bullet.faction });
        k += 1;
    }
    assert(bullets@ =~= moved_bullets(all_bullets, walls@, dt_nanos as int));
}

} // verus!
