use vstd::prelude::*;
use vstd::arithmetic::div_mod::{lemma_add_mod_noop_right, lemma_fundamental_div_mod};
use crate::config::ENEMY_CAP;
use crate::entity::Enemy;
use crate::geometry::Vector;
use crate::timer::Countdown;

verus! {

/// The places where enemies enter, with the cursor that picks the next one.
#[derive(Clone, Debug, PartialEq, Eq)]
pub struct SpawnPoints {
    pub points: Vec<Vector>,
    pub next: usize,
}

/// The mathematical content of `SpawnPoints`.
pub struct SpawnPointsView {
    pub points: Seq<Vector>,
    pub next: nat,
}

impl View for SpawnPoints {
    type V = SpawnPointsView;

    open spec fn view(&self) -> SpawnPointsView {
        SpawnPointsView { points: self.points@, next: self.next as nat }
    }
}

impl SpawnPointsView {
    /// The point that the cursor stands on.
    pub open spec fn current(self) -> Vector
        recommends
            self.points.len() > 0,
    {
        self.points[(self.next % self.points.len()) as int]
    }

    /// The registry after one point was used: the cursor moves on by one
    /// and wraps at the end of the list.
    pub open spec fn advanced(self) -> SpawnPointsView
        recommends
            self.points.len() > 0,
    {
        SpawnPointsView { points: self.points, next: (self.next + 1) % self.points.len() }
    }

    /// The registry after `uses` points were used.
    pub open spec fn advanced_by(self, uses: nat) -> SpawnPointsView
        decreases uses,
    {
        if uses == 0 {
            self
        } else {
            self.advanced_by((uses - 1) as nat).advanced()
        }
    }
}

/// Spawn points are used round-robin: after `uses` spawns the cursor stands
/// on the point `uses` places further along the list, counted cyclically. In
/// particular a registry that starts at its first point hands out its points
/// in order, over and over.
pub proof fn lemma_round_robin(spawns: SpawnPointsView, uses: nat)
    requires
        spawns.points.len() > 0,
    ensures
        spawns.advanced_by(uses).points == spawns.points,
        spawns.advanced_by(uses).current() == spawns.points[((spawns.next + uses)
            % spawns.points.len()) as int],
        spawns.next == 0 ==> spawns.advanced_by(uses).current() == spawns.points[(uses
            % spawns.points.len()) as int],
    decreases uses,
{
    let n = spawns.points.len() as int;
    if uses > 0 {
        lemma_cursor(spawns, uses);
        lemma_add_mod_noop_right(0, (spawns.next + uses) as int, n);
    }
}

/// After at least one use the cursor is the start cursor plus the number of
/// uses, modulo the number of points.
pub proof fn lemma_cursor(spawns: SpawnPointsView, uses: nat)
    requires
        spawns.points.len() > 0,
        uses > 0,
    ensures
        spawns.advanced_by(uses).points == spawns.points,
        spawns.advanced_by(uses).next == (spawns.next + uses) % spawns.points.len(),
    decreases uses,
{
    let n = spawns.points.len() as int;
    if uses == 1 {
        assert(spawns.advanced_by(0) == spawns);
        assert(spawns.advanced_by(1) == spawns.advanced());
    } else {
        lemma_cursor(spawns, (uses - 1) as nat);
        let before = spawns.advanced_by((uses - 1) as nat);
        assert(spawns.advanced_by(uses) == before.advanced());
        lemma_add_mod_noop_right(1, spawns.next + uses - 1, n);
    }
}

/// Within one round no place of the list is used twice: two spawns that are
/// fewer than the number of points apart take their points from different
/// places of the list.
pub proof fn lemma_round_uses_each_place_once(spawns: SpawnPointsView, first: nat, second: nat)
    requires
        spawns.points.len() > 0,
        first < second < first + spawns.points.len(),
    ensures
        spawns.advanced_by(first).next % spawns.points.len() != spawns.advanced_by(second).next
            % spawns.points.len(),
{
    let n = spawns.points.len() as int;
    let a = (spawns.next + first) as int;
    let b = (spawns.next + second) as int;
    if first > 0 {
        lemma_cursor(spawns, first);
    }
    lemma_cursor(spawns, second);
    lemma_add_mod_noop_right(0, a, n);
    lemma_add_mod_noop_right(0, b, n);
    assert(spawns.advanced_by(first).next % (n as nat) == a % n);
    assert(spawns.advanced_by(second).next % (n as nat) == b % n);
    lemma_fundamental_div_mod(a, n);
    lemma_fundamental_div_mod(b, n);
    let qa = a / n;
    let qb = b / n;
    let ra = a % n;
    let rb = b % n;
    assert(ra != rb) by (nonlinear_arith)
        requires
            a == n * qa + ra,
            b == n * qb + rb,
            0 < b - a < n,
    ;
}

impl SpawnPoints {
    /// A registry whose cursor stands on its first point.
    pub fn new(points: Vec<Vector>) -> (s: SpawnPoints)
        ensures
            s@ == (SpawnPointsView { points: points@, next: 0 }),
    {
        SpawnPoints { points, next: 0 }
    }

    /// Hands out the point under the cursor and moves the cursor on; `None`
    /// where there are no points.
    pub fn take_next(&mut self) -> (p: Option<Vector>)
        ensures
            old(self)@.points.len() == 0 ==> p is None && final(self)@ == old(self)@,
            old(self)@.points.len() > 0 ==> p == Some(old(self)@.current()) && final(self)@ == old(
                self,
            )@.advanced(),
    {
        let n: usize = self.points.len();
        if n == 0 {
            return None;
        }
        let idx: usize = self.next % n;
        let p = self.points[idx];
        proof {
            lemma_add_mod_noop_right(1, self.next as int, n as int);
        }
        self.next = (idx + 1) % n;
        Some(p)
    }
}

/// Whether the spawner adds an enemy in this frame: its timer has just
/// finished, fewer than `ENEMY_CAP` enemies are alive and there is a spawn point.
pub open spec fn spawn_due(timer: Countdown, spawns: SpawnPointsView, alive: nat, dt_nanos: nat) -> bool {
    timer.ticked(dt_nanos).finished && alive < ENEMY_CAP && spawns.points.len() > 0
}

/// The enemies after the spawner ran.
pub open spec fn spawned_enemies(
    timer: Countdown,
    spawns: SpawnPointsView,
    enemies: Seq<Enemy>,
    dt_nanos: nat,
) -> Seq<Enemy> {
    if spawn_due(timer, spawns, enemies.len(), dt_nanos) {
        enemies.push(Enemy::placed_at(spawns.current()))
    } else {
        enemies
    }
}

/// The spawn points after the spawner ran.
pub open spec fn spawned_cursor(
    timer: Countdown,
    spawns: SpawnPointsView,
    alive: nat,
    dt_nanos: nat,
) -> SpawnPointsView {
    if spawn_due(timer, spawns, alive, dt_nanos) {
        spawns.advanced()
    } else {
        spawns
    }
}

/// Ticks the spawn timer and, when it has finished, adds one enemy at the
/// next spawn point, unless the cap is reached or there is no spawn point.
/// The cursor only moves when an enemy was added.
pub fn enemy_spawner(
    timer: &mut Countdown,
    spawns: &mut SpawnPoints,
    enemies: &mut Vec<Enemy>,
    dt_nanos: u32,
)
    ensures
        *final(timer) == old(timer).ticked(dt_nanos as nat),
        final(enemies)@ == spawned_enemies(*old(timer), old(spawns)@, old(enemies)@, dt_nanos as nat),
        final(spawns)@ == spawned_cursor(
            *old(timer),
            old(spawns)@,
            old(enemies)@.len(),
            dt_nanos as nat,
        ),
        old(enemies)@.len() <= ENEMY_CAP ==> final(enemies)@.len() <= ENEMY_CAP,
        final(enemies)@.len() <= old(enemies)@.len() + 1,
{
    timer.tick(dt_nanos as u64);
    if !timer.finished() {
        return;
    }
    if enemies.len() >= ENEMY_CAP {
        return;
    }
    match spawns.take_next() {
        Some(pos) => {
            enemies.push(Enemy::spawn(pos));
        },
        None => {},
    }
}

} // verus!
