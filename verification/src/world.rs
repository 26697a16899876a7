use vstd::prelude::*;
use crate::ai::{
    enemies_after_guns, enemies_seeking, enemy_ai_seek_player, enemy_handle_fire, with_enemy_shots,
};
use crate::arena::{clamp_to_arena, confined_bullets, confined_enemies, confined_player};
use crate::combat::{
    bullet_hits, bullet_wall_cull, enemies_left, flies_on, lemma_enemies_left_len,
    lemma_enemy_bullet_hits_player, passes_by, player_hit, strikes,
};
use crate::config::{ENEMY_CAP, ENEMY_SPAWN_NANOS, FIRE_COOLDOWN_NANOS};
use crate::entity::{Bullet, Enemy, Faction, Input, Player};
use crate::geometry::Vector;
use crate::maze::{
    grid_count, layout_of, lemma_layout_counts, MazeLayout, MazeLayoutView, Wall, WALL_MARK,
};
use crate::movement::{move_with_collisions, moved_bullets, moved_enemies, moved_player};
use crate::player::{cooldown_after, handle_fire, player_input, steered_player, with_player_shot};
use crate::spawner::{
    enemy_spawner, spawned_cursor, spawned_enemies, SpawnPoints, SpawnPointsView,
};
use crate::timer::{Countdown, TimerKind};

verus! {

/// Everything the simulation owns: the maze it was built from, the walls
/// that stand, the movers that live, and the timers that gate firing and
/// spawning.
#[derive(Clone, Debug, PartialEq, Eq)]
pub struct World {
    pub maze: MazeLayout,
    pub walls: Vec<Wall>,
    pub spawns: SpawnPoints,
    pub player_start: Vector,
    pub player: Option<Player>,
    pub enemies: Vec<Enemy>,
    pub bullets: Vec<Bullet>,
    pub fire_cooldown: Countdown,
    pub spawn_timer: Countdown,
}

/// The mathematical content of a `World`.
pub struct WorldView {
    pub maze: MazeLayoutView,
    pub walls: Seq<Wall>,
    pub spawns: SpawnPointsView,
    pub player_start: Vector,
    pub player: Option<Player>,
    pub enemies: Seq<Enemy>,
    pub bullets: Seq<Bullet>,
    pub fire_cooldown: Countdown,
    pub spawn_timer: Countdown,
}

impl View for World {
    type V = WorldView;

    open spec fn view(&self) -> WorldView {
        WorldView {
            maze: self.maze@,
            walls: self.walls@,
            spawns: self.spawns@,
            player_start: self.player_start,
            player: self.player,
            enemies: self.enemies@,
            bullets: self.bullets@,
            fire_cooldown: self.fire_cooldown,
            spawn_timer: self.spawn_timer,
        }
    }
}

impl WorldView {
    /// The world at the start of a game in the given maze: its walls stand,
    /// the player waits at the start, and nothing else lives.
    pub open spec fn started(maze: MazeLayoutView) -> WorldView {
        WorldView {
            maze,
            walls: maze.walls,
            spawns: SpawnPointsView { points: maze.spawn_points, next: 0 },
            player_start: maze.player_start,
            player: Some(Player::placed_at(maze.player_start)),
            enemies: Seq::empty(),
            bullets: Seq::empty(),
            fire_cooldown: Countdown::fresh(TimerKind::Once, FIRE_COOLDOWN_NANOS),
            spawn_timer: Countdown::fresh(TimerKind::Repeating, ENEMY_SPAWN_NANOS),
        }
    }

    /// This world with every player, enemy, wall and bullet removed and both
    /// timers set back.
    pub open spec fn cleaned(self) -> WorldView {
        WorldView {
            maze: self.maze,
            walls: Seq::empty(),
            spawns: self.spawns,
            player_start: self.player_start,
            player: None,
            enemies: Seq::empty(),
            bullets: Seq::empty(),
            fire_cooldown: self.fire_cooldown.rewound(),
            spawn_timer: self.spawn_timer.rewound(),
        }
    }

    /// This world with the maze built into it: the maze's walls are added,
    /// and its spawn points and player start replace the old ones.
    pub open spec fn with_maze_built(self) -> WorldView {
        WorldView {
            maze: self.maze,
            walls: self.walls + self.maze.walls,
            spawns: SpawnPointsView { points: self.maze.spawn_points, next: 0 },
            player_start: self.maze.player_start,
            player: self.player,
            enemies: self.enemies,
            bullets: self.bullets,
            fire_cooldown: self.fire_cooldown,
            spawn_timer: self.spawn_timer,
        }
    }

    /// This world with a new player at the player start.
    pub open spec fn with_player_spawned(self) -> WorldView {
        WorldView {
            maze: self.maze,
            walls: self.walls,
            spawns: self.spawns,
            player_start: self.player_start,
            player: Some(Player::placed_at(self.player_start)),
            enemies: self.enemies,
            bullets: self.bullets,
            fire_cooldown: self.fire_cooldown,
            spawn_timer: self.spawn_timer,
        }
    }

    /// This world after a full reset: cleaned, the maze rebuilt, the player
    /// back at the start.
    pub open spec fn restarted(self) -> WorldView {
        self.cleaned().with_maze_built().with_player_spawned()
    }

    /// This world after the first passes of a frame: the input steers the
    /// player, the player fires, the enemies fire, and everything moves
    /// against the walls.
    pub open spec fn after_moves(self, input: Input, dt_nanos: nat) -> WorldView {
        let dt = dt_nanos as int;
        let player = steered_player(self.player, input);
        let bullets = with_enemy_shots(
            with_player_shot(self.bullets, self.fire_cooldown, input.fire, player, dt_nanos),
            self.enemies,
            player,
            dt_nanos,
        );
        WorldView {
            maze: self.maze,
            walls: self.walls,
            spawns: self.spawns,
            player_start: self.player_start,
            player: moved_player(player, self.walls, dt),
            enemies: moved_enemies(
                enemies_after_guns(self.enemies, player, dt_nanos),
                self.walls,
                dt,
            ),
            bullets: moved_bullets(bullets, self.walls, dt),
            fire_cooldown: cooldown_after(self.fire_cooldown, input.fire, player, dt_nanos),
            spawn_timer: self.spawn_timer,
        }
    }

    /// This world after the last passes of a frame, and whether the player
    /// was hit: bullets hit their targets, bullets end at walls, the enemies
    /// steer, the spawner runs, and everything is kept inside the arena.
    pub open spec fn after_combat(self, dt_nanos: nat) -> (WorldView, bool) {
        let left = enemies_left(self.bullets, self.enemies, self.enemies.len() as int);
        let seeking = enemies_seeking(left, self.player);
        (
            WorldView {
                maze: self.maze,
                walls: self.walls,
                spawns: spawned_cursor(self.spawn_timer, self.spawns, seeking.len(), dt_nanos),
                player_start: self.player_start,
                player: confined_player(self.player),
                enemies: confined_enemies(
                    spawned_enemies(self.spawn_timer, self.spawns, seeking, dt_nanos),
                ),
                bullets: confined_bullets(
                    self.bullets.filter(passes_by(self.enemies, self.player)).filter(
                        flies_on(self.walls, dt_nanos as int),
                    ),
                ),
                fire_cooldown: self.fire_cooldown,
                spawn_timer: self.spawn_timer.ticked(dt_nanos),
            },
            player_hit(self.bullets, self.player, self.bullets.len() as int),
        )
    }

    /// This world after the passes of one frame, in their fixed order, and
    /// whether the player was hit in it: input, the player's fire, the
    /// enemies' fire and movement against the walls; then bullet hits, bullets
    /// ending at walls, enemy steering, spawning and the arena clamp.
    pub open spec fn simulated(self, input: Input, dt_nanos: nat) -> (WorldView, bool) {
        self.after_moves(input, dt_nanos).after_combat(dt_nanos)
    }

    /// This world after one frame: the passes run, and where the player was
    /// hit the world is reset at the end of the frame.
    pub open spec fn stepped(self, input: Input, dt_nanos: nat) -> WorldView {
        let (next, hit) = self.simulated(input, dt_nanos);
        if hit {
            next.restarted()
        } else {
            next
        }
    }
}

/// After a frame in which the player was hit the world is as new: no enemy
/// and no bullet is left, the player stands at the maze's start, the walls are
/// those of the maze, the spawn cursor is back at the first point and both
/// timers start over.
pub proof fn lemma_hit_resets_world(world: WorldView, input: Input, dt_nanos: nat)
    requires
        world.simulated(input, dt_nanos).1,
    ensures
        world.stepped(input, dt_nanos).enemies.len() == 0,
        world.stepped(input, dt_nanos).bullets.len() == 0,
        world.stepped(input, dt_nanos).player == Some(Player::placed_at(world.maze.player_start)),
        world.stepped(input, dt_nanos).walls == world.maze.walls,
        world.stepped(input, dt_nanos).spawns == (SpawnPointsView {
            points: world.maze.spawn_points,
            next: 0,
        }),
        world.stepped(input, dt_nanos).fire_cooldown == world.fire_cooldown.rewound(),
        world.stepped(input, dt_nanos).spawn_timer == world.spawn_timer.rewound(),
        world.stepped(input, dt_nanos).maze == world.maze,
{
    let next = world.simulated(input, dt_nanos).0;
    assert(next.cleaned().with_maze_built().walls =~= world.maze.walls);
}

/// Without a hit nothing is reset: a frame in which no bullet of the enemies
/// struck the player ends as its passes left it, with the walls, the maze
/// and the player's start untouched.
pub proof fn lemma_no_hit_no_reset(world: WorldView, input: Input, dt_nanos: nat)
    requires
        !world.simulated(input, dt_nanos).1,
    ensures
        world.stepped(input, dt_nanos) == world.simulated(input, dt_nanos).0,
        world.stepped(input, dt_nanos).walls == world.walls,
        world.stepped(input, dt_nanos).maze == world.maze,
        world.stepped(input, dt_nanos).player_start == world.player_start,
        world.player is Some ==> world.stepped(input, dt_nanos).player is Some,
{
}

/// A bullet of the enemies that overlaps the player once everything has
/// moved always ends the frame in a reset: the bullet is gone with all the
/// others, no enemy is left, and the player is back at the maze's start.
pub proof fn lemma_bullet_on_player_resets(
    world: WorldView,
    input: Input,
    dt_nanos: nat,
    turn: int,
)
    requires
        0 <= turn < world.after_moves(input, dt_nanos).bullets.len(),
        world.after_moves(input, dt_nanos).bullets[turn].faction == Faction::Enemy,
        world.after_moves(input, dt_nanos).player is Some,
        strikes(
            world.after_moves(input, dt_nanos).bullets[turn],
            world.after_moves(input, dt_nanos).player->0.body,
        ),
    ensures
        world.simulated(input, dt_nanos).1,
        world.stepped(input, dt_nanos).bullets.len() == 0,
        world.stepped(input, dt_nanos).enemies.len() == 0,
        world.stepped(input, dt_nanos).player == Some(Player::placed_at(world.maze.player_start)),
        world.stepped(input, dt_nanos).walls == world.maze.walls,
{
    let moved = world.after_moves(input, dt_nanos);
    lemma_enemy_bullet_hits_player(moved.bullets, moved.enemies, moved.player->0, turn);
    lemma_hit_resets_world(world, input, dt_nanos);
}

/// In a world whose maze was built from `grid`, a reset leaves as many
/// walls as the grid has wall cells.
pub proof fn lemma_restart_wall_count(world: WorldView, grid: Seq<Seq<char>>)
    requires
        world.maze == layout_of(grid),
    ensures
        world.restarted().walls.len() == grid_count(grid, WALL_MARK, grid.len() as int),
{
    lemma_layout_counts(grid);
    assert(world.cleaned().with_maze_built().walls =~= world.maze.walls);
}

/// The enemy cap holds from frame to frame: a world with at most
/// `ENEMY_CAP` enemies has at most that many after any frame, whenever the
/// spawn timer fires.
pub proof fn lemma_enemy_cap(world: WorldView, input: Input, dt_nanos: nat)
    requires
        world.enemies.len() <= ENEMY_CAP,
    ensures
        world.stepped(input, dt_nanos).enemies.len() <= ENEMY_CAP,
        world.simulated(input, dt_nanos).0.enemies.len() <= ENEMY_CAP,
{
    let moved = world.after_moves(input, dt_nanos);
    assert(moved.enemies.len() == world.enemies.len());
    lemma_enemies_left_len(moved.bullets, moved.enemies, moved.enemies.len() as int);
    let left = enemies_left(moved.bullets, moved.enemies, moved.enemies.len() as int);
    assert(enemies_seeking(left, moved.player).len() == left.len());
}

/// Copies a list of walls.
pub fn copy_walls(walls: &Vec<Wall>) -> (copy: Vec<Wall>)
    ensures
        copy@ == walls@,
{
    let mut copy: Vec<Wall> = Vec::new();
    let mut i: usize = 0;
    while i < walls.len()
        invariant
            i <= walls.len(),
            copy@ == walls@.take(i as int),
        decreases walls.len() - i,
    {
        copy.push(walls[i]);
        assert(copy@ =~= walls@.take(i + 1));
        i += 1;
    }
    assert(walls@.take(walls@.len() as int) =~= walls@);
    copy
}

/// Copies a list of points.
pub fn copy_points(points: &Vec<Vector>) -> (copy: Vec<Vector>)
    ensures
        copy@ == points@,
{
    let mut copy: Vec<Vector> = Vec::new();
    let mut i: usize = 0;
    while i < points.len()
        invariant
            i <= points.len(),
            copy@ == points@.take(i as int),
        decreases points.len() - i,
    {
        copy.push(points[i]);
        assert(copy@ =~= points@.take(i + 1));
        i += 1;
    }
    assert(points@.take(points@.len() as int) =~= points@);
    copy
}

impl World {
    /// Starts a game in the given maze.
    pub fn new(maze: MazeLayout) -> (world: World)
        ensures
            world@ == WorldView::started(maze@),
    {
        let walls = copy_walls(&maze.walls);
        let spawns = SpawnPoints::new(copy_points(&maze.spawn_points));
        let player_start = maze.player_start;
        World {
            maze,
            walls,
            spawns,
            player_start,
            player: Some(Player::spawn(player_start)),
            enemies: Vec::new(),
            bullets: Vec::new(),
            fire_cooldown: Countdown::new(TimerKind::Once, FIRE_COOLDOWN_NANOS),
            spawn_timer: Countdown::new(TimerKind::Repeating, ENEMY_SPAWN_NANOS),
        }
    }

    /// First step of a reset: removes every player, enemy, wall and bullet
    /// and sets both timers back.
    pub fn on_restart_cleanup(&mut self)
        ensures
            final(self)@ == old(self)@.cleaned(),
    {
        self.player = None;
        self.enemies.clear();
        self.walls.clear();
        self.bullets.clear();
        self.fire_cooldown.reset();
        self.spawn_timer.reset();
    }

    /// Second step of a reset: builds the maze into the world.
    pub fn on_restart_build_maze(&mut self)
        ensures
            final(self)@ == old(self)@.with_maze_built(),
    {
        let ghost before = self.walls@;
        let mut i: usize = 0;
        while i < self.maze.walls.len()
            invariant
                i <= self.maze.walls.len(),
                self.maze == old(self).maze,
                self.walls@ == before + self.maze.walls@.take(i as int),
                self.player == old(self).player,
                self.enemies == old(self).enemies,
                self.bullets == old(self).bullets,
                self.fire_cooldown == old(self).fire_cooldown,
                self.spawn_timer == old(self).spawn_timer,
            decreases self.maze.walls.len() - i,
        {
            let wall = self.maze.walls[i];
            self.walls.push(wall);
            assert(self.walls@ =~= before + self.maze.walls@.take(i + 1));
            i += 1;
        }
        assert(self.maze.walls@.take(self.maze.walls@.len() as int) =~= self.maze.walls@);
        self.spawns = SpawnPoints::new(copy_points(&self.maze.spawn_points));
        self.player_start = self.maze.player_start;
    }

    /// Third step of a reset: puts a new player at the player start.
    pub fn on_restart_spawn_player(&mut self)
        ensures
            final(self)@ == old(self)@.with_player_spawned(),
    {
        self.player = Some(Player::spawn(self.player_start));
    }

    /// Resets the world: everything is removed, the maze is rebuilt and the
    /// player is back at the start.
    pub fn restart(&mut self)
        ensures
            final(self)@ == old(self)@.restarted(),
    {
        self.on_restart_cleanup();
        self.on_restart_build_maze();
        self.on_restart_spawn_player();
    }

    /// Runs one frame and tells whether the player was hit in it, in which
    /// case the world has been reset.
    pub fn step(&mut self, input: &Input, dt_nanos: u32) -> (hit: bool)
        ensures
            final(self)@ == old(self)@.stepped(*input, dt_nanos as nat),
            hit == old(self)@.simulated(*input, dt_nanos as nat).1,
            old(self)@.enemies.len() <= ENEMY_CAP ==> final(self)@.enemies.len() <= ENEMY_CAP,
    {
        proof {
            if self@.enemies.len() <= ENEMY_CAP {
                lemma_enemy_cap(self@, *input, dt_nanos as nat);
            }
        }
        player_input(&mut self.player, input);
        handle_fire(&mut self.fire_cooldown, input.fire, &self.player, &mut self.bullets, dt_nanos);
        enemy_handle_fire(&mut self.enemies, &mut self.bullets, &self.player, dt_nanos);
        move_with_collisions(
            &mut self.player,
            &mut self.enemies,
            &mut self.bullets,
            &self.walls,
            dt_nanos,
        );
        let hit = bullet_hits(&mut self.bullets, &mut self.enemies, &self.player);
        bullet_wall_cull(&mut self.bullets, &self.walls, dt_nanos);
        enemy_ai_seek_player(&mut self.enemies, &self.player);
        enemy_spawner(&mut self.spawn_timer, &mut self.spawns, &mut self.enemies, dt_nanos);
        clamp_to_arena(&mut self.player, &mut self.enemies, &mut self.bullets);
        if hit {
            self.restart();
        }
        hit
    }
}

} // verus!
