use tank_arena::entity::{Body, Enemy};
use tank_arena::geometry::Vector;
use tank_arena::spawner::{enemy_spawner, SpawnPoints};
use tank_arena::timer::{Countdown, TimerKind};

fn at(x: i32, y: i32) -> Vector {
    Vector { x, y }
}

fn three_points() -> SpawnPoints {
    SpawnPoints::new(vec![at(10, 0), at(20, 0), at(30, 0)])
}

fn spawn_timer() -> Countdown {
    Countdown::new(TimerKind::Repeating, 1_250_000_000)
}

#[test]
fn a_new_registry_starts_at_its_first_point() {
    let spawns = three_points();
    assert_eq!(spawns.next, 0);
    assert_eq!(spawns.points, vec![at(10, 0), at(20, 0), at(30, 0)]);
}

#[test]
fn spawn_points_are_handed_out_round_robin() {
    let mut spawns = three_points();
    assert_eq!(spawns.take_next(), Some(at(10, 0)));
    assert_eq!(spawns.take_next(), Some(at(20, 0)));
    assert_eq!(spawns.take_next(), Some(at(30, 0)));
    assert_eq!(spawns.take_next(), Some(at(10, 0)));
    assert_eq!(spawns.take_next(), Some(at(20, 0)));
    assert_eq!(spawns.next, 2);
}

#[test]
fn an_empty_registry_hands_out_nothing() {
    let mut spawns = SpawnPoints::new(Vec::new());
    assert_eq!(spawns.take_next(), None);
    assert_eq!(spawns.next, 0);
}

#[test]
fn a_cursor_past_the_end_wraps() {
    let mut spawns = SpawnPoints { points: vec![at(10, 0), at(20, 0), at(30, 0)], next: 7 };
    assert_eq!(spawns.take_next(), Some(at(20, 0)));
    assert_eq!(spawns.next, 2);
    let mut spawns = SpawnPoints { points: vec![at(10, 0), at(20, 0)], next: usize::MAX };
    assert_eq!(spawns.take_next(), Some(at(20, 0)));
    assert_eq!(spawns.next, 0);
}

#[test]
fn a_single_point_is_used_every_time() {
    let mut spawns = SpawnPoints::new(vec![at(5, 5)]);
    assert_eq!(spawns.take_next(), Some(at(5, 5)));
    assert_eq!(spawns.take_next(), Some(at(5, 5)));
    assert_eq!(spawns.next, 0);
}

#[test]
fn consecutive_spawns_cycle_through_the_points() {
    let mut timer = spawn_timer();
    let mut spawns = three_points();
    let mut enemies: Vec<Enemy> = Vec::new();
    let mut round: u32 = 0;
    while round < 7 {
        enemy_spawner(&mut timer, &mut spawns, &mut enemies, 1_250_000_000);
        round += 1;
    }
    let places: Vec<Vector> = enemies.iter().map(|e| e.body.pos).collect();
    assert_eq!(
        places,
        vec![at(10, 0), at(20, 0), at(30, 0), at(10, 0), at(20, 0), at(30, 0), at(10, 0)]
    );
}

#[test]
fn the_cycle_does_not_depend_on_the_frame_times() {
    let mut timer = spawn_timer();
    let mut spawns = three_points();
    let mut enemies: Vec<Enemy> = Vec::new();
    let frames: [u32; 12] = [
        400_000_000, 900_000_000, 16_666_667, 1_300_000_000, 5, 1_249_999_000, 2_000_000_000,
        700_000_000, 700_000_000, 100_000_000, 3_000_000_000, 1_250_000_000,
    ];
    let mut spawned: Vec<usize> = Vec::new();
    for dt in frames.iter() {
        let before: usize = enemies.len();
        enemy_spawner(&mut timer, &mut spawns, &mut enemies, *dt);
        spawned.push(enemies.len() - before);
    }
    assert_eq!(spawned, vec![0, 1, 0, 1, 0, 1, 1, 1, 0, 0, 1, 1]);
    let places: Vec<Vector> = enemies.iter().map(|e| e.body.pos).collect();
    assert_eq!(
        places,
        vec![at(10, 0), at(20, 0), at(30, 0), at(10, 0), at(20, 0), at(30, 0), at(10, 0)]
    );
}

#[test]
fn an_unfinished_timer_spawns_nothing() {
    let mut timer = spawn_timer();
    let mut spawns = three_points();
    let mut enemies: Vec<Enemy> = Vec::new();
    enemy_spawner(&mut timer, &mut spawns, &mut enemies, 1_249_999_999);
    assert!(enemies.is_empty());
    assert_eq!(spawns.next, 0);
    assert_eq!(timer.elapsed, 1_249_999_999);
    enemy_spawner(&mut timer, &mut spawns, &mut enemies, 1);
    assert_eq!(enemies.len(), 1);
    assert_eq!(spawns.next, 1);
    assert_eq!(timer.elapsed, 0);
}

#[test]
fn a_spawned_enemy_rests_with_a_fresh_gun() {
    let mut timer = spawn_timer();
    let mut spawns = three_points();
    let mut enemies: Vec<Enemy> = Vec::new();
    enemy_spawner(&mut timer, &mut spawns, &mut enemies, 1_250_000_000);
    assert_eq!(
        enemies,
        vec![Enemy {
            body: Body { pos: at(10, 0), vel: at(0, 0), size: at(28_000, 28_000) },
            gun: Countdown {
                kind: TimerKind::Repeating,
                period: 1_100_000_000,
                elapsed: 0,
                finished: false
            },
        }]
    );
    assert_eq!(enemies[0], Enemy::spawn(at(10, 0)));
}

#[test]
fn the_spawner_stops_at_the_cap() {
    let mut timer = spawn_timer();
    let mut spawns = three_points();
    let mut enemies: Vec<Enemy> = Vec::new();
    let mut round: u32 = 0;
    while round < 40 {
        enemy_spawner(&mut timer, &mut spawns, &mut enemies, 1_250_000_000);
        assert!(enemies.len() <= 24);
        round += 1;
    }
    assert_eq!(enemies.len(), 24);
    assert_eq!(spawns.next, 0);
    assert_eq!(enemies[23].body.pos, at(30, 0));
}

#[test]
fn a_timer_that_fires_at_the_cap_changes_nothing_else() {
    let mut timer = spawn_timer();
    let mut spawns = three_points();
    spawns.next = 1;
    let mut enemies: Vec<Enemy> = Vec::new();
    while enemies.len() < 24 {
        enemies.push(Enemy::spawn(at(0, 0)));
    }
    let before = enemies.clone();
    enemy_spawner(&mut timer, &mut spawns, &mut enemies, 1_300_000_000);
    assert_eq!(enemies, before);
    assert_eq!(spawns.next, 1);
    assert!(timer.finished());
    assert_eq!(timer.elapsed, 50_000_000);
    enemies.pop();
    enemy_spawner(&mut timer, &mut spawns, &mut enemies, 1_200_000_000);
    assert_eq!(enemies.len(), 24);
    assert_eq!(enemies[23].body.pos, at(20, 0));
    assert_eq!(spawns.next, 2);
}

#[test]
fn a_crowd_above_the_cap_is_left_alone() {
    let mut timer = spawn_timer();
    let mut spawns = three_points();
    let mut enemies: Vec<Enemy> = Vec::new();
    while enemies.len() < 30 {
        enemies.push(Enemy::spawn(at(0, 0)));
    }
    enemy_spawner(&mut timer, &mut spawns, &mut enemies, 1_250_000_000);
    assert_eq!(enemies.len(), 30);
    assert_eq!(spawns.next, 0);
}

#[test]
fn without_spawn_points_nothing_spawns() {
    let mut timer = spawn_timer();
    let mut spawns = SpawnPoints::new(Vec::new());
    let mut enemies: Vec<Enemy> = Vec::new();
    enemy_spawner(&mut timer, &mut spawns, &mut enemies, 1_250_000_000);
    assert!(enemies.is_empty());
    assert!(timer.finished());
    assert_eq!(spawns, SpawnPoints::new(Vec::new()));
}
