use tank_arena::ai::{enemy_ai_seek_player, enemy_handle_fire, seek};
use tank_arena::entity::{Body, Bullet, Enemy, Faction, Player};
use tank_arena::geometry::Vector;
use tank_arena::timer::{Countdown, TimerKind};

fn at(x: i32, y: i32) -> Vector {
    Vector { x, y }
}

fn hero(x: i32, y: i32) -> Option<Player> {
    Some(Player::spawn(at(x, y)))
}

fn gun(elapsed: u64, finished: bool) -> Countdown {
    Countdown { kind: TimerKind::Repeating, period: 1_100_000_000, elapsed, finished }
}

#[test]
fn an_enemy_heads_for_the_player() {
    assert_eq!(seek(at(0, 0), at(100_000, 0)), at(180_000, 0));
    assert_eq!(seek(at(0, 0), at(30_000, 40_000)), at(108_000, 144_000));
    assert_eq!(seek(at(30_000, 40_000), at(0, 0)), at(-108_000, -144_000));
    assert_eq!(seek(at(5, 5), at(5, -99_995)), at(0, -180_000));
}

#[test]
fn an_enemy_within_one_unit_rests() {
    assert_eq!(seek(at(0, 0), at(0, 0)), at(0, 0));
    assert_eq!(seek(at(0, 0), at(1_000, 0)), at(0, 0));
    assert_eq!(seek(at(0, 0), at(600, 800)), at(0, 0));
    assert_eq!(seek(at(0, 0), at(1_001, 0)), at(180_000, 0));
    assert_eq!(seek(at(0, 0), at(601, 800)), at(108_115, 143_913));
}

#[test]
fn every_enemy_is_steered() {
    let mut enemies = vec![Enemy::spawn(at(0, 0)), Enemy::spawn(at(200_000, 0)), Enemy::spawn(at(100_000, 500))];
    enemies[1].gun = gun(77, true);
    enemy_ai_seek_player(&mut enemies, &hero(100_000, 0));
    assert_eq!(enemies[0].body.vel, at(180_000, 0));
    assert_eq!(enemies[1].body.vel, at(-180_000, 0));
    assert_eq!(enemies[2].body.vel, at(0, 0));
    assert_eq!(enemies[0].body.pos, at(0, 0));
    assert_eq!(enemies[1].body.pos, at(200_000, 0));
    assert_eq!(enemies[1].gun, gun(77, true));
    assert_eq!(enemies[2].body.size, at(28_000, 28_000));
}

#[test]
fn a_resting_enemy_starts_again_when_the_player_leaves() {
    let mut enemies = vec![Enemy::spawn(at(0, 0))];
    enemies[0].body.vel = at(180_000, 0);
    enemy_ai_seek_player(&mut enemies, &hero(500, 0));
    assert_eq!(enemies[0].body.vel, at(0, 0));
    enemy_ai_seek_player(&mut enemies, &hero(0, 50_000));
    assert_eq!(enemies[0].body.vel, at(0, 180_000));
}

#[test]
fn without_a_player_enemies_keep_their_course() {
    let mut enemies = vec![Enemy::spawn(at(0, 0))];
    enemies[0].body.vel = at(1, 2);
    let before = enemies.clone();
    enemy_ai_seek_player(&mut enemies, &None);
    assert_eq!(enemies, before);
}

#[test]
fn a_gun_fires_when_its_timer_finishes() {
    let mut enemies = vec![Enemy::spawn(at(0, 0))];
    let mut bullets: Vec<Bullet> = Vec::new();
    let player = hero(30_000, 40_000);
    enemy_handle_fire(&mut enemies, &mut bullets, &player, 1_000_000_000);
    assert!(bullets.is_empty());
    assert_eq!(enemies[0].gun, gun(1_000_000_000, false));
    enemy_handle_fire(&mut enemies, &mut bullets, &player, 100_000_000);
    assert_eq!(
        bullets,
        vec![Bullet {
            body: Body { pos: at(10_080, 13_440), vel: at(360_000, 480_000), size: at(6_000, 12_000) },
            faction: Faction::Enemy,
        }]
    );
    assert_eq!(enemies[0].gun, gun(0, false));
    assert_eq!(enemies[0].body, Enemy::spawn(at(0, 0)).body);
}

#[test]
fn a_fired_gun_starts_over_from_zero() {
    let mut enemies = vec![Enemy::spawn(at(0, 0))];
    let mut bullets: Vec<Bullet> = Vec::new();
    enemy_handle_fire(&mut enemies, &mut bullets, &hero(0, -90_000), 1_200_000_000);
    assert_eq!(bullets.len(), 1);
    assert_eq!(bullets[0].body.pos, at(0, -16_800));
    assert_eq!(bullets[0].body.vel, at(0, -600_000));
    assert_eq!(enemies[0].gun, gun(0, false));
}

#[test]
fn a_gun_on_top_of_the_player_holds_its_fire() {
    let mut enemies = vec![Enemy::spawn(at(40_000, 40_000))];
    let mut bullets: Vec<Bullet> = Vec::new();
    enemy_handle_fire(&mut enemies, &mut bullets, &hero(40_000, 40_000), 1_200_000_000);
    assert!(bullets.is_empty());
    assert_eq!(enemies[0].gun, gun(100_000_000, true));
    enemy_handle_fire(&mut enemies, &mut bullets, &hero(40_000, 40_001), 1);
    assert!(bullets.is_empty());
    assert_eq!(enemies[0].gun, gun(100_000_001, false));
}

#[test]
fn without_a_player_the_guns_stand_still() {
    let mut enemies = vec![Enemy::spawn(at(0, 0))];
    enemies[0].gun = gun(1_099_999_999, false);
    let mut bullets: Vec<Bullet> = Vec::new();
    enemy_handle_fire(&mut enemies, &mut bullets, &None, 1_000_000_000);
    assert!(bullets.is_empty());
    assert_eq!(enemies[0].gun, gun(1_099_999_999, false));
}

#[test]
fn every_gun_ticks_and_shots_come_in_the_order_of_the_enemies() {
    let old = Bullet {
        body: Body { pos: at(1, 1), vel: at(0, 0), size: at(6_000, 12_000) },
        faction: Faction::Player,
    };
    let mut enemies = vec![
        Enemy::spawn(at(-100_000, 0)),
        Enemy::spawn(at(0, 100_000)),
        Enemy::spawn(at(100_000, 0)),
    ];
    enemies[0].gun = gun(600_000_000, false);
    enemies[1].gun = gun(0, false);
    enemies[2].gun = gun(1_000_000_000, false);
    let mut bullets = vec![old];
    enemy_handle_fire(&mut enemies, &mut bullets, &hero(0, 0), 500_000_000);
    assert_eq!(bullets.len(), 3);
    assert_eq!(bullets[0], old);
    assert_eq!(bullets[1].body.pos, at(-83_200, 0));
    assert_eq!(bullets[1].body.vel, at(600_000, 0));
    assert_eq!(bullets[2].body.pos, at(83_200, 0));
    assert_eq!(bullets[2].body.vel, at(-600_000, 0));
    assert_eq!(enemies[0].gun, gun(0, false));
    assert_eq!(enemies[1].gun, gun(500_000_000, false));
    assert_eq!(enemies[2].gun, gun(0, false));
}
