use tank_arena::entity::{Body, Bullet, Enemy, Faction, Player};
use tank_arena::geometry::{Axis, Vector};
use tank_arena::maze::Wall;
use tank_arena::movement::{move_with_collisions, overlaps_any, resolve_axis, sweep_axis};
use tank_arena::timer::{Countdown, TimerKind};

fn at(x: i32, y: i32) -> Vector {
    Vector { x, y }
}

fn tile(x: i32, y: i32) -> Wall {
    Wall { pos: at(x, y), size: at(40_000, 40_000) }
}

fn mover(pos: Vector, vel: Vector) -> Body {
    Body { pos, vel, size: at(20_000, 20_000) }
}

const HALF: Vector = Vector { x: 10_000, y: 10_000 };

#[test]
fn overlaps_any_finds_a_wall() {
    let walls = vec![tile(-200_000, 0), tile(50_000, 0)];
    assert!(overlaps_any(at(20_000, 0), HALF, &walls));
    assert!(overlaps_any(at(80_000, 30_000), HALF, &walls));
    assert!(overlaps_any(at(-200_000, 0), HALF, &walls));
    assert!(!overlaps_any(at(19_999, 0), HALF, &walls));
    assert!(!overlaps_any(at(50_000, 30_001), HALF, &walls));
    assert!(!overlaps_any(at(50_000, 0), HALF, &Vec::new()));
}

#[test]
fn a_free_move_reaches_its_target() {
    let walls = vec![tile(50_000, 0)];
    let mut body = mover(at(0, 0), at(300_000, 0));
    body.advance(&walls, 50_000_000);
    assert_eq!(body, mover(at(15_000, 0), at(300_000, 0)));
    let mut body = mover(at(0, 0), at(-300_000, 120_000));
    body.advance(&walls, 100_000_000);
    assert_eq!(body.pos, at(-30_000, 12_000));
}

#[test]
fn a_blocked_move_stops_short_of_the_wall() {
    let walls = vec![tile(50_000, 0)];
    let mut body = mover(at(0, 0), at(300_000, 0));
    body.advance(&walls, 100_000_000);
    assert_eq!(body.pos, at(15_000, 0));
    assert_eq!(body.vel, at(300_000, 0));
    assert_eq!(body.size, at(20_000, 20_000));
    assert!(!overlaps_any(body.pos, HALF, &walls));
}

#[test]
fn a_mover_slides_along_a_wall() {
    let walls = vec![tile(50_000, 0)];
    let mut body = mover(at(0, 0), at(300_000, 300_000));
    body.advance(&walls, 100_000_000);
    assert_eq!(body.pos, at(15_000, 30_000));
}

#[test]
fn each_axis_is_blocked_by_itself() {
    let walls = vec![tile(50_000, 0), tile(0, 50_000)];
    let mut body = mover(at(0, 0), at(300_000, 300_000));
    body.advance(&walls, 100_000_000);
    assert_eq!(body.pos, at(15_000, 15_000));
}

#[test]
fn sweep_counts_the_free_sub_steps() {
    let walls = vec![tile(50_000, 0)];
    assert_eq!(sweep_axis(at(0, 0), HALF, 30_000, Axis::X, &walls), 15_000);
    assert_eq!(sweep_axis(at(0, 0), HALF, 120_000, Axis::X, &walls), 0);
    assert_eq!(sweep_axis(at(0, 0), HALF, 60_000, Axis::X, &walls), 10_000);
    assert_eq!(sweep_axis(at(0, 0), HALF, -30_000, Axis::X, &walls), -30_000);
    assert_eq!(sweep_axis(at(50_000, -60_000), HALF, 60_000, Axis::Y, &walls), 20_000);
}

#[test]
fn sweep_works_toward_negative_coordinates() {
    let walls = vec![tile(-50_000, 0)];
    assert_eq!(sweep_axis(at(0, 0), HALF, -30_000, Axis::X, &walls), -15_000);
    assert_eq!(sweep_axis(at(-50_000, 60_000), HALF, -60_000, Axis::Y, &walls), -20_000);
}

#[test]
fn sweep_of_nothing_is_nothing() {
    let walls = vec![tile(50_000, 0)];
    assert_eq!(sweep_axis(at(0, 0), HALF, 0, Axis::X, &walls), 0);
    assert_eq!(sweep_axis(at(50_000, 0), HALF, 0, Axis::X, &walls), 0);
}

#[test]
fn sub_steps_are_a_sixth_rounded_toward_zero() {
    let walls: Vec<Wall> = Vec::new();
    assert_eq!(sweep_axis(at(0, 0), HALF, 7, Axis::X, &walls), 6);
    assert_eq!(sweep_axis(at(0, 0), HALF, -7, Axis::X, &walls), -6);
    assert_eq!(sweep_axis(at(0, 0), HALF, 5, Axis::X, &walls), 0);
    assert_eq!(sweep_axis(at(0, 0), HALF, 6_000, Axis::Y, &walls), 6_000);
    assert_eq!(sweep_axis(at(0, 0), HALF, i64::MAX, Axis::Y, &walls), 9_223_372_036_854_775_806);
    assert_eq!(sweep_axis(at(0, 0), HALF, i64::MIN, Axis::Y, &walls), -9_223_372_036_854_775_806);
}

#[test]
fn touching_counts_as_blocked() {
    let walls = vec![tile(50_000, 0)];
    assert_eq!(resolve_axis(at(0, 0), HALF, 19_999, Axis::X, &walls), at(19_999, 0));
    assert_eq!(resolve_axis(at(0, 0), HALF, 20_000, Axis::X, &walls), at(19_998, 0));
    assert_eq!(resolve_axis(at(0, 0), HALF, 20_004, Axis::X, &walls), at(16_670, 0));
}

#[test]
fn a_mover_inside_a_wall_can_leave_but_not_go_deeper() {
    let walls = vec![tile(50_000, 0)];
    let mut body = mover(at(20_000, 0), at(300_000, 0));
    body.advance(&walls, 100_000_000);
    assert_eq!(body.pos, at(20_000, 0));
    let mut body = mover(at(20_000, 0), at(-300_000, 0));
    body.advance(&walls, 100_000_000);
    assert_eq!(body.pos, at(-10_000, 0));
}

#[test]
fn no_move_ends_in_a_wall() {
    let walls = vec![tile(50_000, 0), tile(50_000, 40_000), tile(-50_000, -40_000), tile(0, 90_000)];
    let speeds: [i32; 7] = [-600_000, -300_000, -180_000, 0, 180_000, 300_000, 600_000];
    let steps: [u32; 5] = [1_000_000, 16_666_667, 33_333_333, 100_000_000, 250_000_000];
    for vx in speeds.iter() {
        for vy in speeds.iter() {
            for dt in steps.iter() {
                let mut body = mover(at(0, 0), at(*vx, *vy));
                let mut frame: u32 = 0;
                while frame < 40 {
                    body.advance(&walls, *dt);
                    assert!(!overlaps_any(body.pos, HALF, &walls));
                    frame += 1;
                }
            }
        }
    }
}

#[test]
fn a_fast_mover_does_not_pass_through_a_wall_it_reaches() {
    let walls = vec![tile(50_000, 0)];
    let mut body = mover(at(0, 0), at(600_000, 0));
    body.advance(&walls, 100_000_000);
    assert_eq!(body.pos, at(10_000, 0));
    body.advance(&walls, 100_000_000);
    assert_eq!(body.pos, at(10_000, 0));
}

#[test]
fn a_move_saturates_at_the_end_of_the_range() {
    let walls: Vec<Wall> = Vec::new();
    let mut body = mover(at(i32::MAX - 10, 0), at(i32::MAX, i32::MIN));
    body.advance(&walls, u32::MAX);
    assert_eq!(body.pos, at(i32::MAX, i32::MIN));
}

#[test]
fn every_mover_moves_and_keeps_the_rest() {
    let walls = vec![tile(50_000, 0)];
    let gun = Countdown { kind: TimerKind::Repeating, period: 1_100_000_000, elapsed: 5, finished: false };
    let mut player = Some(Player { body: mover(at(0, 0), at(300_000, 0)), facing: at(1, 0) });
    let mut enemies = vec![
        Enemy { body: mover(at(0, 100_000), at(0, -180_000)), gun },
        Enemy { body: mover(at(-100_000, 0), at(-180_000, 0)), gun },
    ];
    let mut bullets = vec![Bullet {
        body: Body { pos: at(0, -100_000), vel: at(600_000, 0), size: at(6_000, 12_000) },
        faction: Faction::Enemy,
    }];
    move_with_collisions(&mut player, &mut enemies, &mut bullets, &walls, 100_000_000);
    assert_eq!(player, Some(Player { body: mover(at(15_000, 0), at(300_000, 0)), facing: at(1, 0) }));
    assert_eq!(
        enemies,
        vec![
            Enemy { body: mover(at(0, 82_000), at(0, -180_000)), gun },
            Enemy { body: mover(at(-118_000, 0), at(-180_000, 0)), gun },
        ]
    );
    assert_eq!(
        bullets,
        vec![Bullet {
            body: Body { pos: at(60_000, -100_000), vel: at(600_000, 0), size: at(6_000, 12_000) },
            faction: Faction::Enemy,
        }]
    );
}

#[test]
fn moving_without_a_player_moves_the_others() {
    let walls: Vec<Wall> = Vec::new();
    let mut player: Option<Player> = None;
    let mut enemies: Vec<Enemy> = Vec::new();
    let mut bullets = vec![Bullet {
        body: Body { pos: at(0, 0), vel: at(0, -600_000), size: at(6_000, 12_000) },
        faction: Faction::Player,
    }];
    move_with_collisions(&mut player, &mut enemies, &mut bullets, &walls, 16_666_667);
    assert_eq!(player, None);
    assert!(enemies.is_empty());
    assert_eq!(bullets[0].body.pos, at(0, -10_000));
}

#[test]
fn a_short_move_stays_on_its_side_of_a_wall() {
    let walls = vec![tile(0, 0)];
    let deltas: [i64; 6] = [1, 5_000, 6_000, 30_000, 59_999, 60_000];
    for delta in deltas.iter() {
        let end = resolve_axis(at(-36_000, 0), HALF, *delta, Axis::X, &walls);
        assert!(end.x < -30_000);
        assert_eq!(end.y, 0);
        let end = resolve_axis(at(0, 30_001), HALF, -*delta, Axis::Y, &walls);
        assert!(end.y > 30_000);
        assert_eq!(end.x, 0);
    }
}

#[test]
fn a_long_move_can_end_beyond_a_wall() {
    let walls = vec![tile(0, 0)];
    let mut body = mover(at(-36_000, 0), at(80_000, 0));
    body.advance(&walls, 1_000_000_000);
    assert_eq!(body.pos, at(44_000, 0));
    assert!(!overlaps_any(body.pos, HALF, &walls));
}
