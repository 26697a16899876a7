use bevy::math::Vec2;
use tank_arena::combat::speed;
use tank_arena::entity::{Body, Bullet, Faction};
use tank_arena::geometry::Vector;
use tank_arena::math::{aim, travel};
use tank_arena::maze::cell_position;

fn at(x: i32, y: i32) -> Vector {
    Vector { x, y }
}

fn units(v: Vector) -> Vec2 {
    Vec2::new(v.x as f32 / 1000.0, v.y as f32 / 1000.0)
}

fn close(a: Vec2, b: Vec2, slack: f32) -> bool {
    (a - b).length() <= slack
}

#[test]
fn aim_agrees_with_a_normalized_float_direction() {
    let targets: [(i32, i32); 7] = [
        (100_000, 0),
        (30_000, 40_000),
        (-250_000, 13_000),
        (1, 1),
        (-1, 1),
        (7_123, -355_000),
        (-640_000, -480_000),
    ];
    let speeds: [i64; 3] = [180_000, 300_000, 600_000];
    for t in targets.iter() {
        for s in speeds.iter() {
            let ours = units(aim(at(0, 0), at(t.0, t.1), *s));
            let theirs = Vec2::new(t.0 as f32, t.1 as f32).normalize() * (*s as f32 / 1000.0);
            assert!(close(ours, theirs, 0.02));
        }
    }
}

#[test]
fn travel_agrees_with_velocity_times_seconds() {
    let speeds: [i32; 5] = [-600_000, -180_000, 0, 300_000, 600_000];
    let steps: [u32; 4] = [1_000_000, 16_666_667, 33_333_333, 250_000_000];
    for v in speeds.iter() {
        for dt in steps.iter() {
            let ours = travel(*v, *dt) as f32 / 1000.0;
            let theirs = (*v as f32 / 1000.0) * (*dt as f32 / 1.0e9);
            assert!((ours - theirs).abs() <= 0.002);
        }
    }
}

#[test]
fn speed_agrees_with_the_float_length() {
    let velocities: [(i32, i32); 5] =
        [(600_000, 0), (360_000, 480_000), (-424_268, 424_268), (1, 0), (-212_134, -212_134)];
    for v in velocities.iter() {
        let ours = speed(at(v.0, v.1)) as f32 / 1000.0;
        let theirs = Vec2::new(v.0 as f32 / 1000.0, v.1 as f32 / 1000.0).length();
        assert!((ours - theirs).abs() <= 0.002);
    }
}

#[test]
fn a_muzzle_agrees_with_the_float_formula() {
    let shooter = Body { pos: at(12_000, -7_000), vel: at(0, 0), size: at(28_000, 28_000) };
    let target = at(-88_000, 143_000);
    let bullet = Bullet::fire(&shooter, shooter.pos, target, Faction::Enemy);
    let dir = (units(target) - units(shooter.pos)).normalize();
    let place = units(shooter.pos) + dir * (28.0 * 0.6);
    assert!(close(units(bullet.body.pos), place, 0.01));
    assert!(close(units(bullet.body.vel), dir * 600.0, 0.02));
}

#[test]
fn cells_sit_where_the_float_grid_puts_them() {
    let (arena_w, arena_h, tile): (f32, f32, f32) = (800.0, 600.0, 40.0);
    let origin = Vec2::new(-arena_w * 0.5 + tile * 0.5, arena_h * 0.5 - tile * 0.5);
    let mut r: usize = 0;
    while r < 15 {
        let mut c: usize = 0;
        while c < 20 {
            let theirs = Vec2::new(origin.x + c as f32 * tile, origin.y - r as f32 * tile);
            assert_eq!(units(cell_position(r, c)), theirs);
            c += 1;
        }
        r += 1;
    }
}
