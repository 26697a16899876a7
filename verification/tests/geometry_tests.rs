use tank_arena::geometry::{aabb_overlap, saturate, Axis, Vector};

fn at(x: i32, y: i32) -> Vector {
    Vector { x, y }
}

#[test]
fn touching_boxes_overlap() {
    assert!(aabb_overlap(at(0, 0), at(10, 10), at(20, 0), at(10, 10)));
    assert!(!aabb_overlap(at(0, 0), at(10, 10), at(21, 0), at(10, 10)));
    assert!(aabb_overlap(at(0, 0), at(10, 10), at(0, -20), at(10, 10)));
    assert!(!aabb_overlap(at(0, 0), at(10, 10), at(0, -21), at(10, 10)));
    assert!(aabb_overlap(at(0, 0), at(10, 10), at(20, 20), at(10, 10)));
}

#[test]
fn overlap_needs_both_axes() {
    assert!(!aabb_overlap(at(0, 0), at(10, 10), at(5, 100), at(10, 10)));
    assert!(!aabb_overlap(at(0, 0), at(10, 10), at(100, 5), at(10, 10)));
    assert!(aabb_overlap(at(0, 0), at(10, 10), at(5, 5), at(1, 1)));
}

#[test]
fn overlap_does_not_depend_on_the_order() {
    let boxes = [
        (at(0, 0), at(16_000, 16_000)),
        (at(36_000, 0), at(20_000, 20_000)),
        (at(36_001, 0), at(20_000, 20_000)),
        (at(-3, 7), at(0, 0)),
        (at(-3, 8), at(0, 1)),
    ];
    for a in boxes.iter() {
        for b in boxes.iter() {
            assert_eq!(aabb_overlap(a.0, a.1, b.0, b.1), aabb_overlap(b.0, b.1, a.0, a.1));
        }
    }
}

#[test]
fn a_box_overlaps_itself() {
    assert!(aabb_overlap(at(5, -5), at(0, 0), at(5, -5), at(0, 0)));
    assert!(aabb_overlap(at(5, -5), at(3, 4), at(5, -5), at(3, 4)));
}

#[test]
fn overlap_at_the_ends_of_the_range() {
    assert!(!aabb_overlap(at(i32::MIN, i32::MIN), at(1, 1), at(i32::MAX, i32::MAX), at(1, 1)));
    assert!(!aabb_overlap(
        at(i32::MIN, i32::MIN),
        at(i32::MAX, i32::MAX),
        at(i32::MAX, i32::MAX),
        at(i32::MAX, i32::MAX)
    ));
    assert!(aabb_overlap(
        at(i32::MIN + 1, i32::MIN + 1),
        at(i32::MAX, i32::MAX),
        at(i32::MAX, i32::MAX),
        at(i32::MAX, i32::MAX)
    ));
    assert!(!aabb_overlap(at(0, 0), at(i32::MIN, i32::MIN), at(0, 0), at(0, 0)));
}

#[test]
fn saturate_clamps_to_the_coordinate_range() {
    assert_eq!(saturate(0), 0);
    assert_eq!(saturate(-17), -17);
    assert_eq!(saturate(2_147_483_647), i32::MAX);
    assert_eq!(saturate(2_147_483_648), i32::MAX);
    assert_eq!(saturate(-2_147_483_648), i32::MIN);
    assert_eq!(saturate(-2_147_483_649), i32::MIN);
    assert_eq!(saturate(i128::MAX), i32::MAX);
    assert_eq!(saturate(i128::MIN), i32::MIN);
}

#[test]
fn half_rounds_toward_zero() {
    assert_eq!(at(32_000, 12_000).half(), at(16_000, 6_000));
    assert_eq!(at(5, -5).half(), at(2, -2));
    assert_eq!(at(1, -1).half(), at(0, 0));
    assert_eq!(at(i32::MIN, i32::MAX).half(), at(-1_073_741_824, 1_073_741_823));
}

#[test]
fn shift_moves_along_one_axis() {
    assert_eq!(at(10, 20).shift(Axis::X, 5), at(15, 20));
    assert_eq!(at(10, 20).shift(Axis::Y, -25), at(10, -5));
    assert_eq!(at(10, 20).shift(Axis::X, 0), at(10, 20));
}

#[test]
fn shift_saturates() {
    assert_eq!(at(i32::MAX - 1, 0).shift(Axis::X, 5), at(i32::MAX, 0));
    assert_eq!(at(0, i32::MIN + 1).shift(Axis::Y, -5), at(0, i32::MIN));
    assert_eq!(at(0, 0).shift(Axis::X, i64::MAX), at(i32::MAX, 0));
    assert_eq!(at(0, 0).shift(Axis::Y, i64::MIN), at(0, i32::MIN));
    assert_eq!(at(i32::MIN, 0).shift(Axis::X, 4_294_967_295), at(i32::MAX, 0));
}

#[test]
fn offset_adds_componentwise_and_saturates() {
    assert_eq!(at(1, 2).offset(at(10, -20)), at(11, -18));
    assert_eq!(at(i32::MAX, i32::MIN).offset(at(1, -1)), at(i32::MAX, i32::MIN));
    assert_eq!(at(i32::MAX, i32::MIN).offset(at(-1, 1)), at(i32::MAX - 1, i32::MIN + 1));
}

#[test]
fn origin_and_new_build_vectors() {
    assert_eq!(Vector::origin(), at(0, 0));
    assert_eq!(Vector::new(3, -4), at(3, -4));
}
