use vstd::prelude::*;
use vstd::arithmetic::div_mod::{lemma_div_multiples_vanish, lemma_div_pos_is_pos, lemma_remainder};
use crate::config::NANOS_PER_SEC;
use crate::geometry::{clamp_coord, distance, saturate, trunc_div, Axis, Vector};

verus! {

/// Factor by which a direction is scaled up before its length is taken, so
/// that short directions keep their precision.
pub const PRECISION: i128 = 65_536;

/// The integer square root: the largest `r` with `r * r <= n`.
pub open spec fn sqrt_floor(n: nat) -> nat
    decreases n,
{
    if n == 0 {
        0
    } else {
        let r = sqrt_floor((n - 1) as nat);
        if (r + 1) * (r + 1) <= n {
            r + 1
        } else {
            r
        }
    }
}

/// `sqrt_floor(n)` squares to at most `n`, and its successor to more.
pub proof fn lemma_sqrt_floor_bounds(n: nat)
    ensures
        sqrt_floor(n) * sqrt_floor(n) <= n < (sqrt_floor(n) + 1) * (sqrt_floor(n) + 1),
    decreases n,
{
    let s = sqrt_floor(n);
    if n == 0 {
        assert(s * s <= n < (s + 1) * (s + 1)) by (nonlinear_arith)
            requires
                s == 0,
                n == 0,
        ;
    } else {
        lemma_sqrt_floor_bounds((n - 1) as nat);
        let r = sqrt_floor((n - 1) as nat);
        if (r + 1) * (r + 1) <= n {
            assert(s == r + 1);
            assert(s * s <= n < (s + 1) * (s + 1)) by (nonlinear_arith)
                requires
                    s == r + 1,
                    (r + 1) * (r + 1) <= n,
                    n - 1 < (r + 1) * (r + 1),
            ;
        } else {
            assert(s * s <= n < (s + 1) * (s + 1)) by (nonlinear_arith)
                requires
                    s == r,
                    r * r <= n - 1,
                    n < (r + 1) * (r + 1),
            ;
        }
    }
}

/// Only `sqrt_floor(n)` lies between those bounds.
pub proof fn lemma_sqrt_floor_unique(n: nat, r: nat)
    requires
        r * r <= n < (r + 1) * (r + 1),
    ensures
        r == sqrt_floor(n),
{
    lemma_sqrt_floor_bounds(n);
    let s = sqrt_floor(n);
    if r < s {
        assert((r + 1) * (r + 1) <= s * s) by (nonlinear_arith)
            requires
                r + 1 <= s,
        ;
    } else if s < r {
        assert((s + 1) * (s + 1) <= r * r) by (nonlinear_arith)
            requires
                s + 1 <= r,
        ;
    }
}

/// The integer square root of a square is its root.
pub proof fn lemma_sqrt_of_square(a: nat)
    ensures
        sqrt_floor(a * a) == a,
{
    assert(a * a < (a + 1) * (a + 1)) by (nonlinear_arith);
    lemma_sqrt_floor_unique(a * a, a);
}

/// Computes the integer square root by bisection.
pub fn isqrt(n: u128) -> (r: u64)
    ensures
        r == sqrt_floor(n as nat),
{
    let mut lo: u128 = 0;
    let mut hi: u128 = 0x1_0000_0000_0000_0000;
    assert(n < hi * hi) by (nonlinear_arith)
        requires
            hi == 0x1_0000_0000_0000_0000,
            n <= u128::MAX,
    ;
    while hi - lo > 1
        invariant
            lo < hi <= 0x1_0000_0000_0000_0000,
            lo * lo <= n < hi * hi,
        decreases hi - lo,
    {
        let mid: u128 = lo + (hi - lo) / 2;
        assert(mid * mid <= 0xffff_ffff_ffff_ffff * 0xffff_ffff_ffff_ffff) by (nonlinear_arith)
            requires
                0 <= mid <= 0xffff_ffff_ffff_ffff,
        ;
        if mid * mid <= n {
            lo = mid;
        } else {
            hi = mid;
        }
    }
    proof {
        assert(hi == lo + 1);
        lemma_sqrt_floor_unique(n as nat, lo as nat);
    }
    lo as u64
}

/// Distance covered in `dt_nanos` nanoseconds at `speed` sub-units per
/// second, rounded toward zero.
pub open spec fn displacement(speed: int, dt_nanos: int) -> int {
    trunc_div(speed * dt_nanos, NANOS_PER_SEC as int)
}

/// Computes the distance covered in one time step.
pub fn travel(speed: i32, dt_nanos: u32) -> (d: i64)
    ensures
        d == displacement(speed as int, dt_nanos as int),
{
    assert(-0x8000_0000 * 0xffff_ffff <= speed * dt_nanos <= 0x7fff_ffff * 0xffff_ffff)
        by (nonlinear_arith)
        requires
            -0x8000_0000 <= speed <= 0x7fff_ffff,
            0 <= dt_nanos <= 0xffff_ffff,
    ;
    let product: i64 = speed as i64 * dt_nanos as i64;
    product / NANOS_PER_SEC
}

/// Length of the direction `(dx, dy)`, scaled up by `PRECISION` and rounded down.
pub open spec fn scaled_length(dx: int, dy: int) -> nat {
    sqrt_floor(((dx * dx + dy * dy) * (PRECISION * PRECISION)) as nat)
}

/// One component of the vector of length `magnitude` along a direction whose
/// scaled length is `len`: `d * magnitude / length`, rounded toward zero.
pub open spec fn aimed_component(d: int, magnitude: int, len: int) -> int {
    clamp_coord(trunc_div(d * magnitude * PRECISION, len))
}

/// The vector of length `magnitude` that points from `from` to `to`; zero
/// where the two points coincide.
pub open spec fn aimed(from: Vector, to: Vector, magnitude: int) -> Vector {
    let dx = to.x - from.x;
    let dy = to.y - from.y;
    if dx == 0 && dy == 0 {
        Vector::zero()
    } else {
        let len = scaled_length(dx, dy) as int;
        Vector {
            x: aimed_component(dx, magnitude, len) as i32,
            y: aimed_component(dy, magnitude, len) as i32,
        }
    }
}

/// A product divided by one of its positive factors, rounded toward zero,
/// is the other factor.
pub proof fn lemma_trunc_div_multiple(m: int, d: int)
    requires
        0 < d,
    ensures
        trunc_div(m * d, d) == m,
{
    if m >= 0 {
        assert(m * d >= 0) by (nonlinear_arith)
            requires
                m >= 0,
                d > 0,
        ;
        assert(m * d == d * m) by (nonlinear_arith);
        lemma_div_multiples_vanish(m, d);
    } else {
        assert(m * d < 0) by (nonlinear_arith)
            requires
                m < 0,
                d > 0,
        ;
        assert(-(m * d) == d * (-m)) by (nonlinear_arith);
        lemma_div_multiples_vanish(-m, d);
    }
}

/// Along a direction that runs parallel to an axis, aiming is exact: the
/// vector has the full magnitude along that axis, toward the target, and
/// nothing across it.
pub proof fn lemma_aimed_straight(from: Vector, to: Vector, magnitude: int, axis: Axis)
    requires
        to.along(axis) != from.along(axis),
        to.along(axis.other()) == from.along(axis.other()),
    ensures
        aimed(from, to, magnitude).along(axis) == clamp_coord(
            if to.along(axis) > from.along(axis) {
                magnitude
            } else {
                -magnitude
            },
        ),
        aimed(from, to, magnitude).along(axis.other()) == 0,
{
    let d = to.along(axis) - from.along(axis);
    let a: nat = (if d > 0 { d } else { -d }) as nat;
    let dx = to.x - from.x;
    let dy = to.y - from.y;
    let k = PRECISION as int;
    let root = a * k;
    assert(root > 0 && (dx * dx + dy * dy) * (k * k) == root * root) by (nonlinear_arith)
        requires
            (dx == d && dy == 0) || (dx == 0 && dy == d),
            a == d || a == -d,
            a > 0,
            k == 65536,
            root == a * k,
    ;
    lemma_sqrt_of_square(root as nat);
    let len = scaled_length(dx, dy) as int;
    assert(len == root);
    let signed = if d > 0 { magnitude } else { -magnitude };
    assert(d * magnitude * k == signed * root && 0 * magnitude * k == 0 * root) by (nonlinear_arith)
        requires
            root == a * k,
            (d > 0 && a == d && signed == magnitude) || (d < 0 && a == -d && signed == -magnitude),
    ;
    lemma_trunc_div_multiple(signed, root);
    lemma_trunc_div_multiple(0, root);
}

/// Rounding toward zero takes less than one off a quotient's size and keeps
/// its sign.
pub proof fn lemma_trunc_div_bounds(a: int, d: int)
    requires
        0 < d,
    ensures
        distance(trunc_div(a, d), 0) * d <= distance(a, 0) < (distance(trunc_div(a, d), 0) + 1) * d,
        a >= 0 ==> trunc_div(a, d) >= 0,
        a <= 0 ==> trunc_div(a, d) <= 0,
{
    let size = distance(a, 0);
    let q = size / d;
    lemma_div_pos_is_pos(size, d);
    lemma_remainder(size, d);
    assert(distance(trunc_div(a, d), 0) == q);
    assert(q * d <= size < (q + 1) * d) by (nonlinear_arith)
        requires
            0 <= size - (q * d) < d,
    ;
}

/// Squares keep the order of numbers that are not negative.
proof fn lemma_square_order(a: int, b: int)
    requires
        0 <= a <= b,
    ensures
        a * a <= b * b,
        a < b ==> a * a < b * b,
{
    assert(a * a <= b * b) by (nonlinear_arith)
        requires
            0 <= a <= b,
    ;
    if a < b {
        assert(a * a < b * b) by (nonlinear_arith)
            requires
                0 <= a < b,
        ;
    }
}

/// The size of a product is the product of the sizes.
proof fn lemma_size_of_product(a: int, b: int)
    ensures
        distance(a * b, 0) == distance(a, 0) * distance(b, 0),
        (a >= 0 && b >= 0) || (a <= 0 && b <= 0) ==> a * b >= 0,
        (a >= 0 && b <= 0) || (a <= 0 && b >= 0) ==> a * b <= 0,
{
    assert(distance(a * b, 0) == distance(a, 0) * distance(b, 0) && ((a >= 0 && b >= 0) || (a <= 0
        && b <= 0) ==> a * b >= 0) && ((a >= 0 && b <= 0) || (a <= 0 && b >= 0) ==> a * b <= 0))
        by (nonlinear_arith);
}

/// The square of a product is the product of the squares.
proof fn lemma_square_of_product(a: int, b: int)
    ensures
        (a * b) * (a * b) == (a * a) * (b * b),
{
    assert((a * b) * (a * b) == (a * a) * (b * b)) by (nonlinear_arith);
}

/// A common positive factor can be dropped from an inequality.
proof fn lemma_cancel_factor(a: int, b: int, c: int)
    requires
        c > 0,
    ensures
        a * c <= b * c ==> a <= b,
        a * c < b * c ==> a < b,
{
    assert((a * c <= b * c ==> a <= b) && (a * c < b * c ==> a < b)) by (nonlinear_arith)
        requires
            c > 0,
    ;
}

/// The arithmetic of aiming: with `s` the scaled length of the direction
/// `(dx, dy)`, the components `dx * m * k / s` and `dy * m * k / s`, rounded
/// toward zero, make a vector of length `m` up to rounding, along the direction.
proof fn lemma_scaled_pair(dx: int, dy: int, m: int, k: int, s: int) -> (r: (int, int))
    requires
        k >= 1,
        s >= 0,
        dx != 0 || dy != 0,
        s * s <= (dx * dx + dy * dy) * (k * k) < (s + 1) * (s + 1),
    ensures
        s >= k,
        r.0 == trunc_div(dx * m * k, s),
        r.1 == trunc_div(dy * m * k, s),
        distance(r.0, 0) <= distance(m, 0),
        distance(r.1, 0) <= distance(m, 0),
        (r.0 * r.0 + r.1 * r.1) * (k * k) <= m * m * ((k + 1) * (k + 1)),
        m * m < (distance(r.0, 0) + 1) * (distance(r.0, 0) + 1) + (distance(r.1, 0) + 1) * (distance(
            r.1,
            0,
        ) + 1),
        distance(r.0 * dy, r.1 * dx) < distance(dx, 0) + distance(dy, 0),
        m >= 0 ==> (dx >= 0 ==> r.0 >= 0) && (dx <= 0 ==> r.0 <= 0),
        m >= 0 ==> (dy >= 0 ==> r.1 >= 0) && (dy <= 0 ==> r.1 <= 0),
{
    let n = dx * dx + dy * dy;
    let kk = k * k;
    let mm = m * m;
    let ss = s * s;
    let big = n * kk;
    let p = m * k;
    let size_m = distance(m, 0);
    let size_p = distance(p, 0);
    let size_dx = distance(dx, 0);
    let size_dy = distance(dy, 0);
    let ax = dx * m * k;
    let ay = dy * m * k;
    let x = trunc_div(ax, s);
    let y = trunc_div(ay, s);
    let ux = distance(x, 0);
    let uy = distance(y, 0);
    let size_ax = distance(ax, 0);
    let size_ay = distance(ay, 0);

    // The scaled length is at least the scale.
    assert(dx * dx >= 0 && dy * dy >= 0 && n >= 1) by (nonlinear_arith)
        requires
            dx != 0 || dy != 0,
            n == dx * dx + dy * dy,
    ;
    assert(kk >= 1 && big >= kk) by (nonlinear_arith)
        requires
            n >= 1,
            k >= 1,
            kk == k * k,
            big == n * kk,
    ;
    if s < k {
        lemma_square_order(s + 1, k);
    }
    assert(s >= k);
    assert(ss >= 1) by (nonlinear_arith)
        requires
            s >= 1,
            ss == s * s,
    ;

    // The numerators: their sizes, their signs and the sum of their squares.
    assert(ax == dx * p && ay == dy * p) by (nonlinear_arith)
        requires
            ax == dx * m * k,
            ay == dy * m * k,
            p == m * k,
    ;
    lemma_size_of_product(m, k);
    lemma_size_of_product(dx, p);
    lemma_size_of_product(dy, p);
    assert(size_p == size_m * k);
    assert(size_ax == size_dx * size_p && size_ay == size_dy * size_p);
    lemma_square_of_product(dx, p);
    lemma_square_of_product(dy, p);
    lemma_square_of_product(m, k);
    assert(ax * ax + ay * ay == big * mm) by (nonlinear_arith)
        requires
            ax * ax == (dx * dx) * (p * p),
            ay * ay == (dy * dy) * (p * p),
            p * p == mm * kk,
            big == (dx * dx + dy * dy) * kk,
    ;
    assert(size_ax * size_ax == ax * ax && size_ay * size_ay == ay * ay) by (nonlinear_arith)
        requires
            size_ax == ax || size_ax == -ax,
            size_ay == ay || size_ay == -ay,
    ;
    lemma_trunc_div_bounds(ax, s);
    lemma_trunc_div_bounds(ay, s);

    // Each component is at most the magnitude.
    lemma_square_of_product(size_dx, k);
    lemma_square_of_product(size_dy, k);
    assert(size_dx * size_dx == dx * dx && size_dy * size_dy == dy * dy) by (nonlinear_arith)
        requires
            size_dx == dx || size_dx == -dx,
            size_dy == dy || size_dy == -dy,
    ;
    assert((size_dx * k) * (size_dx * k) <= big && (size_dy * k) * (size_dy * k) <= big) by (nonlinear_arith)
        requires
            (size_dx * k) * (size_dx * k) == (dx * dx) * kk,
            (size_dy * k) * (size_dy * k) == (dy * dy) * kk,
            big == (dx * dx + dy * dy) * kk,
            dx * dx >= 0,
            dy * dy >= 0,
            kk >= 1,
    ;
    assert(size_dx * k >= 0 && size_dy * k >= 0) by (nonlinear_arith)
        requires
            size_dx >= 0,
            size_dy >= 0,
            k >= 1,
    ;
    if size_dx * k > s {
        lemma_square_order(s + 1, size_dx * k);
    }
    if size_dy * k > s {
        lemma_square_order(s + 1, size_dy * k);
    }
    assert(size_ax == (size_dx * k) * size_m && size_ay == (size_dy * k) * size_m) by (nonlinear_arith)
        requires
            size_ax == size_dx * size_p,
            size_ay == size_dy * size_p,
            size_p == size_m * k,
    ;
    assert(size_ax <= size_m * s && size_ay <= size_m * s) by (nonlinear_arith)
        requires
            size_ax == (size_dx * k) * size_m,
            size_ay == (size_dy * k) * size_m,
            0 <= size_dx * k <= s,
            0 <= size_dy * k <= s,
            size_m >= 0,
    ;
    lemma_cancel_factor(ux, size_m, s);
    lemma_cancel_factor(uy, size_m, s);
    assert(ux <= size_m && uy <= size_m);

    // The length is at most the magnitude, one part in `k` allowed.
    lemma_square_order(ux * s, size_ax);
    lemma_square_order(uy * s, size_ay);
    lemma_square_of_product(ux, s);
    lemma_square_of_product(uy, s);
    let squares = x * x + y * y;
    assert(squares == ux * ux + uy * uy && squares >= 0) by (nonlinear_arith)
        requires
            squares == x * x + y * y,
            ux == x || ux == -x,
            uy == y || uy == -y,
    ;
    assert(squares * ss <= big * mm) by (nonlinear_arith)
        requires
            (ux * ux) * ss <= ax * ax,
            (uy * uy) * ss <= ay * ay,
            ax * ax + ay * ay == big * mm,
            squares == ux * ux + uy * uy,
    ;
    let next = (s + 1) * (s + 1);
    assert(mm >= 0 && big * mm <= next * mm) by (nonlinear_arith)
        requires
            big < next,
            mm == m * m,
    ;
    assert(0 <= (s + 1) * k <= s * (k + 1)) by (nonlinear_arith)
        requires
            1 <= k <= s,
    ;
    lemma_square_order((s + 1) * k, s * (k + 1));
    lemma_square_of_product(s + 1, k);
    lemma_square_of_product(s, k + 1);
    let wide = (k + 1) * (k + 1);
    assert(next * kk <= ss * wide);
    assert(squares * kk * ss <= mm * wide * ss) by (nonlinear_arith)
        requires
            squares * ss <= next * mm,
            next * kk <= ss * wide,
            mm >= 0,
            kk >= 1,
    ;
    lemma_cancel_factor(squares * kk, mm * wide, ss);
    assert(squares * kk <= mm * wide);

    // The length falls short of the magnitude by less than one per component.
    lemma_square_order(size_ax, (ux + 1) * s);
    lemma_square_order(size_ay, (uy + 1) * s);
    lemma_square_of_product(ux + 1, s);
    lemma_square_of_product(uy + 1, s);
    let above = (ux + 1) * (ux + 1) + (uy + 1) * (uy + 1);
    assert(big * mm < above * ss) by (nonlinear_arith)
        requires
            ax * ax < ((ux + 1) * (ux + 1)) * ss,
            ay * ay < ((uy + 1) * (uy + 1)) * ss,
            ax * ax + ay * ay == big * mm,
            above == (ux + 1) * (ux + 1) + (uy + 1) * (uy + 1),
    ;
    assert(mm * ss <= big * mm) by (nonlinear_arith)
        requires
            ss <= big,
            mm >= 0,
    ;
    lemma_cancel_factor(mm, above, ss);
    assert(mm < above);

    // The vector runs along the direction.
    let ex = ax - x * s;
    let ey = ay - y * s;
    assert((ux + 1) * s == ux * s + s && (uy + 1) * s == uy * s + s && (ux == x ==> ux * s == x
        * s) && (ux == -x ==> ux * s == -(x * s)) && (uy == y ==> uy * s == y * s) && (uy == -y
        ==> uy * s == -(y * s))) by (nonlinear_arith);
    assert(-(s - 1) <= ex <= s - 1 && -(s - 1) <= ey <= s - 1);
    let cross = x * dy - y * dx;
    assert(cross * s == ey * dx - ex * dy) by (nonlinear_arith)
        requires
            cross == x * dy - y * dx,
            ex == dx * p - x * s,
            ey == dy * p - y * s,
    ;
    lemma_size_of_product(ey, dx);
    lemma_size_of_product(ex, dy);
    assert(distance(ey, 0) * size_dx <= (s - 1) * size_dx && distance(ex, 0) * size_dy <= (s - 1)
        * size_dy) by (nonlinear_arith)
        requires
            0 <= distance(ey, 0) <= s - 1,
            0 <= distance(ex, 0) <= s - 1,
            size_dx >= 0,
            size_dy >= 0,
    ;
    let bound = size_dx + size_dy;
    assert((s - 1) * size_dx + (s - 1) * size_dy == s * bound - bound) by (nonlinear_arith)
        requires
            bound == size_dx + size_dy,
    ;
    assert(-(s * bound - bound) <= cross * s <= s * bound - bound);
    assert(bound >= 1);
    assert((-bound) * s < cross * s && cross * s < bound * s) by (nonlinear_arith)
        requires
            -(s * bound - bound) <= cross * s <= s * bound - bound,
            bound >= 1,
    ;
    lemma_cancel_factor(-bound, cross, s);
    lemma_cancel_factor(cross, bound, s);
    (x, y)
}

/// An aimed vector has the length asked for, up to rounding, and runs along
/// the direction toward the target. For a direction that is not zero and a
/// magnitude `m` within the coordinate range: no component is larger than
/// `m`; the vector is not longer than `m` by more than one part in
/// `PRECISION`; it is shorter than `m` by less than one sub-unit on each
/// component; it is parallel to the direction up to that rounding; and for
/// a magnitude that is not negative it points the way the direction does.
pub proof fn lemma_aimed_length(from: Vector, to: Vector, magnitude: int)
    requires
        from != to,
        -i32::MAX <= magnitude <= i32::MAX,
    ensures
        ({
            let v = aimed(from, to, magnitude);
            let dx = to.x - from.x;
            let dy = to.y - from.y;
            &&& distance(v.x as int, 0) <= distance(magnitude, 0)
            &&& distance(v.y as int, 0) <= distance(magnitude, 0)
            &&& (v.x * v.x + v.y * v.y) * (PRECISION * PRECISION) <= magnitude * magnitude * ((
            PRECISION + 1) * (PRECISION + 1))
            &&& magnitude * magnitude < (distance(v.x as int, 0) + 1) * (distance(v.x as int, 0) + 1)
                + (distance(v.y as int, 0) + 1) * (distance(v.y as int, 0) + 1)
            &&& distance(v.x * dy, v.y * dx) < distance(dx, 0) + distance(dy, 0)
            &&& magnitude >= 0 ==> (dx >= 0 ==> v.x >= 0) && (dx <= 0 ==> v.x <= 0)
            &&& magnitude >= 0 ==> (dy >= 0 ==> v.y >= 0) && (dy <= 0 ==> v.y <= 0)
        }),
{
    let dx = to.x - from.x;
    let dy = to.y - from.y;
    let k = PRECISION as int;
    let big = (dx * dx + dy * dy) * (k * k);
    assert(big >= 0) by (nonlinear_arith)
        requires
            big == (dx * dx + dy * dy) * (k * k),
    ;
    lemma_sqrt_floor_bounds(big as nat);
    let s = scaled_length(dx, dy) as int;
    let (x, y) = lemma_scaled_pair(dx, dy, magnitude, k, s);
}

/// The squared length of the direction from `from` to `to`.
pub open spec fn distance_squared(from: Vector, to: Vector) -> int {
    (to.x - from.x) * (to.x - from.x) + (to.y - from.y) * (to.y - from.y)
}

/// Computes the squared distance between two points.
pub fn dist_squared(from: Vector, to: Vector) -> (d: u128)
    ensures
        d == distance_squared(from, to),
        d < 0x2_0000_0000_0000_0000,
{
    let dx: i128 = to.x as i128 - from.x as i128;
    let dy: i128 = to.y as i128 - from.y as i128;
    assert(0 <= dx * dx <= 0xffff_ffff * 0xffff_ffff) by (nonlinear_arith)
        requires
            -0xffff_ffff <= dx <= 0xffff_ffff,
    ;
    assert(0 <= dy * dy <= 0xffff_ffff * 0xffff_ffff) by (nonlinear_arith)
        requires
            -0xffff_ffff <= dy <= 0xffff_ffff,
    ;
    (dx * dx + dy * dy) as u128
}

/// Scales the direction from `from` to `to` to the given length.
pub fn aim(from: Vector, to: Vector, magnitude: i64) -> (v: Vector)
    ensures
        v == aimed(from, to, magnitude as int),
{
    let dx: i128 = to.x as i128 - from.x as i128;
    let dy: i128 = to.y as i128 - from.y as i128;
    if dx == 0 && dy == 0 {
        return Vector { x: 0, y: 0 };
    }
    let squared: u128 = dist_squared(from, to);
    assert(squared >= 1) by (nonlinear_arith)
        requires
            squared == dx * dx + dy * dy,
            dx != 0 || dy != 0,
    ;
    let scaled: u128 = squared * 0x1_0000_0000;
    assert(scaled == (dx * dx + dy * dy) * (PRECISION * PRECISION));
    let len: i128 = isqrt(scaled) as i128;
    proof {
        lemma_sqrt_floor_bounds(scaled as nat);
        if len == 0 {
            assert((len + 1) * (len + 1) == 1);
        }
    }
    assert(len > 0);
    assert(-0xffff_ffff * 0x8000_0000_0000_0000 <= dx * magnitude <= 0xffff_ffff
        * 0x8000_0000_0000_0000) by (nonlinear_arith)
        requires
            -0xffff_ffff <= dx <= 0xffff_ffff,
            -0x8000_0000_0000_0000 <= magnitude <= 0x7fff_ffff_ffff_ffff,
    ;
    assert(-0xffff_ffff * 0x8000_0000_0000_0000 <= dy * magnitude <= 0xffff_ffff
        * 0x8000_0000_0000_0000) by (nonlinear_arith)
        requires
            -0xffff_ffff <= dy <= 0xffff_ffff,
            -0x8000_0000_0000_0000 <= magnitude <= 0x7fff_ffff_ffff_ffff,
    ;
    let nx: i128 = dx * magnitude as i128 * PRECISION;
    let ny: i128 = dy * magnitude as i128 * PRECISION;
    Vector { x: saturate(nx / len), y: saturate(ny / len) }
}

} // verus!
