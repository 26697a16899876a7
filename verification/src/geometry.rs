use vstd::prelude::*;

verus! {

/// A point or a displacement in the plane, in sub-units.
#[derive(Clone, Copy, PartialEq, Eq, Structural, Debug)]
pub struct Vector {
    pub x: i32,
    pub y: i32,
}

/// One of the two axes a move is resolved along.
#[derive(Clone, Copy, PartialEq, Eq, Structural, Debug)]
pub enum Axis {
    X,
    Y,
}

/// The coordinate nearest to `v` that a `Vector` can hold.
pub open spec fn clamp_coord(v: int) -> int {
    if v < i32::MIN {
        i32::MIN as int
    } else if v > i32::MAX {
        i32::MAX as int
    } else {
        v
    }
}

/// The quotient of `a` by a positive `b`, rounded toward zero.
pub open spec fn trunc_div(a: int, b: int) -> int {
    if a >= 0 {
        a / b
    } else {
        -((-a) / b)
    }
}

/// The distance between two integers.
pub open spec fn distance(a: int, b: int) -> int {
    if a >= b {
        a - b
    } else {
        b - a
    }
}

/// Whether two boxes, each given by its centre and half-extent, overlap.
/// The boundary is inclusive: boxes that only touch do overlap.
pub open spec fn overlap(a_pos: Vector, a_half: Vector, b_pos: Vector, b_half: Vector) -> bool {
    &&& distance(a_pos.x as int, b_pos.x as int) <= a_half.x + b_half.x
    &&& distance(a_pos.y as int, b_pos.y as int) <= a_half.y + b_half.y
}

/// Brings a wide integer into the range of a coordinate.
pub fn saturate(v: i128) -> (r: i32)
    ensures
        r == clamp_coord(v as int),
{
    if v < i32::MIN as i128 {
        i32::MIN
    } else if v > i32::MAX as i128 {
        i32::MAX
    } else {
        v as i32
    }
}

impl Axis {
    /// The axis across this one.
    pub open spec fn other(self) -> Axis {
        match self {
            Axis::X => Axis::Y,
            Axis::Y => Axis::X,
        }
    }
}

impl Vector {
    /// The component along `axis`.
    pub open spec fn along(self, axis: Axis) -> int {
        match axis {
            Axis::X => self.x as int,
            Axis::Y => self.y as int,
        }
    }

    /// The origin, which is also the zero displacement.
    pub open spec fn zero() -> Vector {
        Vector { x: 0, y: 0 }
    }

    /// Half of each component, rounded toward zero.
    pub open spec fn halved(self) -> Vector {
        Vector { x: trunc_div(self.x as int, 2) as i32, y: trunc_div(self.y as int, 2) as i32 }
    }

    /// This point moved by `delta` along `axis`, saturating at the coordinate range.
    pub open spec fn shifted(self, axis: Axis, delta: int) -> Vector {
        match axis {
            Axis::X => Vector { x: clamp_coord(self.x + delta) as i32, y: self.y },
            Axis::Y => Vector { x: self.x, y: clamp_coord(self.y + delta) as i32 },
        }
    }

    /// This point moved by the displacement `d`, saturating at the coordinate range.
    pub open spec fn moved_by(self, d: Vector) -> Vector {
        Vector { x: clamp_coord(self.x + d.x) as i32, y: clamp_coord(self.y + d.y) as i32 }
    }

    /// Whether both components are zero.
    pub open spec fn is_zero(self) -> bool {
        self.x == 0 && self.y == 0
    }

    /// The vector with the given components.
    pub fn new(x: i32, y: i32) -> (r: Vector)
        ensures
            r == (Vector { x, y }),
    {
        Vector { x, y }
    }

    /// The zero vector.
    pub fn origin() -> (r: Vector)
        ensures
            r == Vector::zero(),
    {
        Vector { x: 0, y: 0 }
    }

    /// Halves each component, rounding toward zero.
    pub fn half(self) -> (r: Vector)
        ensures
            r == self.halved(),
    {
        Vector { x: self.x / 2, y: self.y / 2 }
    }

    /// Moves this point by `delta` along `axis`.
    pub fn shift(self, axis: Axis, delta: i64) -> (r: Vector)
        ensures
            r == self.shifted(axis, delta as int),
    {
        match axis {
            Axis::X => Vector { x: saturate(self.x as i128 + delta as i128), y: self.y },
            Axis::Y => Vector { x: self.x, y: saturate(self.y as i128 + delta as i128) },
        }
    }

    /// Moves this point by the displacement `d`.
    pub fn offset(self, d: Vector) -> (r: Vector)
        ensures
            r == self.moved_by(d),
    {
        Vector {
            x: saturate(self.x as i128 + d.x as i128),
            y: saturate(self.y as i128 + d.y as i128),
        }
    }
}

/// Tests two boxes for overlap, boundary included.
pub fn aabb_overlap(a_pos: Vector, a_half: Vector, b_pos: Vector, b_half: Vector) -> (hit: bool)
    ensures
        hit == overlap(a_pos, a_half, b_pos, b_half),
{
    let dx: i64 = a_pos.x as i64 - b_pos.x as i64;
    let dy: i64 = a_pos.y as i64 - b_pos.y as i64;
    let ax: i64 = if dx >= 0 { dx } else { -dx };
    let ay: i64 = if dy >= 0 { dy } else { -dy };
    ax <= a_half.x as i64 + b_half.x as i64 && ay <= a_half.y as i64 + b_half.y as i64
}

} // verus!
