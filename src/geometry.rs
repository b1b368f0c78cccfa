//! The motion model: points, vectors and the two kinds of motion.
use vstd::prelude::*;

verus! {

/// Number of fixed-point steps in one unit (one millimetre, one degree).
pub const SCALE: i64 = 1_000_000;

/// Largest magnitude, in millionths, that a quantity of the model may have.
pub const LIMIT: i64 = 1_000_000_000_000;

/// A fixed-point quantity lies within the model's range.
pub open spec fn in_range(v: int) -> bool {
    -LIMIT <= v <= LIMIT
}

/// A position in tool space.
#[derive(Clone, Copy, Debug, PartialEq, Eq, Structural)]
pub struct Point3 {
    pub x: i64,
    pub y: i64,
    pub z: i64,
}

/// A position in the working plane of an arc.
#[derive(Clone, Copy, Debug, PartialEq, Eq, Structural)]
pub struct Point2 {
    pub x: i64,
    pub y: i64,
}

/// A direction hint attached to an arc (I/J/K style).
#[derive(Clone, Copy, Debug, PartialEq, Eq, Structural)]
pub struct Vector3 {
    pub i: i64,
    pub j: i64,
    pub k: i64,
}

impl Point3 {
    pub open spec fn wf(&self) -> bool {
        in_range(self.x as int) && in_range(self.y as int) && in_range(self.z as int)
    }

    /// The origin, where the cursor stands before the first command.
    pub fn origin() -> (r: Point3)
        ensures
            r == (Point3 { x: 0, y: 0, z: 0 }),
    {
        Point3 { x: 0, y: 0, z: 0 }
    }
}

impl Point2 {
    pub open spec fn wf(&self) -> bool {
        in_range(self.x as int) && in_range(self.y as int)
    }
}

impl Vector3 {
    pub open spec fn wf(&self) -> bool {
        in_range(self.i as int) && in_range(self.j as int) && in_range(self.k as int)
    }

    pub open spec fn is_zero(&self) -> bool {
        self.i == 0 && self.j == 0 && self.k == 0
    }
}

/// A straight traversal from `start` to `end`.
#[derive(Clone, Copy, Debug, PartialEq, Eq, Structural)]
pub struct LinearMotion {
    pub start: Point3,
    pub end: Point3,
}

/// A planar arc around `center`, sampled from angle zero up to `stop_angle`
/// (in millionths of a degree).
#[derive(Clone, Copy, Debug, PartialEq, Eq, Structural)]
pub struct CircularMotion {
    pub center: Point2,
    pub radius: i64,
    pub clockwise: bool,
    pub stop_angle: i64,
    pub orientation: Option<Vector3>,
}

impl LinearMotion {
    pub open spec fn wf(&self) -> bool {
        self.start.wf() && self.end.wf()
    }
}

impl CircularMotion {
    pub open spec fn wf(&self) -> bool {
        &&& self.center.wf()
        &&& in_range(self.radius as int)
        &&& in_range(self.stop_angle as int)
        &&& match self.orientation {
            Some(v) => v.wf(),
            None => true,
        }
    }
}

/// Why a line or a motion was rejected.
#[derive(Clone, Copy, Debug, PartialEq, Eq, Structural)]
pub enum MotionError {
    /// Too few tokens for the keyword, or an unknown keyword.
    MalformedLine,
    /// An arc whose radius is zero or negative.
    InvalidRadius,
}

/// One motion instruction.
#[derive(Clone, Copy, Debug, PartialEq, Eq, Structural)]
pub enum Motion {
    Linear(LinearMotion),
    Circular(CircularMotion),
}

impl Motion {
    pub open spec fn wf(&self) -> bool {
        match self {
            Motion::Linear(m) => m.wf(),
            Motion::Circular(m) => m.wf(),
        }
    }

    pub fn new_linear(start: Point3, end: Point3) -> (r: Motion)
        ensures
            r == Motion::Linear(LinearMotion { start, end }),
    {
        Motion::Linear(LinearMotion { start, end })
    }

    pub fn new_circular(
        center: Point2,
        radius: i64,
        clockwise: bool,
        stop_angle: i64,
        orientation: Option<Vector3>,
    ) -> (r: Motion)
        ensures
            r == Motion::Circular(
                CircularMotion { center, radius, clockwise, stop_angle, orientation },
            ),
    {
        Motion::Circular(CircularMotion { center, radius, clockwise, stop_angle, orientation })
    }
}

} // verus!
