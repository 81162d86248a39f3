//! The tank: an axis-aligned box centred at the origin whose faces wrap
//! around, so that what leaves through one face re-enters at the opposite one.

use vstd::prelude::*;
use crate::vector::{Vec3, Vector, MAX_COORD};

verus! {

/// Width of the standard tank: 80 world units.
pub const TANK_WIDTH: i64 = 80_000_000;

/// Height of the standard tank: 45 world units.
pub const TANK_HEIGHT: i64 = 45_000_000;

/// Depth of the standard tank: 45 world units.
pub const TANK_DEPTH: i64 = 45_000_000;

/// A coordinate after wrapping at `half`: beyond `half` it re-enters at
/// `-half`, below `-half` it re-enters at `half`, and between the two it stays.
pub open spec fn wrap_axis(x: int, half: int) -> int {
    if x > half {
        -half
    } else if x < -half {
        half
    } else {
        x
    }
}

/// Wraps one coordinate at `half`.
pub fn wrap_coordinate(x: i64, half: i64) -> (r: i64)
    requires
        half >= 0,
    ensures
        r == wrap_axis(x as int, half as int),
        -half <= r <= half,
{
    if x > half {
        -half
    } else if x < -half {
        half
    } else {
        x
    }
}

/// The dimensions of the tank, in grid steps.
#[derive(Clone, Copy, PartialEq, Eq, Structural, Debug)]
pub struct Tank {
    pub width: i64,
    pub height: i64,
    pub depth: i64,
}

impl Tank {
    /// No dimension is negative, and no face lies beyond `MAX_COORD`.
    pub open spec fn wf(&self) -> bool {
        &&& 0 <= self.width && self.width / 2 <= MAX_COORD
        &&& 0 <= self.height && self.height / 2 <= MAX_COORD
        &&& 0 <= self.depth && self.depth / 2 <= MAX_COORD
    }

    /// Distance from the origin to each pair of faces.
    pub open spec fn half_extents(&self) -> Vector {
        Vector { x: self.width / 2, y: self.height / 2, z: self.depth / 2 }
    }

    /// The point `p` lies inside the tank or on one of its faces.
    pub open spec fn contains(&self, p: Vector) -> bool {
        &&& -(self.width / 2) <= p.x <= self.width / 2
        &&& -(self.height / 2) <= p.y <= self.height / 2
        &&& -(self.depth / 2) <= p.z <= self.depth / 2
    }

    /// The point `p` with every coordinate wrapped on its own axis.
    pub open spec fn wrapped(&self, p: Vector) -> Vector {
        Vector {
            x: wrap_axis(p.x, self.width / 2),
            y: wrap_axis(p.y, self.height / 2),
            z: wrap_axis(p.z, self.depth / 2),
        }
    }

    /// The standard tank of 80 by 45 by 45 world units.
    pub fn standard() -> (t: Tank)
        ensures
            t == (Tank { width: TANK_WIDTH, height: TANK_HEIGHT, depth: TANK_DEPTH }),
            t.wf(),
    {
        Tank { width: TANK_WIDTH, height: TANK_HEIGHT, depth: TANK_DEPTH }
    }

    /// Whether the dimensions are those of a tank.
    pub fn is_well_formed(&self) -> (b: bool)
        ensures
            b == self.wf(),
    {
        0 <= self.width && self.width / 2 <= MAX_COORD && 0 <= self.height && self.height / 2
            <= MAX_COORD && 0 <= self.depth && self.depth / 2 <= MAX_COORD
    }

    /// Exec counterpart of `half_extents`.
    pub fn half(&self) -> (h: Vec3)
        requires
            self.wf(),
        ensures
            h@ == self.half_extents(),
    {
        Vec3 { x: self.width / 2, y: self.height / 2, z: self.depth / 2 }
    }

    /// Whether `p` lies inside the tank or on one of its faces.
    pub fn holds(&self, p: &Vec3) -> (b: bool)
        requires
            self.wf(),
        ensures
            b == self.contains(p@),
    {
        let h = self.half();
        -h.x <= p.x && p.x <= h.x && -h.y <= p.y && p.y <= h.y && -h.z <= p.z && p.z <= h.z
    }

    /// Wraps `p` into the tank, each axis on its own.
    pub fn wrap(&self, p: Vec3) -> (r: Vec3)
        requires
            self.wf(),
        ensures
            r@ == self.wrapped(p@),
            self.contains(r@),
    {
        let h = self.half();
        Vec3 {
            x: wrap_coordinate(p.x, h.x),
            y: wrap_coordinate(p.y, h.y),
            z: wrap_coordinate(p.z, h.z),
        }
    }
}

/// Wrapping leaves no coordinate outside the tank, wherever the point was.
pub proof fn lemma_wrapped_is_inside(tank: Tank, p: Vector)
    requires
        tank.wf(),
    ensures
        tank.contains(tank.wrapped(p)),
{
}

/// Wrapping is exact at the faces: a coordinate beyond `half` lands on
/// `-half`, one below `-half` lands on `half`, and one between them is kept.
pub proof fn lemma_wrap_is_exact(x: int, half: int)
    requires
        half >= 0,
    ensures
        x > half ==> wrap_axis(x, half) == -half,
        x < -half ==> wrap_axis(x, half) == half,
        -half <= x <= half ==> wrap_axis(x, half) == x,
{
}

/// A point inside the tank is its own wrapping.
pub proof fn lemma_wrap_keeps_inside(tank: Tank, p: Vector)
    requires
        tank.wf(),
        tank.contains(p),
    ensures
        tank.wrapped(p) == p,
{
}

} // verus!
