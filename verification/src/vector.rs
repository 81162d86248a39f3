//! Three-dimensional vectors in fixed-point representation.
//!
//! One world unit is `UNIT` steps of the integer grid, so a coordinate of
//! `39.9` is stored as `39_900_000`. `Vector` is the mathematical model over
//! unbounded integers; `Vec3` is the value that executable code holds.

use vstd::prelude::*;

verus! {

/// Grid steps per world unit. It is also the length of a direction vector.
pub const UNIT: i64 = 1_000_000;

/// Largest magnitude of a coordinate that the geometry accepts.
pub const MAX_COORD: i64 = 4_000_000_000_000;

/// A vector with unbounded integer components, used in specifications.
pub struct Vector {
    pub x: int,
    pub y: int,
    pub z: int,
}

impl Vector {
    /// The zero vector.
    pub open spec fn zero() -> Vector {
        Vector { x: 0, y: 0, z: 0 }
    }

    /// Sum, component by component.
    pub open spec fn plus(self, other: Vector) -> Vector {
        Vector { x: self.x + other.x, y: self.y + other.y, z: self.z + other.z }
    }

    /// Difference, component by component.
    pub open spec fn minus(self, other: Vector) -> Vector {
        Vector { x: self.x - other.x, y: self.y - other.y, z: self.z - other.z }
    }

    /// The opposite vector.
    pub open spec fn negated(self) -> Vector {
        Vector { x: -self.x, y: -self.y, z: -self.z }
    }

    /// Dot product.
    pub open spec fn dot(self, other: Vector) -> int {
        self.x * other.x + self.y * other.y + self.z * other.z
    }

    /// Cross product.
    pub open spec fn cross(self, other: Vector) -> Vector {
        Vector {
            x: self.y * other.z - self.z * other.y,
            y: self.z * other.x - self.x * other.z,
            z: self.x * other.y - self.y * other.x,
        }
    }

    /// Squared Euclidean length.
    pub open spec fn norm_sq(self) -> int {
        self.dot(self)
    }

    /// Every component divided by `d`, rounded towards zero.
    pub open spec fn div_trunc(self, d: int) -> Vector {
        Vector {
            x: crate::arith::div_trunc(self.x, d),
            y: crate::arith::div_trunc(self.y, d),
            z: crate::arith::div_trunc(self.z, d),
        }
    }

    /// Every component has magnitude at most `bound`.
    pub open spec fn within_box(self, bound: int) -> bool {
        &&& -bound <= self.x <= bound
        &&& -bound <= self.y <= bound
        &&& -bound <= self.z <= bound
    }
}

/// The point `b` lies within Euclidean distance `radius` of `a`, boundary included.
pub open spec fn within(a: Vector, b: Vector, radius: int) -> bool {
    radius >= 0 && a.minus(b).norm_sq() <= radius * radius
}

/// A fixed-point vector or point.
#[derive(Clone, Copy, PartialEq, Eq, Structural, Debug)]
pub struct Vec3 {
    pub x: i64,
    pub y: i64,
    pub z: i64,
}

impl View for Vec3 {
    type V = Vector;

    open spec fn view(&self) -> Vector {
        Vector { x: self.x as int, y: self.y as int, z: self.z as int }
    }
}

/// Magnitude of the difference of two coordinates.
fn gap(a: i64, b: i64) -> (d: u128)
    ensures
        d == if a >= b { a - b } else { b - a },
        d <= u64::MAX,
{
    let wide_a: i128 = a as i128;
    let wide_b: i128 = b as i128;
    if wide_a >= wide_b {
        (wide_a - wide_b) as u128
    } else {
        (wide_b - wide_a) as u128
    }
}

proof fn lemma_square_of_gap(a: int, b: int, d: int)
    by (nonlinear_arith)
    requires
        d == if a >= b { a - b } else { b - a },
    ensures
        d * d == (a - b) * (a - b),
{
}

proof fn lemma_square_bound(d: int, r: int)
    by (nonlinear_arith)
    requires
        0 <= d,
        0 <= r,
    ensures
        d <= r ==> d * d <= r * r,
        d > r ==> d * d > r * r,
        d * d >= 0,
{
}

impl Vec3 {
    /// The vector with the given components.
    pub fn new(x: i64, y: i64, z: i64) -> (v: Vec3)
        ensures
            v == (Vec3 { x, y, z }),
    {
        Vec3 { x, y, z }
    }

    /// The origin.
    pub fn zero() -> (v: Vec3)
        ensures
            v@ == Vector::zero(),
    {
        Vec3 { x: 0, y: 0, z: 0 }
    }

    /// Whether `other` lies within Euclidean distance `radius` of `self`,
    /// boundary included. The squared distance is compared with the squared
    /// radius, so the answer is exact.
    pub fn within(&self, other: &Vec3, radius: i64) -> (b: bool)
        ensures
            b == within(self@, other@, radius as int),
    {
        if radius < 0 {
            return false;
        }
        let r: u128 = radius as u128;
        let dx: u128 = gap(self.x, other.x);
        let dy: u128 = gap(self.y, other.y);
        let dz: u128 = gap(self.z, other.z);
        proof {
            lemma_square_of_gap(self.x as int, other.x as int, dx as int);
            lemma_square_of_gap(self.y as int, other.y as int, dy as int);
            lemma_square_of_gap(self.z as int, other.z as int, dz as int);
            lemma_square_bound(dx as int, r as int);
            lemma_square_bound(dy as int, r as int);
            lemma_square_bound(dz as int, r as int);
        }
        if dx > r || dy > r || dz > r {
            return false;
        }
        assert(r * r <= 0x3fff_ffff_ffff_ffff_0000_0000_0000_0001) by (nonlinear_arith)
            requires
                0 <= r <= 0x7fff_ffff_ffff_ffff,
        ;
        dx * dx + dy * dy + dz * dz <= r * r
    }

    /// Whether every component has magnitude at most `bound`. No vector
    /// meets a negative bound.
    pub fn within_box(&self, bound: i64) -> (b: bool)
        ensures
            b == self@.within_box(bound as int),
    {
        if bound < 0 {
            return false;
        }
        -bound <= self.x && self.x <= bound && -bound <= self.y && self.y <= bound && -bound
            <= self.z && self.z <= bound
    }
}

proof fn lemma_triple_products(x: int, y: int, z: int, u: int, v: int, w: int)
    ensures
        (y * w - z * v) * x + (z * u - x * w) * y + (x * v - y * u) * z == 0,
{
    assert((y * w - z * v) * x == x * y * w - x * z * v) by (nonlinear_arith);
    assert((z * u - x * w) * y == y * z * u - x * y * w) by (nonlinear_arith);
    assert((x * v - y * u) * z == x * z * v - y * z * u) by (nonlinear_arith);
}

/// A cross product is exactly orthogonal to both of its factors.
pub proof fn lemma_cross_is_orthogonal(a: Vector, b: Vector)
    ensures
        a.cross(b).dot(a) == 0,
        a.cross(b).dot(b) == 0,
{
    lemma_triple_products(a.x, a.y, a.z, b.x, b.y, b.z);
    lemma_triple_products(b.x, b.y, b.z, a.x, a.y, a.z);
    let c = a.cross(b);
    assert(c.x * b.x == -((b.y * a.z - b.z * a.y) * b.x)) by (nonlinear_arith)
        requires
            c.x == a.y * b.z - a.z * b.y,
    ;
    assert(c.y * b.y == -((b.z * a.x - b.x * a.z) * b.y)) by (nonlinear_arith)
        requires
            c.y == a.z * b.x - a.x * b.z,
    ;
    assert(c.z * b.z == -((b.x * a.y - b.y * a.x) * b.z)) by (nonlinear_arith)
        requires
            c.z == a.x * b.y - a.y * b.x,
    ;
}

/// Negating one factor negates the dot product.
pub proof fn lemma_dot_with_negated(a: Vector, b: Vector)
    by (nonlinear_arith)
    ensures
        a.dot(b.negated()) == -a.dot(b),
{
}

} // verus!
