//! Unit directions in fixed point.
//!
//! A direction is a vector whose length is `UNIT` up to rounding: its squared
//! length differs from `UNIT * UNIT` by at most `UNIT_SLACK`. Normalisation
//! scales a vector to that length with integer arithmetic only.

use vstd::prelude::*;
use crate::arith::{
    abs, div_toward_zero, div_trunc, int_sqrt, is_int_sqrt, isqrt, lemma_div_trunc_bounds,
    lemma_div_trunc_magnitude, lemma_int_sqrt_exists,
};
use crate::vector::{Vec3, Vector, MAX_COORD, UNIT};

verus! {

/// `UNIT * UNIT`.
pub const UNIT_SQ: i128 = 1_000_000_000_000;

/// How far the squared length of a direction may be from `UNIT_SQ`.
pub const UNIT_SLACK: i64 = 8_000_000;

/// Largest magnitude of a component of a direction.
pub const DIR_BOUND: i64 = 1_000_004;

/// `v` has length `UNIT` up to rounding.
pub open spec fn is_unit(v: Vector) -> bool {
    UNIT_SQ - UNIT_SLACK <= v.norm_sq() <= UNIT_SQ + UNIT_SLACK
}

/// The length of `v` in units of `1 / UNIT` grid steps, rounded down.
pub open spec fn scaled_length(v: Vector) -> int {
    int_sqrt(v.norm_sq() * UNIT_SQ)
}

/// `v` scaled to length `UNIT`, every component rounded towards zero.
pub open spec fn normalized(v: Vector) -> Vector {
    let m = scaled_length(v);
    Vector {
        x: div_trunc(v.x * UNIT_SQ, m),
        y: div_trunc(v.y * UNIT_SQ, m),
        z: div_trunc(v.z * UNIT_SQ, m),
    }
}

/// Whether `v` can be normalised: it is not the zero vector and no component
/// exceeds `MAX_COORD` in magnitude.
pub open spec fn normalizable(v: Vector) -> bool {
    v != Vector::zero() && v.within_box(MAX_COORD as int)
}

/// Some vector orthogonal to `v`; not the zero vector unless `v` is.
pub open spec fn any_orthogonal(v: Vector) -> Vector {
    if abs(v.x) > abs(v.y) {
        Vector { x: -v.z, y: 0, z: v.x }
    } else {
        Vector { x: 0, y: v.z, z: -v.y }
    }
}

/// For a direction `v`, a vector that is orthogonal to it and of length
/// `UNIT`, both up to rounding: its dot product with `v` is within
/// `ORTHONORMAL_DOT_SLACK` of zero and its squared length within
/// `ORTHONORMAL_SLACK` of `UNIT_SQ`, as `lemma_any_orthonormal` shows.
pub open spec fn any_orthonormal(v: Vector) -> Vector {
    let w = UNIT + abs(v.z);
    if v.z >= 0 {
        Vector { x: -div_trunc(v.x * v.y, w), y: UNIT - (v.y * v.y) / w, z: -v.y }
    } else {
        Vector { x: div_trunc(v.x * v.y, w), y: (v.y * v.y) / w - UNIT, z: -v.y }
    }
}

proof fn lemma_square_le(p: int, t: int)
    by (nonlinear_arith)
    requires
        0 <= p <= t,
    ensures
        p * p <= t * t,
{
}

proof fn lemma_square_lt(p: int, t: int)
    by (nonlinear_arith)
    requires
        0 <= p < t,
    ensures
        p * p < t * t,
{
}

proof fn lemma_square_of_product(a: int, b: int)
    by (nonlinear_arith)
    ensures
        (a * b) * (a * b) == (a * a) * (b * b),
{
}

proof fn lemma_floor_quotient(t: int, m: int, q: int)
    by (nonlinear_arith)
    requires
        t >= 0,
        m > 0,
        q == t / m,
    ensures
        q >= 0,
        q * m <= t,
        t < (q + 1) * m,
{
}

proof fn lemma_cancel_positive_factor(a: int, b: int, f: int)
    by (nonlinear_arith)
    requires
        f > 0,
        a * f < b * f,
    ensures
        a < b,
{
}

proof fn lemma_scale_le(a: int, b: int, f: int)
    by (nonlinear_arith)
    requires
        f >= 0,
        a <= b,
    ensures
        a * f <= b * f,
{
}

/// The heart of normalisation. For magnitudes `a`, `b`, `c`, not all zero, and
/// `m` the integer square root of `(a² + b² + c²) · u²`, the quotients
/// `a·u²/m`, `b·u²/m`, `c·u²/m` form a vector of length `u` up to rounding.
pub proof fn lemma_quotients_are_unit(
    a: int,
    b: int,
    c: int,
    u: int,
    m: int,
    qa: int,
    qb: int,
    qc: int,
)
    requires
        a >= 0,
        b >= 0,
        c >= 0,
        a + b + c > 0,
        u >= 1,
        is_int_sqrt((a * a + b * b + c * c) * (u * u), m),
        qa == (a * (u * u)) / m,
        qb == (b * (u * u)) / m,
        qc == (c * (u * u)) / m,
    ensures
        m >= u,
        0 <= qa <= u,
        0 <= qb <= u,
        0 <= qc <= u,
        qa * qa + qb * qb + qc * qc < (u + 1) * (u + 1),
        qa * qa + qb * qb + qc * qc > u * u - 6 * u - 3,
{
    let k = u * u;
    let s = a * a + b * b + c * c;
    let n = s * k;
    let sum_q = qa * qa + qb * qb + qc * qc;
    let sum_q1 = (qa + 1) * (qa + 1) + (qb + 1) * (qb + 1) + (qc + 1) * (qc + 1);
    assert(k >= 1 && s >= 1 && n >= k) by (nonlinear_arith)
        requires
            k == u * u,
            s == a * a + b * b + c * c,
            n == s * k,
            u >= 1,
            a >= 0,
            b >= 0,
            c >= 0,
            a + b + c > 0,
    ;
    // The root is at least `u`.
    if m < u {
        lemma_square_le(m + 1, u);
        assert(false);
    }
    assert(a * k >= 0 && b * k >= 0 && c * k >= 0) by (nonlinear_arith)
        requires
            a >= 0,
            b >= 0,
            c >= 0,
            k >= 1,
    ;
    lemma_floor_quotient(a * k, m, qa);
    lemma_floor_quotient(b * k, m, qb);
    lemma_floor_quotient(c * k, m, qc);

    // Upper bound: sum_q * m² <= s * k² = n * k < (m + 1)² * k.
    lemma_square_le(qa * m, a * k);
    lemma_square_le(qb * m, b * k);
    lemma_square_le(qc * m, c * k);
    lemma_square_of_product(qa, m);
    lemma_square_of_product(qb, m);
    lemma_square_of_product(qc, m);
    lemma_square_of_product(a, k);
    lemma_square_of_product(b, k);
    lemma_square_of_product(c, k);
    let mm = m * m;
    let kk = k * k;
    assert(sum_q * mm <= s * kk) by (nonlinear_arith)
        requires
            sum_q == qa * qa + qb * qb + qc * qc,
            s == a * a + b * b + c * c,
            (qa * qa) * mm <= (a * a) * kk,
            (qb * qb) * mm <= (b * b) * kk,
            (qc * qc) * mm <= (c * c) * kk,
    ;
    assert(s * kk == n * k) by (nonlinear_arith)
        requires
            n == s * k,
            kk == k * k,
    ;
    let m1u = (m + 1) * u;
    assert(n * k < m1u * m1u) by (nonlinear_arith)
        requires
            n < (m + 1) * (m + 1),
            k == u * u,
            k >= 1,
            m1u == (m + 1) * u,
    ;
    // (u + 1) * m >= (m + 1) * u because m >= u.
    let u1m = (u + 1) * m;
    assert(0 <= m1u <= u1m) by (nonlinear_arith)
        requires
            m1u == (m + 1) * u,
            u1m == (u + 1) * m,
            m >= u,
            u >= 1,
    ;
    lemma_square_le(m1u, u1m);
    lemma_square_of_product(u + 1, m);
    assert(sum_q < (u + 1) * (u + 1)) by {
        if sum_q >= (u + 1) * (u + 1) {
            lemma_scale_le((u + 1) * (u + 1), sum_q, mm);
            assert(false);
        }
    }
    // Each quotient is at most `u`.
    assert(qa <= u && qb <= u && qc <= u) by (nonlinear_arith)
        requires
            qa >= 0,
            qb >= 0,
            qc >= 0,
            u >= 1,
            qa * qa + qb * qb + qc * qc < (u + 1) * (u + 1),
    ;

    // Lower bound: sum_q1 * m² > s * k² = n * k >= m² * k.
    lemma_square_lt(a * k, (qa + 1) * m);
    lemma_square_lt(b * k, (qb + 1) * m);
    lemma_square_lt(c * k, (qc + 1) * m);
    lemma_square_of_product(qa + 1, m);
    lemma_square_of_product(qb + 1, m);
    lemma_square_of_product(qc + 1, m);
    assert(sum_q1 * mm > s * kk) by (nonlinear_arith)
        requires
            sum_q1 == (qa + 1) * (qa + 1) + (qb + 1) * (qb + 1) + (qc + 1) * (qc + 1),
            s == a * a + b * b + c * c,
            ((qa + 1) * (qa + 1)) * mm > (a * a) * kk,
            ((qb + 1) * (qb + 1)) * mm > (b * b) * kk,
            ((qc + 1) * (qc + 1)) * mm > (c * c) * kk,
    ;
    assert(n * k >= k * mm) by (nonlinear_arith)
        requires
            n >= mm,
            k >= 1,
    ;
    assert(mm > 0) by (nonlinear_arith)
        requires
            m >= 1,
            mm == m * m,
    ;
    lemma_cancel_positive_factor(k, sum_q1, mm);
    assert(sum_q1 == sum_q + 2 * (qa + qb + qc) + 3) by (nonlinear_arith)
        requires
            sum_q1 == (qa + 1) * (qa + 1) + (qb + 1) * (qb + 1) + (qc + 1) * (qc + 1),
            sum_q == qa * qa + qb * qb + qc * qc,
    ;
}

/// A component of a normalised vector has the sign of the component it comes
/// from, and for its magnitude the quotient of that component's magnitude.
proof fn lemma_component_magnitude(x: int, m: int)
    requires
        m > 0,
    ensures
        abs(div_trunc(x * UNIT_SQ, m)) == (abs(x) * UNIT_SQ) / m,
        x >= 0 ==> div_trunc(x * UNIT_SQ, m) >= 0,
        x <= 0 ==> div_trunc(x * UNIT_SQ, m) <= 0,
{
    lemma_floor_quotient(abs(x) * UNIT_SQ, m, (abs(x) * UNIT_SQ) / m);
}

/// The direction of any vector but the zero vector has length `UNIT` up to
/// rounding, and no component beyond `UNIT`.
pub proof fn lemma_normalized_is_unit(v: Vector)
    requires
        v != Vector::zero(),
    ensures
        is_unit(normalized(v)),
        normalized(v).within_box(UNIT as int),
        scaled_length(v) >= UNIT,
{
    let a = abs(v.x);
    let b = abs(v.y);
    let c = abs(v.z);
    let u = UNIT as int;
    assert(u * u == UNIT_SQ);
    assert(a * a == v.x * v.x && b * b == v.y * v.y && c * c == v.z * v.z) by (nonlinear_arith)
        requires
            a == abs(v.x),
            b == abs(v.y),
            c == abs(v.z),
    ;
    let n = v.norm_sq() * UNIT_SQ;
    assert(n >= 0) by (nonlinear_arith)
        requires
            n == (a * a + b * b + c * c) * UNIT_SQ,
    ;
    lemma_int_sqrt_exists(n);
    let m = scaled_length(v);
    let qa = (a * (u * u)) / m;
    let qb = (b * (u * u)) / m;
    let qc = (c * (u * u)) / m;
    lemma_quotients_are_unit(a, b, c, u, m, qa, qb, qc);
    let r = normalized(v);
    assert(abs(r.x) == qa && abs(r.y) == qb && abs(r.z) == qc) by {
        lemma_component_magnitude(v.x, m);
        lemma_component_magnitude(v.y, m);
        lemma_component_magnitude(v.z, m);
    }
    assert(r.x * r.x == qa * qa && r.y * r.y == qb * qb && r.z * r.z == qc * qc)
        by (nonlinear_arith)
        requires
            abs(r.x) == qa,
            abs(r.y) == qb,
            abs(r.z) == qc,
    ;
    assert((u + 1) * (u + 1) == UNIT_SQ + 2 * UNIT + 1);
}

/// A unit vector has no component beyond `DIR_BOUND`.
pub proof fn lemma_unit_components_bounded(v: Vector)
    requires
        is_unit(v),
    ensures
        v.within_box(DIR_BOUND as int),
        v != Vector::zero(),
{
    assert(v.x * v.x >= 0 && v.y * v.y >= 0 && v.z * v.z >= 0) by (nonlinear_arith);
    assert(abs(v.x) <= DIR_BOUND) by (nonlinear_arith)
        requires
            v.x * v.x <= UNIT_SQ + UNIT_SLACK,
    ;
    assert(abs(v.y) <= DIR_BOUND) by (nonlinear_arith)
        requires
            v.y * v.y <= UNIT_SQ + UNIT_SLACK,
    ;
    assert(abs(v.z) <= DIR_BOUND) by (nonlinear_arith)
        requires
            v.z * v.z <= UNIT_SQ + UNIT_SLACK,
    ;
}

/// Why a vector has no direction.
#[derive(Clone, Copy, PartialEq, Eq, Structural, Debug)]
pub enum InvalidDirectionError {
    /// The vector is the zero vector.
    Zero,
    /// A component exceeds `MAX_COORD` in magnitude.
    TooLong,
}

/// A direction: a vector of length `UNIT` up to rounding.
#[derive(Clone, Copy, PartialEq, Eq, Structural, Debug)]
pub struct Dir3 {
    v: Vec3,
}

impl View for Dir3 {
    type V = Vector;

    closed spec fn view(&self) -> Vector {
        self.v@
    }
}

/// Magnitude of a coordinate.
fn magnitude(x: i64) -> (m: u128)
    ensures
        m == abs(x as int),
        m <= 0x8000_0000_0000_0000,
{
    let wide: i128 = x as i128;
    if wide < 0 {
        (-wide) as u128
    } else {
        wide as u128
    }
}

/// Gives `q` the sign of `like`.
fn with_sign_of(q: u128, like: i64) -> (r: i64)
    requires
        q <= i64::MAX,
    ensures
        r == if like < 0 { -(q as int) } else { q as int },
{
    let signed: i64 = q as i64;
    if like < 0 {
        -signed
    } else {
        signed
    }
}

impl Dir3 {
    /// The invariant of a direction: its length is `UNIT` up to rounding.
    pub open spec fn wf(&self) -> bool {
        is_unit(self@)
    }

    /// Normalises `value` into a direction. Fails exactly when `value` is the
    /// zero vector or has a component beyond `MAX_COORD`.
    pub fn new(value: Vec3) -> (r: Result<Dir3, InvalidDirectionError>)
        ensures
            (match r {
                Ok(d) => normalizable(value@) && d@ == normalized(value@) && d.wf(),
                Err(InvalidDirectionError::Zero) => value@ == Vector::zero(),
                Err(InvalidDirectionError::TooLong) => value@ != Vector::zero()
                    && !value@.within_box(MAX_COORD as int),
            }),
    {
        if value.x == 0 && value.y == 0 && value.z == 0 {
            return Err(InvalidDirectionError::Zero);
        }
        if !value.within_box(MAX_COORD) {
            return Err(InvalidDirectionError::TooLong);
        }
        let ax: u128 = magnitude(value.x);
        let ay: u128 = magnitude(value.y);
        let az: u128 = magnitude(value.z);
        assert(ax * ax <= MAX_COORD * MAX_COORD && ay * ay <= MAX_COORD * MAX_COORD && az * az
            <= MAX_COORD * MAX_COORD) by (nonlinear_arith)
            requires
                0 <= ax <= MAX_COORD,
                0 <= ay <= MAX_COORD,
                0 <= az <= MAX_COORD,
        ;
        assert(ax * ax == value.x * value.x && ay * ay == value.y * value.y && az * az == value.z
            * value.z) by (nonlinear_arith)
            requires
                ax == abs(value.x as int),
                ay == abs(value.y as int),
                az == abs(value.z as int),
        ;
        let s: u128 = ax * ax + ay * ay + az * az;
        let unit_sq: u128 = UNIT_SQ as u128;
        let n: u128 = s * unit_sq;
        let m: u128 = isqrt(n);
        proof {
            assert(n == value@.norm_sq() * UNIT_SQ);
            assert(m == scaled_length(value@));
            lemma_normalized_is_unit(value@);
        }
        let qx: u128 = ax * unit_sq / m;
        let qy: u128 = ay * unit_sq / m;
        let qz: u128 = az * unit_sq / m;
        proof {
            let r = normalized(value@);
            lemma_component_magnitude(value.x as int, m as int);
            lemma_component_magnitude(value.y as int, m as int);
            lemma_component_magnitude(value.z as int, m as int);
            assert(qx == abs(r.x) && qy == abs(r.y) && qz == abs(r.z));
        }
        let v = Vec3 {
            x: with_sign_of(qx, value.x),
            y: with_sign_of(qy, value.y),
            z: with_sign_of(qz, value.z),
        };
        Ok(Dir3 { v })
    }

    /// Whether the length is `UNIT` up to rounding.
    pub fn is_well_formed(&self) -> (b: bool)
        ensures
            b == self.wf(),
    {
        let ax: u128 = magnitude(self.v.x);
        let ay: u128 = magnitude(self.v.y);
        let az: u128 = magnitude(self.v.z);
        let bound: u128 = DIR_BOUND as u128;
        if ax > bound || ay > bound || az > bound {
            proof {
                if self.wf() {
                    lemma_unit_components_bounded(self@);
                }
            }
            return false;
        }
        assert(ax * ax <= DIR_BOUND * DIR_BOUND && ay * ay <= DIR_BOUND * DIR_BOUND && az * az
            <= DIR_BOUND * DIR_BOUND) by (nonlinear_arith)
            requires
                0 <= ax <= DIR_BOUND,
                0 <= ay <= DIR_BOUND,
                0 <= az <= DIR_BOUND,
        ;
        assert(ax * ax == self.v.x * self.v.x && ay * ay == self.v.y * self.v.y && az * az
            == self.v.z * self.v.z) by (nonlinear_arith)
            requires
                ax == abs(self.v.x as int),
                ay == abs(self.v.y as int),
                az == abs(self.v.z as int),
        ;
        let s: u128 = ax * ax + ay * ay + az * az;
        let low: u128 = (UNIT_SQ - UNIT_SLACK as i128) as u128;
        let high: u128 = (UNIT_SQ + UNIT_SLACK as i128) as u128;
        low <= s && s <= high
    }

    /// Two directions with the same vector are the same direction.
    pub proof fn lemma_view_is_injective(a: Dir3, b: Dir3)
        requires
            a@ == b@,
        ensures
            a == b,
    {
    }

    /// The vector of this direction.
    pub fn as_vec3(&self) -> (v: Vec3)
        ensures
            v@ == self@,
    {
        self.v
    }

    /// The direction of the positive X axis.
    pub fn x_axis() -> (d: Dir3)
        ensures
            d@ == (Vector { x: UNIT as int, y: 0, z: 0 }),
            d.wf(),
    {
        let v = Vec3 { x: UNIT, y: 0, z: 0 };
        proof {
            lemma_axis_is_unit(v@);
        }
        Dir3 { v }
    }

    /// The direction of the positive Y axis.
    pub fn y_axis() -> (d: Dir3)
        ensures
            d@ == (Vector { x: 0, y: UNIT as int, z: 0 }),
            d.wf(),
    {
        let v = Vec3 { x: 0, y: UNIT, z: 0 };
        proof {
            lemma_axis_is_unit(v@);
        }
        Dir3 { v }
    }

    /// The direction of the positive Z axis.
    pub fn z_axis() -> (d: Dir3)
        ensures
            d@ == (Vector { x: 0, y: 0, z: UNIT as int }),
            d.wf(),
    {
        let v = Vec3 { x: 0, y: 0, z: UNIT };
        proof {
            lemma_axis_is_unit(v@);
        }
        Dir3 { v }
    }

    /// The opposite direction.
    pub fn negated(&self) -> (d: Dir3)
        requires
            self.wf(),
        ensures
            d@ == self@.negated(),
            d.wf(),
    {
        proof {
            lemma_unit_components_bounded(self@);
            lemma_negated_norm(self@);
        }
        Dir3 { v: Vec3 { x: -self.v.x, y: -self.v.y, z: -self.v.z } }
    }

    /// The cross product of two directions. It is a vector of length about
    /// `UNIT * UNIT` times the sine of the angle between them.
    pub fn cross(&self, other: &Dir3) -> (v: Vec3)
        requires
            self.wf(),
            other.wf(),
        ensures
            v@ == self@.cross(other@),
            v@.within_box(MAX_COORD as int),
    {
        proof {
            lemma_unit_components_bounded(self@);
            lemma_unit_components_bounded(other@);
        }
        let yz: i64 = bounded_product(self.v.y, other.v.z);
        let zy: i64 = bounded_product(self.v.z, other.v.y);
        let zx: i64 = bounded_product(self.v.z, other.v.x);
        let xz: i64 = bounded_product(self.v.x, other.v.z);
        let xy: i64 = bounded_product(self.v.x, other.v.y);
        let yx: i64 = bounded_product(self.v.y, other.v.x);
        Vec3 { x: yz - zy, y: zx - xz, z: xy - yx }
    }

    /// Some vector orthogonal to this direction. It is not the zero vector,
    /// and in general not of length `UNIT`.
    pub fn any_orthogonal_vector(&self) -> (v: Vec3)
        requires
            self.wf(),
        ensures
            v@ == any_orthogonal(self@),
            v@.dot(self@) == 0,
            normalizable(v@),
    {
        proof {
            lemma_unit_components_bounded(self@);
            lemma_any_orthogonal(self@);
        }
        let ax: u128 = magnitude(self.v.x);
        let ay: u128 = magnitude(self.v.y);
        if ax > ay {
            Vec3 { x: -self.v.z, y: 0, z: self.v.x }
        } else {
            Vec3 { x: 0, y: self.v.z, z: -self.v.y }
        }
    }

    /// A vector that is orthogonal to this direction and of length `UNIT`,
    /// both up to rounding. It is not the zero vector.
    pub fn any_orthonormal_vector(&self) -> (v: Vec3)
        requires
            self.wf(),
        ensures
            v@ == any_orthonormal(self@),
            normalizable(v@),
            -ORTHONORMAL_DOT_SLACK <= v@.dot(self@) <= ORTHONORMAL_DOT_SLACK,
            UNIT_SQ - ORTHONORMAL_SLACK <= v@.norm_sq() <= UNIT_SQ + ORTHONORMAL_SLACK,
    {
        proof {
            lemma_unit_components_bounded(self@);
            lemma_any_orthonormal(self@);
        }
        let x: i128 = self.v.x as i128;
        let y: i128 = self.v.y as i128;
        let z: i128 = self.v.z as i128;
        let w: i128 = if z < 0 {
            UNIT as i128 - z
        } else {
            UNIT as i128 + z
        };
        let xy: i128 = bounded_product(self.v.x, self.v.y) as i128;
        let yy: i128 = bounded_product(self.v.y, self.v.y) as i128;
        assert(yy >= 0) by (nonlinear_arith)
            requires
                yy == y * y,
        ;
        let p: i128 = div_toward_zero(xy, w);
        let q: i128 = yy / w;
        proof {
            lemma_div_trunc_magnitude(xy as int, w as int);
            lemma_div_trunc_magnitude(yy as int, w as int);
            assert(q == div_trunc(yy as int, w as int));
            assert(y == 0 ==> yy == 0) by (nonlinear_arith)
                requires
                    yy == y * y,
            ;
        }
        if z >= 0 {
            Vec3 { x: (-p) as i64, y: (UNIT as i128 - q) as i64, z: (-y) as i64 }
        } else {
            Vec3 { x: p as i64, y: (q - UNIT as i128) as i64, z: (-y) as i64 }
        }
    }
}

/// How far the dot product of a direction with its `any_orthonormal` may be
/// from zero.
pub const ORTHONORMAL_DOT_SLACK: i64 = 10_000_040;

/// How far the squared length of `any_orthonormal` of a direction may be from
/// `UNIT_SQ`.
pub const ORTHONORMAL_SLACK: i64 = 17_000_000;

proof fn lemma_product_bound(a: int, b: int, bound_a: int, bound_b: int)
    by (nonlinear_arith)
    requires
        -bound_a <= a <= bound_a,
        -bound_b <= b <= bound_b,
    ensures
        -(bound_a * bound_b) <= a * b <= bound_a * bound_b,
{
}

proof fn lemma_cancel_factor(d: int, t: int, w: int)
    by (nonlinear_arith)
    requires
        w > 0,
        -(w * t) <= w * d <= w * t,
    ensures
        -t <= d <= t,
{
}

/// The dot product of `(x, y, z)` with its `any_orthonormal`, times the
/// divisor `w`, is what the roundings and the direction's own error leave.
proof fn lemma_orthonormal_dot(x: int, y: int, z: int, u: int, p: int, q: int, eps: int)
    ensures
        ({
            let w = u + abs(z);
            let r1 = x * y - p * w;
            let r2 = y * y - q * w;
            let d = if z >= 0 {
                (-p) * x + (u - q) * y + (-y) * z
            } else {
                p * x + (q - u) * y + (-y) * z
            };
            eps == x * x + y * y + z * z - u * u ==> (if z >= 0 {
                w * d == r1 * x + r2 * y - eps * y
            } else {
                w * d == eps * y - r1 * x - r2 * y
            })
        }),
{
    let w = u + abs(z);
    let r1 = x * y - p * w;
    let r2 = y * y - q * w;
    if eps == x * x + y * y + z * z - u * u {
        if z >= 0 {
            let d = (-p) * x + (u - q) * y + (-y) * z;
            assert(w * ((-p) * x) == -((p * w) * x)) by (nonlinear_arith);
            assert(w * ((u - q) * y) == (u * w) * y - (q * w) * y) by (nonlinear_arith);
            assert(w * ((-y) * z) == -((z * w) * y)) by (nonlinear_arith);
            lemma_factor_out(w, (-p) * x, (u - q) * y, (-y) * z);
            assert(r1 * x == (x * x) * y - (p * w) * x) by (nonlinear_arith)
                requires
                    r1 == x * y - p * w,
            ;
            assert(r2 * y == (y * y) * y - (q * w) * y) by (nonlinear_arith)
                requires
                    r2 == y * y - q * w,
            ;
            assert((u * w) * y - (z * w) * y == (u * u) * y - (z * z) * y) by (nonlinear_arith)
                requires
                    w == u + z,
            ;
            assert(eps * y == (x * x) * y + (y * y) * y + (z * z) * y - (u * u) * y)
                by (nonlinear_arith)
                requires
                    eps == x * x + y * y + z * z - u * u,
            ;
        } else {
            let d = p * x + (q - u) * y + (-y) * z;
            assert(w * (p * x) == (p * w) * x) by (nonlinear_arith);
            assert(w * ((q - u) * y) == (q * w) * y - (u * w) * y) by (nonlinear_arith);
            assert(w * ((-y) * z) == -((z * w) * y)) by (nonlinear_arith);
            lemma_factor_out(w, p * x, (q - u) * y, (-y) * z);
            assert(r1 * x == (x * x) * y - (p * w) * x) by (nonlinear_arith)
                requires
                    r1 == x * y - p * w,
            ;
            assert(r2 * y == (y * y) * y - (q * w) * y) by (nonlinear_arith)
                requires
                    r2 == y * y - q * w,
            ;
            assert((u * w) * y + (z * w) * y == (u * u) * y - (z * z) * y) by (nonlinear_arith)
                requires
                    w == u - z,
            ;
            assert(eps * y == (x * x) * y + (y * y) * y + (z * z) * y - (u * u) * y)
                by (nonlinear_arith)
                requires
                    eps == x * x + y * y + z * z - u * u,
            ;
        }
    }
}

/// The squared length of `any_orthonormal` of `(x, y, z)`, times the square
/// of the divisor `w`, differs from `u² w²` by what the roundings and the
/// direction's own error leave.
proof fn lemma_orthonormal_norm(x: int, y: int, z: int, u: int, p: int, q: int, eps: int)
    ensures
        ({
            let w = u + abs(z);
            let r1 = x * y - p * w;
            let r2 = y * y - q * w;
            let g = u * w - y * y;
            let n = p * p + (u - q) * (u - q) + y * y;
            eps == x * x + y * y + z * z - u * u ==> (w * w) * n - (u * u) * (w * w) == eps * (y
                * y) - 2 * ((x * y) * r1) + r1 * r1 + 2 * (g * r2) + r2 * r2
        }),
{
    let w = u + abs(z);
    let r1 = x * y - p * w;
    let r2 = y * y - q * w;
    let g = u * w - y * y;
    let n = p * p + (u - q) * (u - q) + y * y;
    let xy = x * y;
    let yy = y * y;
    let ww = w * w;
    if eps == x * x + y * y + z * z - u * u {
        let pw = p * w;
        let uqw = (u - q) * w;
        assert(ww * n == pw * pw + uqw * uqw + yy * ww) by (nonlinear_arith)
            requires
                n == p * p + (u - q) * (u - q) + yy,
                pw == p * w,
                uqw == (u - q) * w,
                ww == w * w,
        ;
        assert(pw == xy - r1);
        assert(uqw == g + r2) by (nonlinear_arith)
            requires
                uqw == (u - q) * w,
                g == u * w - yy,
                r2 == yy - q * w,
        ;
        assert(pw * pw == xy * xy - 2 * (xy * r1) + r1 * r1) by (nonlinear_arith)
            requires
                pw == xy - r1,
        ;
        assert(uqw * uqw == g * g + 2 * (g * r2) + r2 * r2) by (nonlinear_arith)
            requires
                uqw == g + r2,
        ;
        // The exact part: (xy)² + g² + y² w² == u² w² + eps y².
        let uw = u * w;
        assert(g * g == uw * uw - 2 * (uw * yy) + yy * yy) by (nonlinear_arith)
            requires
                g == uw - yy,
        ;
        assert(uw * uw == (u * u) * ww) by (nonlinear_arith)
            requires
                uw == u * w,
                ww == w * w,
        ;
        assert(xy * xy == (x * x) * yy) by (nonlinear_arith)
            requires
                xy == x * y,
                yy == y * y,
        ;
        assert(ww - 2 * uw == z * z - u * u) by (nonlinear_arith)
            requires
                w == u + abs(z),
                ww == w * w,
                uw == u * w,
        ;
        assert(yy * ww - 2 * (uw * yy) == (z * z) * yy - (u * u) * yy) by (nonlinear_arith)
            requires
                ww - 2 * uw == z * z - u * u,
        ;
        assert(eps * yy == (x * x) * yy + yy * yy + (z * z) * yy - (u * u) * yy)
            by (nonlinear_arith)
            requires
                eps == x * x + yy + z * z - u * u,
        ;
    }
}

/// For a direction `v`, `any_orthonormal(v)` is orthogonal to `v` and of
/// length `UNIT`, both up to rounding.
pub proof fn lemma_any_orthonormal(v: Vector)
    requires
        is_unit(v),
    ensures
        -ORTHONORMAL_DOT_SLACK <= any_orthonormal(v).dot(v) <= ORTHONORMAL_DOT_SLACK,
        UNIT_SQ - ORTHONORMAL_SLACK <= any_orthonormal(v).norm_sq() <= UNIT_SQ
            + ORTHONORMAL_SLACK,
{
    lemma_unit_components_bounded(v);
    let x = v.x;
    let y = v.y;
    let z = v.z;
    let u = UNIT as int;
    let bound = DIR_BOUND as int;
    let w = u + abs(z);
    let p = div_trunc(x * y, w);
    let q = (y * y) / w;
    let eps = x * x + y * y + z * z - u * u;
    let r1 = x * y - p * w;
    let r2 = y * y - q * w;
    let o = any_orthonormal(v);
    assert(y * y >= 0) by (nonlinear_arith);
    assert(q == div_trunc(y * y, w));
    lemma_div_trunc_bounds(x * y, w);
    lemma_div_trunc_bounds(y * y, w);
    assert(-(w - 1) <= r1 <= w - 1);
    assert(0 <= r2 <= w - 1);
    assert(-8 * u <= eps <= 8 * u);

    // The dot product.
    lemma_orthonormal_dot(x, y, z, u, p, q, eps);
    let d = o.dot(v);
    lemma_product_bound(r1, x, w - 1, bound);
    lemma_product_bound(r2, y, w - 1, bound);
    lemma_product_bound(eps, y, 8 * u, bound);
    assert(8 * u * bound + 2 * ((w - 1) * bound) <= w * (10 * bound)) by (nonlinear_arith)
        requires
            w >= u,
            u >= 1,
            bound >= 0,
    ;
    lemma_cancel_factor(d, 10 * bound, w);

    // The length.
    lemma_orthonormal_norm(x, y, z, u, p, q, eps);
    let n = o.norm_sq();
    assert(n == p * p + (u - q) * (u - q) + y * y) by (nonlinear_arith)
        requires
            n == o.x * o.x + o.y * o.y + o.z * o.z,
            o.x == p || o.x == -p,
            o.y == u - q || o.y == q - u,
            o.z == -y,
    ;
    let ww = w * w;
    let g = u * w - y * y;
    lemma_product_bound(x, y, bound, bound);
    lemma_product_bound(y, y, bound, bound);
    lemma_product_bound(eps, y * y, 8 * u, bound * bound);
    lemma_product_bound(x * y, r1, bound * bound, w);
    lemma_product_bound(r1, r1, w, w);
    lemma_product_bound(r2, r2, w, w);
    assert(-(2 * u * w) <= g <= 2 * u * w) by (nonlinear_arith)
        requires
            g == u * w - y * y,
            0 <= y * y <= bound * bound,
            bound * bound <= 2 * u * u,
            w >= u,
            u >= 1,
    ;
    lemma_product_bound(g, r2, 2 * u * w, w);
    assert(ww >= u * u && ww > 0) by (nonlinear_arith)
        requires
            ww == w * w,
            w >= u,
            u >= 1,
    ;
    assert((8 * u) * (bound * bound) <= 9_000_000 * ww) by (nonlinear_arith)
        requires
            ww >= u * u,
            u == 1_000_000,
            bound == 1_000_004,
    ;
    assert(2 * ((bound * bound) * w) <= 3_000_000 * ww) by (nonlinear_arith)
        requires
            ww == w * w,
            w >= u,
            u == 1_000_000,
            bound == 1_000_004,
    ;
    assert((2 * u * w) * w == 2_000_000 * ww) by (nonlinear_arith)
        requires
            ww == w * w,
            u == 1_000_000,
    ;
    let off = n - u * u;
    assert(ww * n - (u * u) * ww == ww * off) by (nonlinear_arith)
        requires
            off == n - u * u,
    ;
    assert(-(17_000_000 * ww) <= ww * off <= 17_000_000 * ww);
    assert(17_000_000 * ww == ww * 17_000_000) by (nonlinear_arith);
    lemma_cancel_factor(off, 17_000_000, ww);
    assert(u * u == UNIT_SQ);
}

/// The product of two components of directions.
pub(crate) fn bounded_product(a: i64, b: i64) -> (p: i64)
    requires
        -DIR_BOUND <= a <= DIR_BOUND,
        -DIR_BOUND <= b <= DIR_BOUND,
    ensures
        p == a * b,
        -DIR_BOUND * DIR_BOUND <= p <= DIR_BOUND * DIR_BOUND,
{
    assert(-DIR_BOUND * DIR_BOUND <= a * b <= DIR_BOUND * DIR_BOUND) by (nonlinear_arith)
        requires
            -DIR_BOUND <= a <= DIR_BOUND,
            -DIR_BOUND <= b <= DIR_BOUND,
    ;
    a * b
}

/// A vector along one axis with a component of magnitude `UNIT` is a direction.
proof fn lemma_axis_is_unit(v: Vector)
    by (nonlinear_arith)
    requires
        abs(v.x) + abs(v.y) + abs(v.z) == UNIT,
        abs(v.x) == UNIT || abs(v.y) == UNIT || abs(v.z) == UNIT,
    ensures
        is_unit(v),
{
}

proof fn lemma_negated_norm(v: Vector)
    by (nonlinear_arith)
    ensures
        v.negated().norm_sq() == v.norm_sq(),
{
}

/// `any_orthogonal(v)` is exactly orthogonal to `v`, and is the zero vector
/// only if `v` is.
pub proof fn lemma_any_orthogonal(v: Vector)
    ensures
        any_orthogonal(v).dot(v) == 0,
        v != Vector::zero() ==> any_orthogonal(v) != Vector::zero(),
{
    assert(any_orthogonal(v).dot(v) == 0) by (nonlinear_arith)
        requires
            any_orthogonal(v) == (if abs(v.x) > abs(v.y) {
                Vector { x: -v.z, y: 0, z: v.x }
            } else {
                Vector { x: 0, y: v.z, z: -v.y }
            }),
    ;
}

proof fn lemma_remainder_times(e: int, b: int, m: int)
    by (nonlinear_arith)
    requires
        -(m - 1) <= e <= m - 1,
        m >= 1,
    ensures
        -((m - 1) * abs(b)) <= e * b <= (m - 1) * abs(b),
{
}

proof fn lemma_remainder_product(c: int, q: int, b: int, m: int, k: int)
    by (nonlinear_arith)
    ensures
        (c * k - q * m) * b == k * (c * b) - m * (q * b),
{
}

proof fn lemma_factor_out(f: int, a: int, b: int, c: int)
    by (nonlinear_arith)
    ensures
        f * a + f * b + f * c == f * (a + b + c),
{
}

proof fn lemma_divide_bound(d: int, s: int, m: int)
    by (nonlinear_arith)
    requires
        m >= 1,
        s >= 0,
        -((m - 1) * s) <= m * d <= (m - 1) * s,
    ensures
        -s <= d <= s,
{
}

/// How normalising changes a dot product: the dot product of the direction
/// of `c` with `b`, times the scaled length of `c`, differs from `UNIT_SQ`
/// times the dot product of `c` itself with `b` by what the roundings leave,
/// less than the scaled length for every component of `b`.
pub proof fn lemma_normalized_dot(c: Vector, b: Vector)
    requires
        c != Vector::zero(),
    ensures
        ({
            let m = scaled_length(c);
            let s = abs(b.x) + abs(b.y) + abs(b.z);
            let gap = m * normalized(c).dot(b) - UNIT_SQ * c.dot(b);
            m >= UNIT && -((m - 1) * s) <= gap <= (m - 1) * s
        }),
{
    lemma_normalized_is_unit(c);
    let m = scaled_length(c);
    let q = normalized(c);
    let k = UNIT_SQ as int;
    lemma_div_trunc_bounds(c.x * k, m);
    lemma_div_trunc_bounds(c.y * k, m);
    lemma_div_trunc_bounds(c.z * k, m);
    let ex = c.x * k - q.x * m;
    let ey = c.y * k - q.y * m;
    let ez = c.z * k - q.z * m;
    lemma_remainder_times(ex, b.x, m);
    lemma_remainder_times(ey, b.y, m);
    lemma_remainder_times(ez, b.z, m);
    lemma_remainder_product(c.x, q.x, b.x, m, k);
    lemma_remainder_product(c.y, q.y, b.y, m, k);
    lemma_remainder_product(c.z, q.z, b.z, m, k);
    lemma_factor_out(k, c.x * b.x, c.y * b.y, c.z * b.z);
    lemma_factor_out(m, q.x * b.x, q.y * b.y, q.z * b.z);
    assert(m * q.dot(b) - k * c.dot(b) == -(ex * b.x + ey * b.y + ez * b.z));
    let s = abs(b.x) + abs(b.y) + abs(b.z);
    assert((m - 1) * abs(b.x) + (m - 1) * abs(b.y) + (m - 1) * abs(b.z) == (m - 1) * s)
        by (nonlinear_arith)
        requires
            s == abs(b.x) + abs(b.y) + abs(b.z),
    ;
}

/// Normalising keeps orthogonality up to rounding: where `c` is exactly
/// orthogonal to `b`, the dot product of its direction with `b` is no larger
/// than the sum of the magnitudes of `b`'s components.
pub proof fn lemma_normalized_keeps_orthogonality(c: Vector, b: Vector)
    requires
        c != Vector::zero(),
        c.dot(b) == 0,
    ensures
        abs(normalized(c).dot(b)) <= abs(b.x) + abs(b.y) + abs(b.z),
{
    lemma_normalized_dot(c, b);
    let s = abs(b.x) + abs(b.y) + abs(b.z);
    lemma_divide_bound(normalized(c).dot(b), s, scaled_length(c));
}

/// How far the dot product of a direction with the direction of its
/// `any_orthonormal` may be from zero.
pub const ORTHONORMAL_DIRECTION_SLACK: i64 = 14_000_056;

/// For a direction `v`, the direction of `any_orthonormal(v)` is orthogonal
/// to `v` up to rounding.
pub proof fn lemma_orthonormal_direction(v: Vector)
    requires
        is_unit(v),
    ensures
        any_orthonormal(v) != Vector::zero(),
        -ORTHONORMAL_DIRECTION_SLACK <= normalized(any_orthonormal(v)).dot(v)
            <= ORTHONORMAL_DIRECTION_SLACK,
{
    let o = any_orthonormal(v);
    lemma_any_orthonormal(v);
    lemma_unit_components_bounded(v);
    assert(o != Vector::zero()) by {
        if o == Vector::zero() {
            assert(o.norm_sq() == 0) by (nonlinear_arith)
                requires
                    o.x == 0,
                    o.y == 0,
                    o.z == 0,
            ;
        }
    }
    lemma_normalized_dot(o, v);
    let m = scaled_length(o);
    let d = normalized(o).dot(v);
    let s = abs(v.x) + abs(v.y) + abs(v.z);
    // The scaled length of a vector of nearly unit length is nearly `UNIT_SQ`.
    let low: int = 999_991_000_000;
    let n = o.norm_sq() * UNIT_SQ;
    assert(n >= low * low) by (nonlinear_arith)
        requires
            n == o.norm_sq() * 1_000_000_000_000,
            o.norm_sq() >= 1_000_000_000_000 - 17_000_000,
            low == 999_991_000_000,
    ;
    lemma_int_sqrt_exists(n);
    if m < low {
        lemma_square_le(m + 1, low);
        assert(false);
    }
    lemma_product_bound(UNIT_SQ as int, o.dot(v), UNIT_SQ as int, ORTHONORMAL_DOT_SLACK as int);
    assert((m - 1) * s <= (m - 1) * 3_000_012) by (nonlinear_arith)
        requires
            m >= 1,
            0 <= s <= 3_000_012,
    ;
    assert((m - 1) * 3_000_012 == 3_000_012 * m - 3_000_012) by (nonlinear_arith);
    assert(m * 14_000_056 == 14_000_056 * m) by (nonlinear_arith);
    lemma_cancel_factor(d, 14_000_056, m);
}

} // verus!
