//! Orientations: a forward direction and an up direction that are orthogonal
//! up to rounding, and how one is built from a line of sight and a hint of
//! where up is.

use vstd::prelude::*;
use crate::direction::{
    any_orthogonal, any_orthonormal, bounded_product, is_unit, lemma_any_orthogonal,
    lemma_normalized_keeps_orthogonality, lemma_unit_components_bounded, normalized, Dir3,
};
use crate::vector::{lemma_cross_is_orthogonal, lemma_dot_with_negated, Vec3, Vector};

verus! {

/// The "right" direction of an orientation that looks along `direction` with
/// `up` above: the direction of `up × -direction`, or a vector orthogonal to
/// `up` where the two are parallel.
pub open spec fn right_of(direction: Vector, up: Vector) -> Vector {
    let c = up.cross(direction.negated());
    if c == Vector::zero() {
        normalized(any_orthonormal(up))
    } else {
        normalized(c)
    }
}

/// The "up" direction that is derived anew for an orientation that looks
/// along `direction` with `up` above: the direction of `-direction × right`,
/// which is orthogonal to `direction`. Where that product vanishes, it is the
/// direction of some other vector orthogonal to `direction`.
pub open spec fn straightened_up(direction: Vector, up: Vector) -> Vector {
    let c = direction.negated().cross(right_of(direction, up));
    if c == Vector::zero() {
        normalized(any_orthogonal(direction))
    } else {
        normalized(c)
    }
}

/// The "up" direction of an orientation that looks along `direction` with `up`
/// above. An `up` that is orthogonal to `direction` up to rounding is kept as
/// it is, so that looking again along the same line changes nothing and
/// roundings do not add up from step to step. Any other is derived anew.
pub open spec fn up_after_look(direction: Vector, up: Vector) -> Vector {
    if nearly_orthogonal(direction, up) {
        up
    } else {
        straightened_up(direction, up)
    }
}

/// How far the dot product of two orthogonal directions may be from zero.
pub const ORTHO_SLACK: i64 = 3_000_012;

/// `a` and `b` are orthogonal up to rounding.
pub open spec fn nearly_orthogonal(a: Vector, b: Vector) -> bool {
    -ORTHO_SLACK <= a.dot(b) <= ORTHO_SLACK
}

/// The direction of a vector that is exactly orthogonal to a direction is
/// orthogonal to it up to rounding.
pub proof fn lemma_direction_of_orthogonal(c: Vector, d: Vector)
    requires
        c != Vector::zero(),
        c.dot(d) == 0,
        is_unit(d),
    ensures
        nearly_orthogonal(d, normalized(c)),
        nearly_orthogonal(normalized(c), d),
{
    lemma_normalized_keeps_orthogonality(c, d);
    lemma_unit_components_bounded(d);
    assert(d.dot(normalized(c)) == normalized(c).dot(d)) by (nonlinear_arith);
}

/// The up direction that is derived anew is orthogonal to the line of sight
/// up to rounding.
pub proof fn lemma_straightened_is_orthogonal(direction: Vector, up: Vector)
    requires
        is_unit(direction),
    ensures
        nearly_orthogonal(direction, straightened_up(direction, up)),
{
    let back = direction.negated();
    let c = back.cross(right_of(direction, up));
    lemma_unit_components_bounded(direction);
    if c == Vector::zero() {
        lemma_any_orthogonal(direction);
        lemma_direction_of_orthogonal(any_orthogonal(direction), direction);
    } else {
        lemma_cross_is_orthogonal(back, right_of(direction, up));
        lemma_dot_with_negated(c, direction);
        lemma_direction_of_orthogonal(c, direction);
    }
}

/// Looking along a line is idempotent: the up direction that comes out of it
/// comes out again when it is put in.
pub proof fn lemma_look_is_idempotent(direction: Vector, up: Vector)
    requires
        is_unit(direction),
    ensures
        nearly_orthogonal(direction, up_after_look(direction, up)),
        up_after_look(direction, up_after_look(direction, up)) == up_after_look(direction, up),
{
    lemma_straightened_is_orthogonal(direction, up);
}

/// An orientation: where an agent looks and what it holds for up, two
/// directions that are orthogonal up to rounding.
#[derive(Clone, Copy, PartialEq, Eq, Structural, Debug)]
pub struct Heading {
    pub forward: Dir3,
    pub up: Dir3,
}

impl Heading {
    /// Both are directions, and they are orthogonal up to rounding.
    pub open spec fn wf(&self) -> bool {
        self.forward.wf() && self.up.wf() && nearly_orthogonal(self.forward@, self.up@)
    }

    /// Whether this is an orientation.
    pub fn is_well_formed(&self) -> (b: bool)
        ensures
            b == self.wf(),
    {
        if !self.forward.is_well_formed() || !self.up.is_well_formed() {
            return false;
        }
        orthogonal_enough(&self.forward, &self.up)
    }

    /// The orientation that looks along `direction` and keeps `up` above as
    /// far as `direction` allows. An `up` that is orthogonal to `direction`
    /// up to rounding is kept as it is; any other is derived anew.
    pub fn looking_to(direction: Dir3, up: Dir3) -> (h: Heading)
        requires
            direction.wf(),
            up.wf(),
        ensures
            h.wf(),
            h.forward == direction,
            h.up@ == up_after_look(direction@, up@),
            nearly_orthogonal(direction@, up@) ==> h.up == up,
    {
        if orthogonal_enough(&direction, &up) {
            return Heading { forward: direction, up };
        }
        let back = direction.negated();
        let right = match Dir3::new(up.cross(&back)) {
            Ok(r) => r,
            Err(_) => {
                let fallback = Dir3::new(up.any_orthonormal_vector());
                fallback.unwrap()
            },
        };
        proof {
            lemma_straightened_is_orthogonal(direction@, up@);
        }
        let new_up = match Dir3::new(back.cross(&right)) {
            Ok(u) => u,
            Err(_) => {
                let fallback = Dir3::new(direction.any_orthogonal_vector());
                fallback.unwrap()
            },
        };
        Heading { forward: direction, up: new_up }
    }
}

/// Whether two directions are orthogonal up to rounding.
fn orthogonal_enough(a: &Dir3, b: &Dir3) -> (r: bool)
    requires
        a.wf(),
        b.wf(),
    ensures
        r == nearly_orthogonal(a@, b@),
{
    proof {
        lemma_unit_components_bounded(a@);
        lemma_unit_components_bounded(b@);
    }
    let f: Vec3 = a.as_vec3();
    let u: Vec3 = b.as_vec3();
    let dot: i128 = bounded_product(f.x, u.x) as i128 + bounded_product(f.y, u.y) as i128
        + bounded_product(f.z, u.z) as i128;
    -(ORTHO_SLACK as i128) <= dot && dot <= ORTHO_SLACK as i128
}

} // verus!
