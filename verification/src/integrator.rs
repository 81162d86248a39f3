//! The integrator: where each agent wants to turn, and the step that takes
//! the turned directions, re-derives the orientation, moves the agent along
//! its up direction and wraps it at the faces of the tank.
//!
//! Turning itself is a spherical interpolation between the current direction
//! and the target by the fraction of a second that has passed. The caller
//! computes it between `turn_targets` and `step`.

use vstd::prelude::*;
use crate::arith::{div_toward_zero, div_trunc};
use crate::boid::{fits, Boid, Flock, MAX_SPEED};
use crate::direction::{
    any_orthonormal, lemma_orthonormal_direction, lemma_unit_components_bounded, normalized,
    Dir3, DIR_BOUND, ORTHONORMAL_DIRECTION_SLACK,
};
use crate::heading::{nearly_orthogonal, up_after_look, Heading};
use crate::tank::Tank;
use crate::vector::{Vec3, Vector};

verus! {

/// Two directions of one agent that are turned on their own: its forward and
/// its up, as they are aimed at or as they come out of a turn. Unlike those
/// of a `Heading` they need not be orthogonal.
#[derive(Clone, Copy, PartialEq, Eq, Structural, Debug)]
pub struct Turn {
    pub forward: Dir3,
    pub up: Dir3,
}

impl Turn {
    /// Both are directions.
    pub open spec fn wf(&self) -> bool {
        self.forward.wf() && self.up.wf()
    }

    /// Whether both are directions.
    pub fn is_well_formed(&self) -> (b: bool)
        ensures
            b == self.wf(),
    {
        self.forward.is_well_formed() && self.up.is_well_formed()
    }
}

/// Sum of the three desired directions of an agent.
pub open spec fn look_direction(boid: Boid) -> Vector {
    boid.desired_alignment.0@.plus(boid.desired_cohesion.0@).plus(boid.desired_separation.0@)
}

/// Where the up direction of an agent turns to: the direction of the sum of
/// its three desired directions, or its current up where they cancel.
pub open spec fn up_target(boid: Boid) -> Vector {
    let look = look_direction(boid);
    if look == Vector::zero() {
        boid.heading.up@
    } else {
        normalized(look)
    }
}

/// Where the forward direction of an agent turns to: the direction of
/// `any_orthonormal` of its desired alignment, which is orthogonal to the
/// desired alignment up to rounding.
pub open spec fn forward_target(boid: Boid) -> Vector {
    normalized(any_orthonormal(boid.desired_alignment.0@))
}

/// The forward target of an agent is orthogonal to its desired alignment up
/// to rounding: their dot product is within `ORTHONORMAL_DIRECTION_SLACK` of
/// zero.
pub proof fn lemma_forward_target_is_orthogonal(boid: Boid)
    requires
        boid.desired_alignment.0.wf(),
    ensures
        -ORTHONORMAL_DIRECTION_SLACK <= forward_target(boid).dot(boid.desired_alignment.0@)
            <= ORTHONORMAL_DIRECTION_SLACK,
{
    lemma_orthonormal_direction(boid.desired_alignment.0@);
}

/// What the product of a component of a direction, a speed and a time in
/// microseconds is divided by to give grid steps: the length `UNIT` of a
/// direction times the microseconds in a second.
pub const TRAVEL_DIVISOR: i128 = 1_000_000_000_000;

/// Grid steps travelled along one axis in `dt_micros` microseconds at `speed`
/// grid steps per second, by an agent whose up direction has `component` on
/// that axis. Rounded towards zero.
pub open spec fn travel(component: int, speed: int, dt_micros: int) -> int {
    div_trunc(component * speed * dt_micros, TRAVEL_DIVISOR as int)
}

/// The point reached from `position` along `up`.
pub open spec fn moved(position: Vector, up: Vector, speed: int, dt_micros: int) -> Vector {
    Vector {
        x: position.x + travel(up.x, speed, dt_micros),
        y: position.y + travel(up.y, speed, dt_micros),
        z: position.z + travel(up.z, speed, dt_micros),
    }
}

/// The up direction of an agent after a step with the turned directions
/// `turned`: the one of the orientation that looks along `turned.forward`
/// with `turned.up` above. It is `turned.up` itself where the two are
/// orthogonal up to rounding.
pub open spec fn step_up(turned: Turn) -> Vector {
    up_after_look(turned.forward@, turned.up@)
}

/// The position of an agent after a step: it moves along its new up
/// direction at its current speed, and wraps at the faces of the tank.
pub open spec fn step_position(tank: Tank, before: Boid, turned: Turn, dt_micros: int)
    -> Vector {
    tank.wrapped(moved(before.position@, step_up(turned), before.speed.current as int, dt_micros))
}

/// An agent whose up direction was not turned, and whose forward direction
/// was turned within the plane orthogonal to it, flies straight on: the step
/// keeps its up direction exactly, however often it is taken, and moves the
/// agent along it.
pub proof fn lemma_straight_flight(tank: Tank, before: Boid, turned: Turn, dt_micros: int)
    requires
        turned.up == before.heading.up,
        nearly_orthogonal(turned.forward@, turned.up@),
    ensures
        step_up(turned) == before.heading.up@,
        step_position(tank, before, turned, dt_micros) == tank.wrapped(
            moved(before.position@, before.heading.up@, before.speed.current as int, dt_micros),
        ),
{
}

/// `after` is `before` but for its position and heading.
pub open spec fn only_pose_differs(before: Boid, after: Boid) -> bool {
    after == (Boid { position: after.position, heading: after.heading, ..before })
}

proof fn lemma_travel_bounded(component: int, speed: int, dt_micros: int)
    by (nonlinear_arith)
    requires
        -DIR_BOUND <= component <= DIR_BOUND,
        0 <= speed <= MAX_SPEED,
        0 <= dt_micros <= u32::MAX,
    ensures
        -5_000_000_000_000_000 * TRAVEL_DIVISOR <= component * speed * dt_micros
            <= 5_000_000_000_000_000 * TRAVEL_DIVISOR,
        -DIR_BOUND * MAX_SPEED <= component * speed <= DIR_BOUND * MAX_SPEED,
        -5_000_000_000_000_000 <= travel(component, speed, dt_micros) <= 5_000_000_000_000_000,
{
}

/// Exec counterpart of `travel`.
fn travel_along(component: i64, speed: i64, dt_micros: u32) -> (d: i64)
    requires
        -DIR_BOUND <= component <= DIR_BOUND,
        0 <= speed <= MAX_SPEED,
    ensures
        d == travel(component as int, speed as int, dt_micros as int),
        -5_000_000_000_000_000 <= d <= 5_000_000_000_000_000,
{
    proof {
        lemma_travel_bounded(component as int, speed as int, dt_micros as int);
    }
    let per_second: i128 = component as i128 * speed as i128;
    let product: i128 = per_second * dt_micros as i128;
    div_toward_zero(product, TRAVEL_DIVISOR) as i64
}

impl Boid {
    /// Where this agent wants to turn: the targets of its forward and of its
    /// up direction.
    pub fn turn_target(&self) -> (target: Turn)
        requires
            self.wf(),
        ensures
            target.wf(),
            target.forward@ == forward_target(*self),
            target.up@ == up_target(*self),
            -ORTHONORMAL_DIRECTION_SLACK <= target.forward@.dot(self.desired_alignment.0@)
                <= ORTHONORMAL_DIRECTION_SLACK,
    {
        proof {
            lemma_forward_target_is_orthogonal(*self);
        }
        let a: Vec3 = self.desired_alignment.0.as_vec3();
        let c: Vec3 = self.desired_cohesion.0.as_vec3();
        let s: Vec3 = self.desired_separation.0.as_vec3();
        proof {
            lemma_unit_components_bounded(a@);
            lemma_unit_components_bounded(c@);
            lemma_unit_components_bounded(s@);
        }
        let look = Vec3 { x: a.x + c.x + s.x, y: a.y + c.y + s.y, z: a.z + c.z + s.z };
        let up = match Dir3::new(look) {
            Ok(d) => d,
            Err(_) => self.heading.up,
        };
        let forward = match Dir3::new(self.desired_alignment.0.any_orthonormal_vector()) {
            Ok(d) => d,
            Err(_) => self.heading.forward,
        };
        Turn { forward, up }
    }

    /// This agent one step later, given the directions `turned` that its
    /// forward and up have been turned to.
    pub fn stepped(&self, tank: &Tank, turned: Turn, dt_micros: u32) -> (after: Boid)
        requires
            tank.wf(),
            fits(*tank, *self),
            turned.wf(),
        ensures
            fits(*tank, after),
            after.heading.forward == turned.forward,
            after.heading.up@ == step_up(turned),
            after.position@ == step_position(*tank, *self, turned, dt_micros as int),
            only_pose_differs(*self, after),
    {
        let heading = Heading::looking_to(turned.forward, turned.up);
        let up: Vec3 = heading.up.as_vec3();
        proof {
            lemma_unit_components_bounded(up@);
        }
        let reached = Vec3 {
            x: self.position.x + travel_along(up.x, self.speed.current, dt_micros),
            y: self.position.y + travel_along(up.y, self.speed.current, dt_micros),
            z: self.position.z + travel_along(up.z, self.speed.current, dt_micros),
        };
        Boid {
            position: tank.wrap(reached),
            heading,
            speed: self.speed,
            perception: self.perception,
            desired_alignment: self.desired_alignment,
            desired_cohesion: self.desired_cohesion,
            desired_separation: self.desired_separation,
        }
    }
}

/// Where every agent of the flock wants to turn, by index.
pub fn turn_targets(flock: &Flock) -> (targets: Vec<Turn>)
    requires
        flock.wf(),
    ensures
        targets.len() == flock.agents().len(),
        forall|i: int|
            0 <= i < targets.len() ==> {
                let target = #[trigger] targets@[i];
                &&& target.wf()
                &&& target.forward@ == forward_target(flock.agents()[i])
                &&& target.up@ == up_target(flock.agents()[i])
            },
{
    let boids = flock.boids();
    let n: usize = boids.len();
    let mut targets: Vec<Turn> = Vec::new();
    let mut i: usize = 0;
    while i < n
        invariant
            flock.wf(),
            boids@ == flock.agents(),
            n == boids.len(),
            0 <= i <= n,
            targets.len() == i,
            forall|j: int|
                0 <= j < i ==> {
                    let target = #[trigger] targets@[j];
                    &&& target.wf()
                    &&& target.forward@ == forward_target(flock.agents()[j])
                    &&& target.up@ == up_target(flock.agents()[j])
                },
        decreases n - i,
    {
        assert(fits(flock.bounds(), boids@[i as int]));
        targets.push(boids[i].turn_target());
        i = i + 1;
    }
    targets
}

/// One step of the integrator for the whole flock. `turned` holds, by index,
/// the directions that each agent's forward and up have been turned to since
/// the last step, and `dt_micros` the microseconds that have passed. Every
/// agent takes the orientation that looks along its turned forward with its
/// turned up above, moves along its new up direction at its current speed,
/// and wraps at the faces of the tank. Its speed, perception and desired
/// directions stay.
pub fn step(flock: &mut Flock, turned: &Vec<Turn>, dt_micros: u32)
    requires
        old(flock).wf(),
        turned.len() == old(flock).agents().len(),
        forall|i: int| 0 <= i < turned.len() ==> (#[trigger] turned@[i]).wf(),
    ensures
        final(flock).wf(),
        final(flock).bounds() == old(flock).bounds(),
        final(flock).agents().len() == old(flock).agents().len(),
        forall|i: int|
            0 <= i < old(flock).agents().len() ==> {
                let before = old(flock).agents()[i];
                let after = #[trigger] final(flock).agents()[i];
                &&& after.heading.forward == turned@[i].forward
                &&& after.heading.up@ == step_up(turned@[i])
                &&& after.position@ == step_position(
                    old(flock).bounds(),
                    before,
                    turned@[i],
                    dt_micros as int,
                )
                &&& only_pose_differs(before, after)
                &&& old(flock).bounds().contains(after.position@)
                &&& after.heading.wf()
            },
{
    let n: usize = flock.len();
    let tank: Tank = flock.tank();
    let ghost before = flock.agents();
    let mut i: usize = 0;
    while i < n
        invariant
            flock.wf(),
            tank == flock.bounds(),
            flock.bounds() == old(flock).bounds(),
            before == old(flock).agents(),
            n == before.len(),
            n == flock.agents().len(),
            n == turned.len(),
            0 <= i <= n,
            forall|j: int| 0 <= j < turned.len() ==> (#[trigger] turned@[j]).wf(),
            forall|j: int| i <= j < n ==> #[trigger] flock.agents()[j] == before[j],
            forall|j: int|
                0 <= j < i ==> {
                    let after = #[trigger] flock.agents()[j];
                    &&& after.heading.forward == turned@[j].forward
                    &&& after.heading.up@ == step_up(turned@[j])
                    &&& after.position@ == step_position(
                        tank,
                        before[j],
                        turned@[j],
                        dt_micros as int,
                    )
                    &&& only_pose_differs(before[j], after)
                    &&& tank.contains(after.position@)
                    &&& after.heading.wf()
                },
        decreases n - i,
    {
        let boid: Boid = flock.boids()[i];
        assert(fits(tank, flock.agents()[i as int]));
        assert(turned@[i as int].wf());
        let after = boid.stepped(&tank, turned[i], dt_micros);
        flock.put(i, after);
        assert(fits(tank, flock.agents()[i as int]));
        i = i + 1;
    }
}

} // verus!
