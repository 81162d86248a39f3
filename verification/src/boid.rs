//! The agents of the simulation and the flock that owns them.

use vstd::prelude::*;
use crate::direction::Dir3;
use crate::heading::Heading;
use crate::tank::Tank;
use crate::vector::Vec3;

verus! {

/// Largest speed that an agent may have: a million world units per second.
pub const MAX_SPEED: i64 = 1_000_000_000_000;

/// Distance within which the separation rule looks at other agents: ten
/// world units, whatever the agent's perception radius.
pub const SEPARATION_DISTANCE: i64 = 10_000_000;

/// Speed of an agent in grid steps per second.
#[derive(Clone, Copy, PartialEq, Eq, Structural, Debug)]
pub struct Speed {
    /// The maximum speed of this agent.
    pub max: i64,
    /// The current speed of this agent: the magnitude of its velocity, which
    /// points along its up direction.
    pub current: i64,
}

impl Speed {
    /// Neither speed is negative or beyond `MAX_SPEED`.
    pub open spec fn wf(&self) -> bool {
        0 <= self.max <= MAX_SPEED && 0 <= self.current <= MAX_SPEED
    }

    /// Whether both speeds are in range.
    pub fn is_well_formed(&self) -> (b: bool)
        ensures
            b == self.wf(),
    {
        0 <= self.max && self.max <= MAX_SPEED && 0 <= self.current && self.current <= MAX_SPEED
    }
}

/// How far an agent sees, for alignment and cohesion.
#[derive(Clone, Copy, PartialEq, Eq, Structural, Debug)]
pub struct Perception {
    pub radius: i64,
}

impl Perception {
    /// The radius is positive.
    pub open spec fn wf(&self) -> bool {
        self.radius > 0
    }

    /// Whether the radius is positive.
    pub fn is_well_formed(&self) -> (b: bool)
        ensures
            b == self.wf(),
    {
        self.radius > 0
    }
}

/// The direction that the alignment rule asks for.
#[derive(Clone, Copy, PartialEq, Eq, Structural, Debug)]
pub struct AlignmentDir(pub Dir3);

/// The direction that the cohesion rule asks for.
#[derive(Clone, Copy, PartialEq, Eq, Structural, Debug)]
pub struct CohesionDir(pub Dir3);

/// The direction that the separation rule asks for.
#[derive(Clone, Copy, PartialEq, Eq, Structural, Debug)]
pub struct SeparationDir(pub Dir3);

/// One agent of the flock.
#[derive(Clone, Copy, PartialEq, Eq, Structural, Debug)]
pub struct Boid {
    pub position: Vec3,
    pub heading: Heading,
    pub speed: Speed,
    pub perception: Perception,
    pub desired_alignment: AlignmentDir,
    pub desired_cohesion: CohesionDir,
    pub desired_separation: SeparationDir,
}

impl Boid {
    /// Every direction of the agent is a direction, and its speed and
    /// perception are in range.
    pub open spec fn wf(&self) -> bool {
        &&& self.heading.wf()
        &&& self.speed.wf()
        &&& self.perception.wf()
        &&& self.desired_alignment.0.wf()
        &&& self.desired_cohesion.0.wf()
        &&& self.desired_separation.0.wf()
    }

    /// An agent at `position` whose three desired directions start out as
    /// its up direction.
    pub fn new(position: Vec3, heading: Heading, speed: Speed, perception: Perception) -> (b:
        Boid)
        ensures
            b.position == position,
            b.heading == heading,
            b.speed == speed,
            b.perception == perception,
            b.desired_alignment.0 == heading.up,
            b.desired_cohesion.0 == heading.up,
            b.desired_separation.0 == heading.up,
    {
        Boid {
            position,
            heading,
            speed,
            perception,
            desired_alignment: AlignmentDir(heading.up),
            desired_cohesion: CohesionDir(heading.up),
            desired_separation: SeparationDir(heading.up),
        }
    }

    /// Whether the agent is well formed.
    pub fn is_well_formed(&self) -> (b: bool)
        ensures
            b == self.wf(),
    {
        self.heading.is_well_formed() && self.speed.is_well_formed()
            && self.perception.is_well_formed() && self.desired_alignment.0.is_well_formed()
            && self.desired_cohesion.0.is_well_formed()
            && self.desired_separation.0.is_well_formed()
    }
}

/// The agent `b` is well formed and inside `tank`.
pub open spec fn fits(tank: Tank, b: Boid) -> bool {
    b.wf() && tank.contains(b.position@)
}

/// All of `boids` are well formed and inside the well-formed `tank`.
pub open spec fn all_fit(tank: Tank, boids: Seq<Boid>) -> bool {
    tank.wf() && forall|i: int| 0 <= i < boids.len() ==> fits(tank, #[trigger] boids[i])
}

/// The simulation: a tank and the fixed population of agents inside it.
pub struct Flock {
    tank: Tank,
    boids: Vec<Boid>,
}

impl Flock {
    /// The tank of this flock, in specifications.
    pub closed spec fn bounds(&self) -> Tank {
        self.tank
    }

    /// The agents of this flock by index, in specifications.
    pub closed spec fn agents(&self) -> Seq<Boid> {
        self.boids@
    }

    /// Every agent is well formed and inside the tank.
    pub open spec fn wf(&self) -> bool {
        all_fit(self.bounds(), self.agents())
    }

    /// A flock of `boids` in `tank`, if the tank is well formed and every
    /// agent is well formed and inside it.
    pub fn new(tank: Tank, boids: Vec<Boid>) -> (r: Option<Flock>)
        ensures
            r is Some <==> all_fit(tank, boids@),
            r matches Some(f) ==> f.bounds() == tank && f.agents() == boids@ && f.wf(),
    {
        if !tank.is_well_formed() {
            return None;
        }
        let n: usize = boids.len();
        let mut i: usize = 0;
        while i < n
            invariant
                n == boids.len(),
                0 <= i <= n,
                tank.wf(),
                forall|j: int| 0 <= j < i ==> fits(tank, #[trigger] boids@[j]),
            decreases n - i,
        {
            if !boids[i].is_well_formed() || !tank.holds(&boids[i].position) {
                assert(!fits(tank, boids@[i as int]));
                return None;
            }
            i = i + 1;
        }
        Some(Flock { tank, boids })
    }

    /// The tank of this flock.
    pub fn tank(&self) -> (t: Tank)
        ensures
            t == self.bounds(),
    {
        self.tank
    }

    /// The agents of this flock, by index.
    pub fn boids(&self) -> (b: &Vec<Boid>)
        ensures
            b@ == self.agents(),
    {
        &self.boids
    }

    /// Number of agents.
    pub fn len(&self) -> (n: usize)
        ensures
            n == self.agents().len(),
    {
        self.boids.len()
    }

    /// Replaces the agent at index `i`.
    pub(crate) fn put(&mut self, i: usize, boid: Boid)
        requires
            i < old(self).agents().len(),
        ensures
            final(self).agents() == old(self).agents().update(i as int, boid),
            final(self).bounds() == old(self).bounds(),
    {
        self.boids.set(i, boid);
    }
}

} // verus!
