//! Populating the tank: a batch of agents at random positions inside it, each
//! with a random orientation.

use vstd::prelude::*;
use rand::rngs::SmallRng;
use crate::boid::{fits, Boid, Perception, Speed};
use crate::direction::{any_orthogonal, normalizable, normalized, Dir3};
use crate::heading::{lemma_direction_of_orthogonal, Heading};
use crate::tank::Tank;
use crate::vector::{Vec3, Vector, UNIT};

verus! {

/// Speed of a spawned agent, current and maximum: ten world units per second.
pub const SPAWN_SPEED: i64 = 10_000_000;

/// Perception radius of a spawned agent: twenty world units.
pub const SPAWN_PERCEPTION: i64 = 20_000_000;

/// Declares `rand::rngs::SmallRng`, the generator that the flock draws from.
/// Nothing is known of its state.
#[verifier::external_type_specification]
#[verifier::external_body]
pub struct ExSmallRng(rand::rngs::SmallRng);

/// Calls `rand::SeedableRng::seed_from_u64` for `SmallRng`, which derives a
/// full seed from `seed`. Nothing is claimed of the generator that it returns.
#[verifier::external_body]
fn small_rng_from_seed(seed: u64) -> SmallRng {
    <SmallRng as rand::SeedableRng>::seed_from_u64(seed)
}

/// Calls `rand::Rng::random_range` with the half-open range from `low` to
/// `high`. The crate documents that the value lies in the range and that the
/// call panics on an empty range, which `low < high` excludes.
#[verifier::external_body]
fn random_in(rng: &mut SmallRng, low: i64, high: i64) -> (r: i64)
    requires
        low < high,
    ensures
        low <= r < high,
{
    rand::Rng::random_range(rng, low..high)
}

/// The source of randomness for spawning.
pub struct BoidRng(SmallRng);

impl BoidRng {
    /// A generator that repeats its sequence for the same `seed`.
    pub fn seed_from_u64(seed: u64) -> BoidRng {
        BoidRng(small_rng_from_seed(seed))
    }

    /// A coordinate drawn from `-half` up to but not including `half`; zero
    /// where `half` is zero and the range is empty.
    fn coordinate(&mut self, half: i64) -> (c: i64)
        requires
            half >= 0,
        ensures
            drawn_within(c as int, half as int),
    {
        if half > 0 {
            random_in(&mut self.0, -half, half)
        } else {
            0
        }
    }
}

/// `c` may come out of a draw between `-half` and `half`.
pub open spec fn drawn_within(c: int, half: int) -> bool {
    if half > 0 {
        -half <= c < half
    } else {
        c == 0
    }
}

/// The up direction of an agent spawned with the drawn vector `toward`: the
/// direction of `toward`. Where `toward` has none, being the zero vector or
/// beyond `MAX_COORD`, it is the Y axis.
pub open spec fn spawn_up(toward: Vector) -> Vector {
    if normalizable(toward) {
        normalized(toward)
    } else {
        Vector { x: 0, y: UNIT as int, z: 0 }
    }
}

/// The forward direction of an agent spawned with the drawn vector `toward`:
/// the direction of a vector that is exactly orthogonal to its up direction.
pub open spec fn spawn_forward(toward: Vector) -> Vector {
    normalized(any_orthogonal(spawn_up(toward)))
}

/// `boid` is the agent that is spawned at `position` with the drawn vector
/// `toward`: its up and its three desired directions are the direction of
/// `toward`.
pub open spec fn spawned_from(boid: Boid, position: Vec3, toward: Vector) -> bool {
    &&& boid.position == position
    &&& boid.heading.forward@ == spawn_forward(toward)
    &&& boid.heading.up@ == spawn_up(toward)
    &&& boid.speed == (Speed { max: SPAWN_SPEED, current: SPAWN_SPEED })
    &&& boid.perception == (Perception { radius: SPAWN_PERCEPTION })
    &&& boid.desired_alignment.0@ == spawn_up(toward)
    &&& boid.desired_cohesion.0@ == spawn_up(toward)
    &&& boid.desired_separation.0@ == spawn_up(toward)
}

/// `boid` is an agent as `spawn_boids` makes them for `tank`: at a position
/// that may be drawn inside the tank, oriented by some vector that may be
/// drawn from the cube of side two around the origin.
pub open spec fn is_spawn(tank: Tank, boid: Boid) -> bool {
    &&& fits(tank, boid)
    &&& drawn_within(boid.position.x as int, tank.width / 2)
    &&& drawn_within(boid.position.y as int, tank.height / 2)
    &&& drawn_within(boid.position.z as int, tank.depth / 2)
    &&& exists|toward: Vector|
        {
            &&& drawn_within(toward.x, UNIT as int)
            &&& drawn_within(toward.y, UNIT as int)
            &&& drawn_within(toward.z, UNIT as int)
            &&& #[trigger] spawned_from(boid, boid.position, toward)
        }
}

/// The agent that is spawned at `position` with the drawn vector `toward`.
/// Its up direction and its three desired directions are the direction of
/// `toward`, and it looks along a direction orthogonal to that. It starts at
/// ten world units per second and sees twenty world units far.
///
/// A vector without a direction does not fail the spawning: the agent then
/// points up the Y axis. That is deliberate. Nothing in the simulation fails
/// on a degenerate direction; every place that meets one puts a fixed
/// direction in its stead.
pub fn spawn_boid(position: Vec3, toward: Vec3) -> (boid: Boid)
    ensures
        boid.wf(),
        spawned_from(boid, position, toward@),
{
    let up = match Dir3::new(toward) {
        Ok(d) => d,
        Err(_) => Dir3::y_axis(),
    };
    let across: Vec3 = up.any_orthogonal_vector();
    let forward = Dir3::new(across).unwrap();
    proof {
        lemma_direction_of_orthogonal(across@, up@);
    }
    Boid::new(
        position,
        Heading { forward, up },
        Speed { max: SPAWN_SPEED, current: SPAWN_SPEED },
        Perception { radius: SPAWN_PERCEPTION },
    )
}

/// Spawns `num` agents in `tank`, each at a random position inside it and
/// with a random orientation: six draws for each agent, three for where it is
/// and three for where its up points.
///
/// Should the three draws for an orientation all be zero, that agent points
/// up the Y axis and the spawning goes on, as `spawn_boid` says.
pub fn spawn_boids(rng: &mut BoidRng, tank: &Tank, num: u32) -> (boids: Vec<Boid>)
    requires
        tank.wf(),
    ensures
        boids.len() == num,
        forall|i: int| 0 <= i < boids.len() ==> is_spawn(*tank, #[trigger] boids@[i]),
{
    let half = tank.half();
    let mut boids: Vec<Boid> = Vec::new();
    let mut i: u32 = 0;
    while i < num
        invariant
            tank.wf(),
            half@ == tank.half_extents(),
            0 <= i <= num,
            boids.len() == i,
            forall|j: int| 0 <= j < boids.len() ==> is_spawn(*tank, #[trigger] boids@[j]),
        decreases num - i,
    {
        let x: i64 = rng.coordinate(half.x);
        let y: i64 = rng.coordinate(half.y);
        let z: i64 = rng.coordinate(half.z);
        let fx: i64 = rng.coordinate(UNIT);
        let fy: i64 = rng.coordinate(UNIT);
        let fz: i64 = rng.coordinate(UNIT);
        let position = Vec3 { x, y, z };
        let toward = Vec3 { x: fx, y: fy, z: fz };
        let boid = spawn_boid(position, toward);
        assert(is_spawn(*tank, boid)) by {
            assert(spawned_from(boid, boid.position, toward@));
        }
        boids.push(boid);
        i = i + 1;
    }
    boids
}

} // verus!
