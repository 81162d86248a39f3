//! The three steering rules. Each looks at the other agents around one agent
//! and gives the direction that the agent should turn to: alignment towards
//! the mean up direction of its neighbours, cohesion towards their mean
//! position, separation away from the mean position of those close by.
//!
//! A rule reads positions and headings and writes only the desired direction
//! that belongs to it, so the three may run in any order within a tick.

use vstd::prelude::*;
use crate::arith::{div_toward_zero, div_trunc};
use crate::boid::{
    all_fit, fits, AlignmentDir, Boid, CohesionDir, Flock, SeparationDir, SEPARATION_DISTANCE,
};
use crate::direction::{lemma_unit_components_bounded, normalized, Dir3};
use crate::tank::Tank;
use crate::vector::{within, Vec3, Vector, MAX_COORD};

verus! {

/// Agent `j` is another agent than `i` and lies within `radius` of it.
pub open spec fn is_neighbor(boids: Seq<Boid>, i: int, j: int, radius: int) -> bool {
    j != i && within(boids[i].position@, boids[j].position@, radius)
}

/// The neighbours of agent `i` among the agents of index below `k`, in
/// ascending order.
pub open spec fn neighbors_below(boids: Seq<Boid>, i: int, radius: int, k: int) -> Seq<int>
    decreases k,
{
    if k <= 0 {
        Seq::empty()
    } else if is_neighbor(boids, i, k - 1, radius) {
        neighbors_below(boids, i, radius, k - 1).push(k - 1)
    } else {
        neighbors_below(boids, i, radius, k - 1)
    }
}

/// The neighbours of agent `i`: every other agent within `radius` of it, in
/// ascending order of index.
pub open spec fn neighbors_of(boids: Seq<Boid>, i: int, radius: int) -> Seq<int> {
    neighbors_below(boids, i, radius, boids.len() as int)
}

/// Sum of the positions of the agents listed in `among`.
pub open spec fn sum_of_positions(boids: Seq<Boid>, among: Seq<int>) -> Vector
    decreases among.len(),
{
    if among.len() == 0 {
        Vector::zero()
    } else {
        sum_of_positions(boids, among.drop_last()).plus(boids[among.last()].position@)
    }
}

/// Sum of the up directions of the agents listed in `among`.
pub open spec fn sum_of_ups(boids: Seq<Boid>, among: Seq<int>) -> Vector
    decreases among.len(),
{
    if among.len() == 0 {
        Vector::zero()
    } else {
        sum_of_ups(boids, among.drop_last()).plus(boids[among.last()].heading.up@)
    }
}

/// The direction of the mean of `count` vectors that add up to `sum`, or
/// `fallback` where the mean is the zero vector and has no direction.
pub open spec fn direction_of_mean(sum: Vector, count: int, fallback: Vector) -> Vector {
    let mean = sum.div_trunc(count);
    if mean == Vector::zero() {
        fallback
    } else {
        normalized(mean)
    }
}

/// What the alignment rule asks of agent `i`: the direction of the mean up
/// direction of its neighbours. With no neighbour the desired alignment
/// stays; where the neighbours' directions cancel, it is the agent's own up.
pub open spec fn aligned(boids: Seq<Boid>, i: int) -> Vector {
    let among = neighbors_of(boids, i, boids[i].perception.radius as int);
    if among.len() == 0 {
        boids[i].desired_alignment.0@
    } else {
        direction_of_mean(sum_of_ups(boids, among), among.len() as int, boids[i].heading.up@)
    }
}

/// What the cohesion rule asks of agent `i`: the direction of the mean
/// position of its neighbours, as seen from the origin. With no neighbour,
/// or a mean at the origin, the desired cohesion stays.
pub open spec fn cohered(boids: Seq<Boid>, i: int) -> Vector {
    let among = neighbors_of(boids, i, boids[i].perception.radius as int);
    if among.len() == 0 {
        boids[i].desired_cohesion.0@
    } else {
        direction_of_mean(
            sum_of_positions(boids, among),
            among.len() as int,
            boids[i].desired_cohesion.0@,
        )
    }
}

/// What the separation rule asks of agent `i`: the direction opposite to the
/// mean position of the agents within `SEPARATION_DISTANCE`, as seen from the
/// origin. With no such agent, or a mean at the origin, the desired
/// separation stays.
pub open spec fn separated(boids: Seq<Boid>, i: int) -> Vector {
    let among = neighbors_of(boids, i, SEPARATION_DISTANCE as int);
    if among.len() == 0 {
        boids[i].desired_separation.0@
    } else {
        direction_of_mean(
            sum_of_positions(boids, among).negated(),
            among.len() as int,
            boids[i].desired_separation.0@,
        )
    }
}

/// `after` is `before` with another desired alignment.
pub open spec fn only_alignment_differs(before: Boid, after: Boid) -> bool {
    after == (Boid { desired_alignment: after.desired_alignment, ..before })
}

/// `after` is `before` with another desired cohesion.
pub open spec fn only_cohesion_differs(before: Boid, after: Boid) -> bool {
    after == (Boid { desired_cohesion: after.desired_cohesion, ..before })
}

/// `after` is `before` with another desired separation.
pub open spec fn only_separation_differs(before: Boid, after: Boid) -> bool {
    after == (Boid { desired_separation: after.desired_separation, ..before })
}

/// An index is listed by `neighbors_below` exactly if it is below `k` and a
/// neighbour of `i`.
pub proof fn lemma_neighbors_below_lists(boids: Seq<Boid>, i: int, radius: int, k: int, j: int)
    requires
        0 <= k,
    ensures
        neighbors_below(boids, i, radius, k).contains(j) <==> (0 <= j < k && is_neighbor(
            boids,
            i,
            j,
            radius,
        )),
    decreases k,
{
    if k > 0 {
        lemma_neighbors_below_lists(boids, i, radius, k - 1, j);
        let rest = neighbors_below(boids, i, radius, k - 1);
        let all = neighbors_below(boids, i, radius, k);
        if is_neighbor(boids, i, k - 1, radius) {
            assert(all == rest.push(k - 1));
            if rest.contains(j) {
                let w = choose|w: int| 0 <= w < rest.len() && rest[w] == j;
                assert(all[w] == j);
            }
            if j == k - 1 {
                assert(all[rest.len() as int] == j);
            }
            if all.contains(j) {
                let w = choose|w: int| 0 <= w < all.len() && all[w] == j;
                if w < rest.len() {
                    assert(rest[w] == j);
                }
            }
        }
    }
}

/// There are at most `k` neighbours of index below `k`, and fewer where `i`
/// itself is below `k`.
pub proof fn lemma_neighbors_below_count(boids: Seq<Boid>, i: int, radius: int, k: int)
    requires
        0 <= k,
    ensures
        neighbors_below(boids, i, radius, k).len() <= k,
        0 <= i < k ==> neighbors_below(boids, i, radius, k).len() <= k - 1,
    decreases k,
{
    if k > 0 {
        lemma_neighbors_below_count(boids, i, radius, k - 1);
    }
}

/// A neighbour query never returns the agent that asks. An agent among `n`
/// others has at most `n` neighbours, and exactly `n` where all the others
/// are within the radius.
pub proof fn lemma_neighbors_exclude_self(boids: Seq<Boid>, i: int, radius: int)
    requires
        0 <= i < boids.len(),
    ensures
        !neighbors_of(boids, i, radius).contains(i),
        neighbors_of(boids, i, radius).len() <= boids.len() - 1,
        (forall|j: int|
            0 <= j < boids.len() && j != i ==> within(
                boids[i].position@,
                (#[trigger] boids[j]).position@,
                radius,
            )) ==> neighbors_of(boids, i, radius).len() == boids.len() - 1,
{
    lemma_neighbors_below_lists(boids, i, radius, boids.len() as int, i);
    lemma_neighbors_below_count(boids, i, radius, boids.len() as int);
    if forall|j: int|
        0 <= j < boids.len() && j != i ==> within(
            boids[i].position@,
            (#[trigger] boids[j]).position@,
            radius,
        ) {
        lemma_all_others_count(boids, i, radius, boids.len() as int);
    }
}

/// Where every other agent is within the radius, the neighbours below `k` are
/// all the agents below `k` but `i`.
proof fn lemma_all_others_count(boids: Seq<Boid>, i: int, radius: int, k: int)
    requires
        0 <= k <= boids.len(),
        0 <= i < boids.len(),
        forall|j: int|
            0 <= j < boids.len() && j != i ==> within(
                boids[i].position@,
                (#[trigger] boids[j]).position@,
                radius,
            ),
    ensures
        neighbors_below(boids, i, radius, k).len() == if i < k {
            k - 1
        } else {
            k
        },
    decreases k,
{
    if k > 0 {
        lemma_all_others_count(boids, i, radius, k - 1);
        if k - 1 != i {
            assert(within(boids[i].position@, boids[k - 1].position@, radius));
        }
    }
}

/// With no other agent within the radius, an agent has no neighbours.
pub proof fn lemma_no_neighbors(boids: Seq<Boid>, i: int, radius: int)
    requires
        forall|j: int|
            0 <= j < boids.len() && j != i ==> !within(
                boids[i].position@,
                (#[trigger] boids[j]).position@,
                radius,
            ),
    ensures
        neighbors_of(boids, i, radius).len() == 0,
{
    lemma_none_below(boids, i, radius, boids.len() as int);
}

proof fn lemma_none_below(boids: Seq<Boid>, i: int, radius: int, k: int)
    requires
        k <= boids.len(),
        forall|j: int|
            0 <= j < boids.len() && j != i ==> !within(
                boids[i].position@,
                (#[trigger] boids[j]).position@,
                radius,
            ),
    ensures
        neighbors_below(boids, i, radius, k).len() == 0,
    decreases k,
{
    if k > 0 {
        lemma_none_below(boids, i, radius, k - 1);
        if k - 1 != i {
            assert(!within(boids[i].position@, boids[k - 1].position@, radius));
        }
    }
}

/// The alignment rule leaves the desired alignment of an agent without
/// neighbours as it is.
pub proof fn lemma_alignment_without_neighbors(boids: Seq<Boid>, i: int)
    requires
        neighbors_of(boids, i, boids[i].perception.radius as int).len() == 0,
    ensures
        aligned(boids, i) == boids[i].desired_alignment.0@,
{
}

/// Where the up directions of an agent's neighbours add up to the zero
/// vector, the alignment rule asks for the agent's own up direction.
pub proof fn lemma_cancelling_neighbors_align_to_own_up(boids: Seq<Boid>, i: int)
    requires
        neighbors_of(boids, i, boids[i].perception.radius as int).len() > 0,
        sum_of_ups(boids, neighbors_of(boids, i, boids[i].perception.radius as int))
            == Vector::zero(),
    ensures
        aligned(boids, i) == boids[i].heading.up@,
{
    lemma_zero_has_zero_mean(
        neighbors_of(boids, i, boids[i].perception.radius as int).len() as int,
    );
}

/// Where the positions of an agent's neighbours add up to the zero vector,
/// the cohesion rule leaves its desired cohesion as it is.
pub proof fn lemma_cancelling_neighbors_keep_cohesion(boids: Seq<Boid>, i: int)
    requires
        sum_of_positions(boids, neighbors_of(boids, i, boids[i].perception.radius as int))
            == Vector::zero(),
    ensures
        cohered(boids, i) == boids[i].desired_cohesion.0@,
{
    let count = neighbors_of(boids, i, boids[i].perception.radius as int).len() as int;
    if count > 0 {
        lemma_zero_has_zero_mean(count);
    }
}

/// Where the positions of the agents close to an agent add up to the zero
/// vector, the separation rule leaves its desired separation as it is.
pub proof fn lemma_cancelling_neighbors_keep_separation(boids: Seq<Boid>, i: int)
    requires
        sum_of_positions(boids, neighbors_of(boids, i, SEPARATION_DISTANCE as int))
            == Vector::zero(),
    ensures
        separated(boids, i) == boids[i].desired_separation.0@,
{
    let count = neighbors_of(boids, i, SEPARATION_DISTANCE as int).len() as int;
    if count > 0 {
        lemma_zero_has_zero_mean(count);
    }
}

/// An agent with no other agent within its perception radius or within the
/// separation distance keeps all three desired directions under the rules.
pub proof fn lemma_isolated_agent_keeps_desires(boids: Seq<Boid>, i: int)
    requires
        forall|j: int|
            0 <= j < boids.len() && j != i ==> !within(
                boids[i].position@,
                (#[trigger] boids[j]).position@,
                boids[i].perception.radius as int,
            ),
        forall|j: int|
            0 <= j < boids.len() && j != i ==> !within(
                boids[i].position@,
                (#[trigger] boids[j]).position@,
                SEPARATION_DISTANCE as int,
            ),
    ensures
        aligned(boids, i) == boids[i].desired_alignment.0@,
        cohered(boids, i) == boids[i].desired_cohesion.0@,
        separated(boids, i) == boids[i].desired_separation.0@,
{
    lemma_no_neighbors(boids, i, boids[i].perception.radius as int);
    lemma_no_neighbors(boids, i, SEPARATION_DISTANCE as int);
}

proof fn lemma_zero_has_zero_mean(count: int)
    by (nonlinear_arith)
    requires
        count > 0,
    ensures
        Vector::zero().div_trunc(count) == Vector::zero(),
        Vector::zero().negated().div_trunc(count) == Vector::zero(),
{
}

/// The two flocks hold agents at the same positions, with the same
/// headings and the same perception.
pub open spec fn same_poses(a: Seq<Boid>, b: Seq<Boid>) -> bool {
    &&& a.len() == b.len()
    &&& forall|j: int|
        0 <= j < a.len() ==> {
            &&& (#[trigger] a[j]).position == b[j].position
            &&& a[j].heading == b[j].heading
            &&& a[j].perception == b[j].perception
        }
}

proof fn lemma_neighbors_depend_on_positions(
    a: Seq<Boid>,
    b: Seq<Boid>,
    i: int,
    radius: int,
    k: int,
)
    requires
        same_poses(a, b),
        0 <= i < a.len(),
        k <= a.len(),
    ensures
        neighbors_below(a, i, radius, k) == neighbors_below(b, i, radius, k),
    decreases k,
{
    if k > 0 {
        lemma_neighbors_depend_on_positions(a, b, i, radius, k - 1);
        assert(a[i].position == b[i].position);
        assert(a[k - 1].position == b[k - 1].position);
    }
}

proof fn lemma_sums_depend_on_poses(a: Seq<Boid>, b: Seq<Boid>, among: Seq<int>)
    requires
        same_poses(a, b),
        forall|x: int| 0 <= x < among.len() ==> 0 <= #[trigger] among[x] < a.len(),
    ensures
        sum_of_positions(a, among) == sum_of_positions(b, among),
        sum_of_ups(a, among) == sum_of_ups(b, among),
    decreases among.len(),
{
    if among.len() > 0 {
        lemma_sums_depend_on_poses(a, b, among.drop_last());
        let last = among.last();
        assert(last == among[among.len() - 1]);
        assert(a[last].position == b[last].position);
        assert(a[last].heading == b[last].heading);
    }
}

/// The agents listed as neighbours are agents of the flock.
proof fn lemma_neighbors_are_agents(boids: Seq<Boid>, i: int, radius: int)
    ensures
        forall|x: int|
            0 <= x < neighbors_of(boids, i, radius).len() ==> 0 <= #[trigger] neighbors_of(
                boids,
                i,
                radius,
            )[x] < boids.len(),
{
    let among = neighbors_of(boids, i, radius);
    assert forall|x: int| 0 <= x < among.len() implies 0 <= #[trigger] among[x] < boids.len() by {
        assert(among.contains(among[x]));
        lemma_neighbors_below_lists(boids, i, radius, boids.len() as int, among[x]);
    }
}

/// A rule reads positions, headings and perception, and of the desired
/// directions only the one that it replaces. So what one rule writes is
/// never seen by another, and the three may run in any order.
pub proof fn lemma_rules_read_poses_only(a: Seq<Boid>, b: Seq<Boid>, i: int)
    requires
        same_poses(a, b),
        0 <= i < a.len(),
    ensures
        a[i].desired_alignment == b[i].desired_alignment ==> aligned(a, i) == aligned(b, i),
        a[i].desired_cohesion == b[i].desired_cohesion ==> cohered(a, i) == cohered(b, i),
        a[i].desired_separation == b[i].desired_separation ==> separated(a, i) == separated(
            b,
            i,
        ),
{
    let seen = a[i].perception.radius as int;
    assert(a[i].perception == b[i].perception);
    assert(a[i].heading == b[i].heading);
    lemma_neighbors_depend_on_positions(a, b, i, seen, a.len() as int);
    lemma_neighbors_depend_on_positions(a, b, i, SEPARATION_DISTANCE as int, a.len() as int);
    lemma_neighbors_are_agents(a, i, seen);
    lemma_neighbors_are_agents(a, i, SEPARATION_DISTANCE as int);
    lemma_sums_depend_on_poses(a, b, neighbors_of(a, i, seen));
    lemma_sums_depend_on_poses(a, b, neighbors_of(a, i, SEPARATION_DISTANCE as int));
}

/// `after` is `before` with other desired directions.
pub open spec fn only_desires_differ(before: Boid, after: Boid) -> bool {
    after == (Boid {
        desired_alignment: after.desired_alignment,
        desired_cohesion: after.desired_cohesion,
        desired_separation: after.desired_separation,
        ..before
    })
}

/// A sum of three coordinates that are too wide for one machine word.
struct Wide {
    x: i128,
    y: i128,
    z: i128,
}

impl Wide {
    spec fn vector(&self) -> Vector {
        Vector { x: self.x as int, y: self.y as int, z: self.z as int }
    }

    /// No component exceeds `count` times `bound` in magnitude.
    spec fn bounded(&self, count: int, bound: int) -> bool {
        &&& -count * bound <= self.x <= count * bound
        &&& -count * bound <= self.y <= count * bound
        &&& -count * bound <= self.z <= count * bound
    }
}

/// What one agent sees around it: how many neighbours, and the sums of their
/// positions and of their up directions.
struct Survey {
    count: usize,
    positions: Wide,
    ups: Wide,
}

proof fn lemma_bound_grows(count: int, bound: int, old_sum: int, term: int)
    by (nonlinear_arith)
    requires
        0 <= count,
        0 <= bound,
        -count * bound <= old_sum <= count * bound,
        -bound <= term <= bound,
    ensures
        -(count + 1) * bound <= old_sum + term <= (count + 1) * bound,
{
}

proof fn lemma_count_times_bound(count: int, bound: int)
    by (nonlinear_arith)
    requires
        0 <= count <= 0xffff_ffff_ffff_ffff,
        0 <= bound <= MAX_COORD,
    ensures
        0 <= count * bound <= 0xffff_ffff_ffff_ffff * MAX_COORD,
{
}

/// Walks over the flock once and adds up what agent `i` sees within `radius`.
fn survey(tank: Tank, boids: &Vec<Boid>, i: usize, radius: i64) -> (s: Survey)
    requires
        all_fit(tank, boids@),
        i < boids.len(),
    ensures
        s.count == neighbors_of(boids@, i as int, radius as int).len(),
        s.positions.vector() == sum_of_positions(
            boids@,
            neighbors_of(boids@, i as int, radius as int),
        ),
        s.ups.vector() == sum_of_ups(boids@, neighbors_of(boids@, i as int, radius as int)),
        s.positions.bounded(s.count as int, MAX_COORD as int),
        s.ups.bounded(s.count as int, MAX_COORD as int),
{
    let n: usize = boids.len();
    let me: Vec3 = boids[i].position;
    let mut count: usize = 0;
    let mut positions = Wide { x: 0, y: 0, z: 0 };
    let mut ups = Wide { x: 0, y: 0, z: 0 };
    let mut k: usize = 0;
    while k < n
        invariant
            n == boids.len(),
            i < n,
            0 <= k <= n,
            all_fit(tank, boids@),
            me == boids@[i as int].position,
            count == neighbors_below(boids@, i as int, radius as int, k as int).len(),
            count <= k,
            positions.vector() == sum_of_positions(
                boids@,
                neighbors_below(boids@, i as int, radius as int, k as int),
            ),
            ups.vector() == sum_of_ups(
                boids@,
                neighbors_below(boids@, i as int, radius as int, k as int),
            ),
            positions.bounded(count as int, MAX_COORD as int),
            ups.bounded(count as int, MAX_COORD as int),
        decreases n - k,
    {
        let other: Boid = boids[k];
        if k != i && me.within(&other.position, radius) {
            proof {
                let before = neighbors_below(boids@, i as int, radius as int, k as int);
                let after = neighbors_below(boids@, i as int, radius as int, k as int + 1);
                assert(is_neighbor(boids@, i as int, k as int, radius as int));
                assert(after == before.push(k as int));
                assert(after.drop_last() =~= before);
                assert(after.last() == k as int);
                assert(fits(tank, boids@[k as int]));
                lemma_unit_components_bounded(other.heading.up@);
                let c = count as int;
                let b = MAX_COORD as int;
                lemma_count_times_bound(c, b);
                lemma_bound_grows(c, b, positions.x as int, other.position.x as int);
                lemma_bound_grows(c, b, positions.y as int, other.position.y as int);
                lemma_bound_grows(c, b, positions.z as int, other.position.z as int);
                lemma_bound_grows(c, b, ups.x as int, other.heading.up@.x);
                lemma_bound_grows(c, b, ups.y as int, other.heading.up@.y);
                lemma_bound_grows(c, b, ups.z as int, other.heading.up@.z);
            }
            let up: Vec3 = other.heading.up.as_vec3();
            positions = Wide {
                x: positions.x + other.position.x as i128,
                y: positions.y + other.position.y as i128,
                z: positions.z + other.position.z as i128,
            };
            ups = Wide {
                x: ups.x + up.x as i128,
                y: ups.y + up.y as i128,
                z: ups.z + up.z as i128,
            };
            count = count + 1;
        } else {
            assert(!is_neighbor(boids@, i as int, k as int, radius as int));
        }
        k = k + 1;
    }
    Survey { count, positions, ups }
}

proof fn lemma_mean_bounded(n: int, c: int, b: int)
    by (nonlinear_arith)
    requires
        c > 0,
        b >= 0,
        -c * b <= n <= c * b,
    ensures
        -b <= div_trunc(n, c) <= b,
{
}

/// The direction of the mean of `count` vectors that add up to `sum`, or
/// `fallback` where that mean is the zero vector.
fn mean_direction(sum: Wide, count: usize, fallback: Dir3) -> (d: Dir3)
    requires
        count > 0,
        sum.bounded(count as int, MAX_COORD as int),
        fallback.wf(),
    ensures
        d@ == direction_of_mean(sum.vector(), count as int, fallback@),
        d.wf(),
{
    let c: i128 = count as i128;
    proof {
        lemma_count_times_bound(count as int, MAX_COORD as int);
        lemma_mean_bounded(sum.x as int, c as int, MAX_COORD as int);
        lemma_mean_bounded(sum.y as int, c as int, MAX_COORD as int);
        lemma_mean_bounded(sum.z as int, c as int, MAX_COORD as int);
    }
    let mean = Vec3 {
        x: div_toward_zero(sum.x, c) as i64,
        y: div_toward_zero(sum.y, c) as i64,
        z: div_toward_zero(sum.z, c) as i64,
    };
    match Dir3::new(mean) {
        Ok(d) => d,
        Err(_) => fallback,
    }
}

/// The neighbour query: the indices of the other agents within `radius` of
/// agent `i`, in ascending order. The agent itself is never among them.
pub fn neighbors(flock: &Flock, i: usize, radius: i64) -> (found: Vec<usize>)
    requires
        i < flock.agents().len(),
    ensures
        found@.map_values(|j: usize| j as int) == neighbors_of(
            flock.agents(),
            i as int,
            radius as int,
        ),
{
    let boids = flock.boids();
    let n: usize = boids.len();
    let me: Vec3 = boids[i].position;
    let mut found: Vec<usize> = Vec::new();
    let mut k: usize = 0;
    while k < n
        invariant
            n == boids.len(),
            i < n,
            0 <= k <= n,
            me == boids@[i as int].position,
            found@.map_values(|j: usize| j as int) == neighbors_below(
                boids@,
                i as int,
                radius as int,
                k as int,
            ),
        decreases n - k,
    {
        if k != i && me.within(&boids[k].position, radius) {
            let ghost before = found@;
            found.push(k);
            assert(found@.map_values(|j: usize| j as int) =~= before.map_values(
                |j: usize| j as int,
            ).push(k as int));
        }
        k = k + 1;
    }
    found
}

impl Flock {
    /// The direction that the alignment rule asks of agent `i`.
    pub fn alignment_of(&self, i: usize) -> (d: Dir3)
        requires
            self.wf(),
            i < self.agents().len(),
        ensures
            d@ == aligned(self.agents(), i as int),
            d.wf(),
    {
        let boids = self.boids();
        let me: Boid = boids[i];
        assert(fits(self.bounds(), boids@[i as int]));
        let seen = survey(self.tank(), boids, i, me.perception.radius);
        if seen.count > 0 {
            mean_direction(seen.ups, seen.count, me.heading.up)
        } else {
            me.desired_alignment.0
        }
    }

    /// The direction that the cohesion rule asks of agent `i`.
    pub fn cohesion_of(&self, i: usize) -> (d: Dir3)
        requires
            self.wf(),
            i < self.agents().len(),
        ensures
            d@ == cohered(self.agents(), i as int),
            d.wf(),
    {
        let boids = self.boids();
        let me: Boid = boids[i];
        assert(fits(self.bounds(), boids@[i as int]));
        let seen = survey(self.tank(), boids, i, me.perception.radius);
        if seen.count > 0 {
            mean_direction(seen.positions, seen.count, me.desired_cohesion.0)
        } else {
            me.desired_cohesion.0
        }
    }

    /// The direction that the separation rule asks of agent `i`.
    pub fn separation_of(&self, i: usize) -> (d: Dir3)
        requires
            self.wf(),
            i < self.agents().len(),
        ensures
            d@ == separated(self.agents(), i as int),
            d.wf(),
    {
        let boids = self.boids();
        let me: Boid = boids[i];
        assert(fits(self.bounds(), boids@[i as int]));
        let seen = survey(self.tank(), boids, i, SEPARATION_DISTANCE);
        if seen.count > 0 {
            proof {
                lemma_count_times_bound(seen.count as int, MAX_COORD as int);
            }
            let away = Wide { x: -seen.positions.x, y: -seen.positions.y, z: -seen.positions.z };
            mean_direction(away, seen.count, me.desired_separation.0)
        } else {
            me.desired_separation.0
        }
    }
}

/// The alignment rule for the whole flock. Every agent's desired alignment
/// becomes what the rule asks of it in the flock as it was; nothing else
/// changes.
pub fn alignment(flock: &mut Flock)
    requires
        old(flock).wf(),
    ensures
        final(flock).wf(),
        final(flock).bounds() == old(flock).bounds(),
        final(flock).agents().len() == old(flock).agents().len(),
        forall|i: int|
            0 <= i < old(flock).agents().len() ==> {
                let after = #[trigger] final(flock).agents()[i];
                &&& after.desired_alignment.0@ == aligned(old(flock).agents(), i)
                &&& only_alignment_differs(old(flock).agents()[i], after)
            },
{
    let n: usize = flock.len();
    let mut desired: Vec<Dir3> = Vec::new();
    let mut i: usize = 0;
    while i < n
        invariant
            flock.wf(),
            n == flock.agents().len(),
            0 <= i <= n,
            desired.len() == i,
            forall|j: int|
                0 <= j < i ==> (#[trigger] desired@[j])@ == aligned(flock.agents(), j)
                    && desired@[j].wf(),
        decreases n - i,
    {
        desired.push(flock.alignment_of(i));
        i = i + 1;
    }
    let ghost before = flock.agents();
    i = 0;
    while i < n
        invariant
            flock.wf(),
            flock.bounds() == old(flock).bounds(),
            before == old(flock).agents(),
            n == before.len(),
            n == flock.agents().len(),
            0 <= i <= n,
            desired.len() == n,
            forall|j: int|
                0 <= j < n ==> (#[trigger] desired@[j])@ == aligned(before, j) && desired@[j].wf(),
            forall|j: int| i <= j < n ==> #[trigger] flock.agents()[j] == before[j],
            forall|j: int|
                0 <= j < i ==> {
                    let after = #[trigger] flock.agents()[j];
                    &&& after.desired_alignment.0@ == aligned(before, j)
                    &&& only_alignment_differs(before[j], after)
                },
        decreases n - i,
    {
        let mut boid: Boid = flock.boids()[i];
        assert(fits(flock.bounds(), flock.agents()[i as int]));
        boid.desired_alignment = AlignmentDir(desired[i]);
        flock.put(i, boid);
        assert(fits(flock.bounds(), flock.agents()[i as int]));
        i = i + 1;
    }
}

/// The cohesion rule for the whole flock. Every agent's desired cohesion
/// becomes what the rule asks of it in the flock as it was; nothing else
/// changes.
pub fn cohesion(flock: &mut Flock)
    requires
        old(flock).wf(),
    ensures
        final(flock).wf(),
        final(flock).bounds() == old(flock).bounds(),
        final(flock).agents().len() == old(flock).agents().len(),
        forall|i: int|
            0 <= i < old(flock).agents().len() ==> {
                let after = #[trigger] final(flock).agents()[i];
                &&& after.desired_cohesion.0@ == cohered(old(flock).agents(), i)
                &&& only_cohesion_differs(old(flock).agents()[i], after)
            },
{
    let n: usize = flock.len();
    let mut desired: Vec<Dir3> = Vec::new();
    let mut i: usize = 0;
    while i < n
        invariant
            flock.wf(),
            n == flock.agents().len(),
            0 <= i <= n,
            desired.len() == i,
            forall|j: int|
                0 <= j < i ==> (#[trigger] desired@[j])@ == cohered(flock.agents(), j)
                    && desired@[j].wf(),
        decreases n - i,
    {
        desired.push(flock.cohesion_of(i));
        i = i + 1;
    }
    let ghost before = flock.agents();
    i = 0;
    while i < n
        invariant
            flock.wf(),
            flock.bounds() == old(flock).bounds(),
            before == old(flock).agents(),
            n == before.len(),
            n == flock.agents().len(),
            0 <= i <= n,
            desired.len() == n,
            forall|j: int|
                0 <= j < n ==> (#[trigger] desired@[j])@ == cohered(before, j) && desired@[j].wf(),
            forall|j: int| i <= j < n ==> #[trigger] flock.agents()[j] == before[j],
            forall|j: int|
                0 <= j < i ==> {
                    let after = #[trigger] flock.agents()[j];
                    &&& after.desired_cohesion.0@ == cohered(before, j)
                    &&& only_cohesion_differs(before[j], after)
                },
        decreases n - i,
    {
        let mut boid: Boid = flock.boids()[i];
        assert(fits(flock.bounds(), flock.agents()[i as int]));
        boid.desired_cohesion = CohesionDir(desired[i]);
        flock.put(i, boid);
        assert(fits(flock.bounds(), flock.agents()[i as int]));
        i = i + 1;
    }
}

/// The separation rule for the whole flock. Every agent's desired separation
/// becomes what the rule asks of it in the flock as it was; nothing else
/// changes.
pub fn separation(flock: &mut Flock)
    requires
        old(flock).wf(),
    ensures
        final(flock).wf(),
        final(flock).bounds() == old(flock).bounds(),
        final(flock).agents().len() == old(flock).agents().len(),
        forall|i: int|
            0 <= i < old(flock).agents().len() ==> {
                let after = #[trigger] final(flock).agents()[i];
                &&& after.desired_separation.0@ == separated(old(flock).agents(), i)
                &&& only_separation_differs(old(flock).agents()[i], after)
            },
{
    let n: usize = flock.len();
    let mut desired: Vec<Dir3> = Vec::new();
    let mut i: usize = 0;
    while i < n
        invariant
            flock.wf(),
            n == flock.agents().len(),
            0 <= i <= n,
            desired.len() == i,
            forall|j: int|
                0 <= j < i ==> (#[trigger] desired@[j])@ == separated(flock.agents(), j)
                    && desired@[j].wf(),
        decreases n - i,
    {
        desired.push(flock.separation_of(i));
        i = i + 1;
    }
    let ghost before = flock.agents();
    i = 0;
    while i < n
        invariant
            flock.wf(),
            flock.bounds() == old(flock).bounds(),
            before == old(flock).agents(),
            n == before.len(),
            n == flock.agents().len(),
            0 <= i <= n,
            desired.len() == n,
            forall|j: int|
                0 <= j < n ==> (#[trigger] desired@[j])@ == separated(before, j)
                    && desired@[j].wf(),
            forall|j: int| i <= j < n ==> #[trigger] flock.agents()[j] == before[j],
            forall|j: int|
                0 <= j < i ==> {
                    let after = #[trigger] flock.agents()[j];
                    &&& after.desired_separation.0@ == separated(before, j)
                    &&& only_separation_differs(before[j], after)
                },
        decreases n - i,
    {
        let mut boid: Boid = flock.boids()[i];
        assert(fits(flock.bounds(), flock.agents()[i as int]));
        boid.desired_separation = SeparationDir(desired[i]);
        flock.put(i, boid);
        assert(fits(flock.bounds(), flock.agents()[i as int]));
        i = i + 1;
    }
}

/// The steering phase of a tick: all three rules, each for every agent. Every
/// desired direction becomes what its rule asks in the flock as it was when
/// the phase began, whatever the order in which rules and agents are taken.
/// Positions and headings are not touched.
pub fn steer(flock: &mut Flock)
    requires
        old(flock).wf(),
    ensures
        final(flock).wf(),
        final(flock).bounds() == old(flock).bounds(),
        final(flock).agents().len() == old(flock).agents().len(),
        forall|i: int|
            0 <= i < old(flock).agents().len() ==> {
                let after = #[trigger] final(flock).agents()[i];
                &&& after.desired_alignment.0@ == aligned(old(flock).agents(), i)
                &&& after.desired_cohesion.0@ == cohered(old(flock).agents(), i)
                &&& after.desired_separation.0@ == separated(old(flock).agents(), i)
                &&& only_desires_differ(old(flock).agents()[i], after)
            },
{
    let ghost first = flock.agents();
    alignment(flock);
    let ghost second = flock.agents();
    cohesion(flock);
    let ghost third = flock.agents();
    separation(flock);
    proof {
        let last = flock.agents();
        assert forall|i: int| 0 <= i < first.len() implies {
            let after = #[trigger] last[i];
            &&& after.desired_alignment.0@ == aligned(first, i)
            &&& after.desired_cohesion.0@ == cohered(first, i)
            &&& after.desired_separation.0@ == separated(first, i)
            &&& only_desires_differ(first[i], after)
        } by {
            assert(same_poses(first, second)) by {
                assert forall|j: int| 0 <= j < first.len() implies {
                    &&& (#[trigger] first[j]).position == second[j].position
                    &&& first[j].heading == second[j].heading
                    &&& first[j].perception == second[j].perception
                } by {
                    assert(only_alignment_differs(first[j], second[j]));
                }
            }
            assert(same_poses(first, third)) by {
                assert forall|j: int| 0 <= j < first.len() implies {
                    &&& (#[trigger] first[j]).position == third[j].position
                    &&& first[j].heading == third[j].heading
                    &&& first[j].perception == third[j].perception
                } by {
                    assert(only_alignment_differs(first[j], second[j]));
                    assert(only_cohesion_differs(second[j], third[j]));
                }
            }
            assert(only_alignment_differs(first[i], second[i]));
            assert(only_cohesion_differs(second[i], third[i]));
            assert(only_separation_differs(third[i], last[i]));
            lemma_rules_read_poses_only(first, second, i);
            lemma_rules_read_poses_only(first, third, i);
        }
    }
}

} // verus!
