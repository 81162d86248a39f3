use boids::boid::{
    AlignmentDir, Boid, CohesionDir, Flock, Perception, SeparationDir, Speed,
    SEPARATION_DISTANCE,
};
use boids::direction::Dir3;
use boids::heading::Heading;
use boids::steering::{alignment, cohesion, neighbors, separation, steer};
use boids::tank::Tank;
use boids::vector::{Vec3, UNIT};

fn units(x: i64, y: i64, z: i64) -> Vec3 {
    Vec3::new(x * UNIT, y * UNIT, z * UNIT)
}

fn agent(position: Vec3, up: Dir3, radius: i64) -> Boid {
    let forward = Dir3::new(up.any_orthogonal_vector()).unwrap();
    Boid {
        position,
        heading: Heading::looking_to(forward, up),
        speed: Speed { max: 10 * UNIT, current: 10 * UNIT },
        perception: Perception { radius },
        desired_alignment: AlignmentDir(Dir3::z_axis()),
        desired_cohesion: CohesionDir(Dir3::z_axis()),
        desired_separation: SeparationDir(Dir3::z_axis()),
    }
}

fn flock_of(boids: Vec<Boid>) -> Flock {
    Flock::new(Tank::standard(), boids).unwrap()
}

#[test]
fn flock_rejects_agents_outside_the_tank() {
    let inside = agent(units(40, 22, -22), Dir3::x_axis(), 8 * UNIT);
    let outside = agent(Vec3::new(40 * UNIT + 1, 0, 0), Dir3::x_axis(), 8 * UNIT);
    assert!(Flock::new(Tank::standard(), vec![inside]).is_some());
    assert!(Flock::new(Tank::standard(), vec![inside, outside]).is_none());
    assert!(Flock::new(Tank::standard(), vec![]).is_some());
}

#[test]
fn flock_rejects_malformed_agents_and_tanks() {
    let good = agent(units(0, 0, 0), Dir3::x_axis(), 8 * UNIT);
    assert_eq!(good.heading.up, Dir3::x_axis());
    let blind = agent(units(0, 0, 0), Dir3::x_axis(), 0);
    let mut hasty = good;
    hasty.speed.current = -1;
    let mut skewed = good;
    skewed.heading = Heading { forward: Dir3::x_axis(), up: Dir3::x_axis() };
    assert!(Flock::new(Tank::standard(), vec![blind]).is_none());
    assert!(Flock::new(Tank::standard(), vec![hasty]).is_none());
    assert!(Flock::new(Tank::standard(), vec![good, skewed]).is_none());
    assert!(Flock::new(Tank { width: -1, height: 1, depth: 1 }, vec![]).is_none());
    let flock = Flock::new(Tank::standard(), vec![good, good]).unwrap();
    assert_eq!(flock.len(), 2);
    assert_eq!(flock.tank(), Tank::standard());
    assert_eq!(flock.boids()[1], good);
}

#[test]
fn neighbor_query_excludes_the_asking_agent() {
    let flock = flock_of(vec![
        agent(units(0, 0, 0), Dir3::x_axis(), 8 * UNIT),
        agent(units(1, 0, 0), Dir3::x_axis(), 8 * UNIT),
        agent(units(0, 2, 0), Dir3::x_axis(), 8 * UNIT),
        agent(units(0, 0, 0), Dir3::x_axis(), 8 * UNIT),
    ]);
    assert_eq!(neighbors(&flock, 0, 8 * UNIT), vec![1, 2, 3]);
    assert_eq!(neighbors(&flock, 2, 8 * UNIT), vec![0, 1, 3]);
    assert_eq!(neighbors(&flock, 3, 8 * UNIT), vec![0, 1, 2]);
    assert_eq!(neighbors(&flock, 3, 0), vec![0]);
    assert_eq!(neighbors(&flock, 1, -1), Vec::<usize>::new());
}

#[test]
fn neighbor_query_keeps_the_boundary_and_drops_what_lies_beyond() {
    let flock = flock_of(vec![
        agent(units(0, 0, 0), Dir3::x_axis(), 8 * UNIT),
        agent(units(3, 4, 0), Dir3::x_axis(), 8 * UNIT),
        agent(Vec3::new(3 * UNIT, 4 * UNIT, 1), Dir3::x_axis(), 8 * UNIT),
        agent(units(-5, 0, 0), Dir3::x_axis(), 8 * UNIT),
    ]);
    assert_eq!(neighbors(&flock, 0, 5 * UNIT), vec![1, 3]);
    assert_eq!(neighbors(&flock, 0, 5 * UNIT - 1), Vec::<usize>::new());
    assert_eq!(neighbors(&flock, 0, 5 * UNIT + 1), vec![1, 2, 3]);
}

#[test]
fn alignment_without_neighbors_changes_nothing() {
    let mut flock = flock_of(vec![
        agent(units(0, 0, 0), Dir3::x_axis(), 8 * UNIT),
        agent(units(9, 0, 0), Dir3::y_axis(), 8 * UNIT),
    ]);
    let before = flock.boids().clone();
    alignment(&mut flock);
    assert_eq!(flock.boids(), &before);
    alignment(&mut flock);
    assert_eq!(flock.boids(), &before);
}

#[test]
fn alignment_takes_the_mean_up_of_the_neighbors() {
    let mut flock = flock_of(vec![
        agent(units(0, 0, 0), Dir3::z_axis(), 8 * UNIT),
        agent(units(1, 0, 0), Dir3::x_axis(), 8 * UNIT),
        agent(units(0, 1, 0), Dir3::y_axis(), 8 * UNIT),
        agent(units(30, 0, 0), Dir3::z_axis().negated(), 8 * UNIT),
    ]);
    let before = flock.boids().clone();
    alignment(&mut flock);
    let after = flock.boids();
    // Agent 0 sees 1 and 2: the mean of X and Y has direction (1, 1, 0).
    assert_eq!(
        after[0].desired_alignment.0.as_vec3(),
        Vec3::new(707_106, 707_106, 0)
    );
    // Agent 1 sees 0 and 2: the mean of Z and Y.
    assert_eq!(
        after[1].desired_alignment.0.as_vec3(),
        Vec3::new(0, 707_106, 707_106)
    );
    // Agent 3 sees nobody.
    assert_eq!(after[3], before[3]);
    // Nothing but the desired alignment has changed.
    for (b, a) in before.iter().zip(after.iter()) {
        let mut expected = *b;
        expected.desired_alignment = a.desired_alignment;
        assert_eq!(*a, expected);
    }
}

#[test]
fn alignment_falls_back_to_own_up_when_neighbors_cancel() {
    let mut flock = flock_of(vec![
        agent(units(0, 0, 0), Dir3::y_axis(), 8 * UNIT),
        agent(units(1, 0, 0), Dir3::x_axis(), 8 * UNIT),
        agent(units(-1, 0, 0), Dir3::x_axis().negated(), 8 * UNIT),
    ]);
    alignment(&mut flock);
    assert_eq!(flock.boids()[0].desired_alignment.0, Dir3::y_axis());
}

#[test]
fn cohesion_points_at_the_mean_position_of_the_neighbors() {
    let mut flock = flock_of(vec![
        agent(units(1, 1, 0), Dir3::x_axis(), 8 * UNIT),
        agent(units(3, 0, 0), Dir3::x_axis(), 8 * UNIT),
        agent(units(3, 8, 0), Dir3::x_axis(), 8 * UNIT),
    ]);
    let before = flock.boids().clone();
    cohesion(&mut flock);
    let after = flock.boids();
    // Agent 0 sees 1 and 2; their mean position is (3, 4, 0).
    assert_eq!(after[0].desired_cohesion.0.as_vec3(), Vec3::new(600_000, 800_000, 0));
    // Agent 1 sees 0 and 2 (at distance 8, on the boundary): mean (2, 4.5, 0).
    assert_eq!(after[1].desired_cohesion.0.as_vec3(), Vec3::new(406_138, 913_811, 0));
    // Agent 2 sees 0 (distance sqrt(53)) and 1: mean (2, 0.5, 0).
    assert_eq!(after[2].desired_cohesion.0.as_vec3(), Vec3::new(970_142, 242_535, 0));
    for (b, a) in before.iter().zip(after.iter()) {
        let mut expected = *b;
        expected.desired_cohesion = a.desired_cohesion;
        assert_eq!(*a, expected);
    }
}

#[test]
fn cohesion_keeps_its_value_when_neighbors_cancel() {
    let mut flock = flock_of(vec![
        agent(units(0, 1, 0), Dir3::x_axis(), 8 * UNIT),
        agent(units(5, 0, 0), Dir3::x_axis(), 8 * UNIT),
        agent(units(-5, 0, 0), Dir3::x_axis(), 8 * UNIT),
    ]);
    cohesion(&mut flock);
    assert_eq!(flock.boids()[0].desired_cohesion.0, Dir3::z_axis());
    // Agent 1 sees only agent 0.
    assert_eq!(flock.boids()[1].desired_cohesion.0, Dir3::y_axis());
}

#[test]
fn cohesion_without_neighbors_changes_nothing() {
    let mut flock = flock_of(vec![
        agent(units(0, 0, 0), Dir3::x_axis(), 8 * UNIT),
        agent(units(0, 0, 9), Dir3::x_axis(), 8 * UNIT),
    ]);
    let before = flock.boids().clone();
    cohesion(&mut flock);
    assert_eq!(flock.boids(), &before);
}

#[test]
fn separation_points_away_from_the_mean_position_nearby() {
    let mut flock = flock_of(vec![
        agent(units(0, 0, 0), Dir3::x_axis(), 2 * UNIT),
        agent(units(3, 4, 0), Dir3::x_axis(), 2 * UNIT),
        agent(units(20, 0, 0), Dir3::x_axis(), 2 * UNIT),
    ]);
    let before = flock.boids().clone();
    separation(&mut flock);
    let after = flock.boids();
    // The separation distance does not depend on the perception radius.
    assert_eq!(
        after[0].desired_separation.0.as_vec3(),
        Vec3::new(-600_000, -800_000, 0)
    );
    // Agent 1 sees agent 0 at the origin: no direction, the value stays.
    assert_eq!(after[1].desired_separation.0, Dir3::z_axis());
    // Agent 2 is farther than ten units from everyone.
    assert_eq!(after[2], before[2]);
    for (b, a) in before.iter().zip(after.iter()) {
        let mut expected = *b;
        expected.desired_separation = a.desired_separation;
        assert_eq!(*a, expected);
    }
}

#[test]
fn separation_threshold_includes_exactly_ten_units() {
    let mut flock = flock_of(vec![
        agent(units(-5, 0, 0), Dir3::x_axis(), 8 * UNIT),
        agent(Vec3::new(-5 * UNIT + SEPARATION_DISTANCE, 0, 0), Dir3::x_axis(), 8 * UNIT),
    ]);
    separation(&mut flock);
    assert_eq!(flock.boids()[0].desired_separation.0, Dir3::x_axis().negated());
    assert_eq!(flock.boids()[1].desired_separation.0, Dir3::x_axis());

    let mut flock = flock_of(vec![
        agent(units(-5, 0, 0), Dir3::x_axis(), 8 * UNIT),
        agent(Vec3::new(-5 * UNIT + SEPARATION_DISTANCE + 1, 0, 0), Dir3::x_axis(), 8 * UNIT),
    ]);
    separation(&mut flock);
    assert_eq!(flock.boids()[0].desired_separation.0, Dir3::z_axis());
    assert_eq!(flock.boids()[1].desired_separation.0, Dir3::z_axis());
}

#[test]
fn separation_keeps_its_value_when_neighbors_cancel() {
    let mut flock = flock_of(vec![
        agent(units(0, 0, 1), Dir3::x_axis(), 8 * UNIT),
        agent(units(0, 4, 0), Dir3::x_axis(), 8 * UNIT),
        agent(units(0, -4, 0), Dir3::x_axis(), 8 * UNIT),
    ]);
    separation(&mut flock);
    assert_eq!(flock.boids()[0].desired_separation.0, Dir3::z_axis());
}

#[test]
fn rules_agree_with_their_per_agent_form() {
    let mut flock = flock_of(vec![
        agent(units(1, 2, 3), Dir3::x_axis(), 8 * UNIT),
        agent(units(-2, 1, 0), Dir3::y_axis(), 8 * UNIT),
        agent(units(4, -3, 2), Dir3::z_axis(), 8 * UNIT),
    ]);
    let wanted: Vec<(Dir3, Dir3, Dir3)> = (0..flock.len())
        .map(|i| (flock.alignment_of(i), flock.cohesion_of(i), flock.separation_of(i)))
        .collect();
    separation(&mut flock);
    cohesion(&mut flock);
    alignment(&mut flock);
    for (i, b) in flock.boids().iter().enumerate() {
        assert_eq!(b.desired_alignment.0, wanted[i].0);
        assert_eq!(b.desired_cohesion.0, wanted[i].1);
        assert_eq!(b.desired_separation.0, wanted[i].2);
    }
}

#[test]
fn steer_runs_all_three_rules_on_the_flock_as_it_was() {
    let boids = vec![
        agent(units(1, 2, 3), Dir3::x_axis(), 8 * UNIT),
        agent(units(-2, 1, 0), Dir3::y_axis(), 8 * UNIT),
        agent(units(4, -3, 2), Dir3::z_axis(), 8 * UNIT),
        agent(units(-30, 0, 0), Dir3::z_axis(), 8 * UNIT),
    ];
    let mut flock = flock_of(boids.clone());
    let wanted: Vec<(Dir3, Dir3, Dir3)> = (0..flock.len())
        .map(|i| (flock.alignment_of(i), flock.cohesion_of(i), flock.separation_of(i)))
        .collect();
    steer(&mut flock);
    for (i, b) in flock.boids().iter().enumerate() {
        assert_eq!(b.desired_alignment.0, wanted[i].0);
        assert_eq!(b.desired_cohesion.0, wanted[i].1);
        assert_eq!(b.desired_separation.0, wanted[i].2);
        assert_eq!(b.position, boids[i].position);
        assert_eq!(b.heading, boids[i].heading);
        assert_eq!(b.speed, boids[i].speed);
        assert_eq!(b.perception, boids[i].perception);
    }
    // Agent 0 sees 1 and 2: mean up (0, 1/2, 1/2), mean position (1, -1, 1).
    assert_eq!(flock.boids()[0].desired_alignment.0.as_vec3(), Vec3::new(0, 707_106, 707_106));
    assert_eq!(flock.boids()[0].desired_cohesion.0.as_vec3(), Vec3::new(577_350, -577_350, 577_350));
    assert_eq!(flock.boids()[0].desired_separation.0.as_vec3(), Vec3::new(-577_350, 577_350, -577_350));
    // Agent 3 is alone.
    assert_eq!(flock.boids()[3], boids[3]);
}
