use boids::boid::{Flock, Perception, Speed};
use boids::direction::Dir3;
use boids::heading::Heading;
use boids::spawn::{spawn_boid, spawn_boids, BoidRng, SPAWN_PERCEPTION, SPAWN_SPEED};
use boids::tank::Tank;
use boids::vector::{Vec3, MAX_COORD, UNIT};

#[test]
fn spawned_agent_is_oriented_by_the_drawn_vector() {
    let b = spawn_boid(Vec3::new(1, 2, 3), Vec3::new(3, 4, 0));
    assert_eq!(b.position, Vec3::new(1, 2, 3));
    assert_eq!(b.heading.up.as_vec3(), Vec3::new(600_000, 800_000, 0));
    assert_eq!(b.heading.forward.as_vec3(), Vec3::new(0, 0, -UNIT));
    assert_eq!(b.speed, Speed { max: SPAWN_SPEED, current: SPAWN_SPEED });
    assert_eq!(b.speed.current, 10 * UNIT);
    assert_eq!(b.perception, Perception { radius: SPAWN_PERCEPTION });
    assert_eq!(b.perception.radius, 20 * UNIT);
    assert_eq!(b.desired_alignment.0, b.heading.up);
    assert_eq!(b.desired_cohesion.0, b.heading.up);
    assert_eq!(b.desired_separation.0, b.heading.up);
    assert!(b.is_well_formed());
}

#[test]
fn spawned_agent_desires_the_drawn_direction() {
    let b = spawn_boid(Vec3::new(0, 0, 0), Vec3::new(923_882, 0, 382_678));
    let drawn = Dir3::new(Vec3::new(923_882, 0, 382_678)).unwrap();
    assert_eq!(drawn.as_vec3(), Vec3::new(923_881, 0, 382_677));
    assert_eq!(b.heading.up, drawn);
    assert_eq!(b.desired_alignment.0, drawn);
    assert_eq!(b.desired_cohesion.0, drawn);
    assert_eq!(b.desired_separation.0, drawn);
    assert_eq!(b.heading.forward.as_vec3(), Vec3::new(-382_677, 0, 923_882));
    assert!(b.heading.is_well_formed());
}

#[test]
fn spawned_agent_without_a_direction_points_up_the_y_axis() {
    let b = spawn_boid(Vec3::new(0, 0, 0), Vec3::new(0, 0, 0));
    assert_eq!(b.heading, Heading { forward: Dir3::z_axis().negated(), up: Dir3::y_axis() });
    assert_eq!(b.desired_alignment.0, Dir3::y_axis());
    assert_eq!(b.desired_cohesion.0, Dir3::y_axis());
    assert_eq!(b.desired_separation.0, Dir3::y_axis());
    let c = spawn_boid(Vec3::new(0, 0, 0), Vec3::new(MAX_COORD + 1, 1, 1));
    assert_eq!(c.heading.up, Dir3::y_axis());
}

#[test]
fn spawn_fills_the_tank_with_well_formed_agents() {
    let tank = Tank::standard();
    let mut rng = BoidRng::seed_from_u64(7);
    let boids = spawn_boids(&mut rng, &tank, 1000);
    assert_eq!(boids.len(), 1000);
    for b in &boids {
        assert!(b.is_well_formed());
        assert!(tank.holds(&b.position));
        assert!(b.position.x < 40_000_000 && b.position.y < 22_500_000);
        assert_eq!(b.speed, Speed { max: 10 * UNIT, current: 10 * UNIT });
        assert_eq!(b.perception.radius, 20 * UNIT);
        assert_eq!(b.desired_alignment.0, b.heading.up);
        assert_eq!(b.desired_cohesion.0, b.heading.up);
        assert_eq!(b.desired_separation.0, b.heading.up);
        let (f, u) = (b.heading.forward.as_vec3(), b.heading.up.as_vec3());
        let dot = f.x as i128 * u.x as i128 + f.y as i128 * u.y as i128 + f.z as i128 * u.z as i128;
        assert!(dot.abs() <= 4 * UNIT as i128, "forward and up are {} from orthogonal", dot);
    }
    assert!(Flock::new(tank, boids).is_some());
}

#[test]
fn spawn_draws_differ_from_agent_to_agent() {
    let tank = Tank::standard();
    let mut rng = BoidRng::seed_from_u64(1);
    let boids = spawn_boids(&mut rng, &tank, 50);
    let first = boids[0];
    assert!(boids.iter().any(|b| b.position.x != first.position.x));
    assert!(boids.iter().any(|b| b.position.y != first.position.y));
    assert!(boids.iter().any(|b| b.position.z != first.position.z));
    assert!(boids.iter().any(|b| b.heading.up != first.heading.up));
    assert!(boids.iter().any(|b| b.position.x < 0));
    assert!(boids.iter().any(|b| b.position.x > 0));
    // The draws are not the bounds handed to the generator.
    assert!(boids.iter().any(|b| b.position.x != -40_000_000 && b.position.x != 40_000_000));
}

#[test]
fn spawn_repeats_for_the_same_seed() {
    let tank = Tank::standard();
    let a = spawn_boids(&mut BoidRng::seed_from_u64(42), &tank, 20);
    let b = spawn_boids(&mut BoidRng::seed_from_u64(42), &tank, 20);
    let c = spawn_boids(&mut BoidRng::seed_from_u64(43), &tank, 20);
    assert_eq!(a, b);
    assert_ne!(a, c);
}

#[test]
fn spawn_in_a_tiny_tank_stays_inside() {
    let tank = Tank { width: 2, height: 4, depth: 6 };
    let boids = spawn_boids(&mut BoidRng::seed_from_u64(u64::MAX), &tank, 200);
    assert_eq!(boids.len(), 200);
    for b in &boids {
        assert!(-1 <= b.position.x && b.position.x < 1);
        assert!(-2 <= b.position.y && b.position.y < 2);
        assert!(-3 <= b.position.z && b.position.z < 3);
    }
    assert!(boids.iter().any(|b| b.position.z != boids[0].position.z));
}

#[test]
fn spawn_in_a_flat_tank_and_of_nobody() {
    let flat = Tank { width: 0, height: 1, depth: 10 * UNIT };
    let mut rng = BoidRng::seed_from_u64(3);
    let boids = spawn_boids(&mut rng, &flat, 30);
    for b in &boids {
        assert_eq!(b.position.x, 0);
        assert_eq!(b.position.y, 0);
        assert!(flat.holds(&b.position));
    }
    assert!(spawn_boids(&mut rng, &flat, 0).is_empty());
}
