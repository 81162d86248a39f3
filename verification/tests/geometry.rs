use boids::arith::{div_toward_zero, isqrt};
use boids::direction::{
    Dir3, InvalidDirectionError, ORTHONORMAL_DOT_SLACK, ORTHONORMAL_SLACK, UNIT_SLACK, UNIT_SQ,
};
use boids::heading::{Heading, ORTHO_SLACK};
use boids::tank::{wrap_coordinate, Tank, TANK_DEPTH, TANK_HEIGHT, TANK_WIDTH};
use boids::vector::{Vec3, MAX_COORD, UNIT};

fn norm_sq(v: Vec3) -> i128 {
    let (x, y, z) = (v.x as i128, v.y as i128, v.z as i128);
    x * x + y * y + z * z
}

fn dot(a: Vec3, b: Vec3) -> i128 {
    a.x as i128 * b.x as i128 + a.y as i128 * b.y as i128 + a.z as i128 * b.z as i128
}

fn dir(x: i64, y: i64, z: i64) -> Dir3 {
    Dir3::new(Vec3::new(x, y, z)).unwrap()
}

#[test]
fn division_rounds_towards_zero() {
    assert_eq!(div_toward_zero(7, 2), 3);
    assert_eq!(div_toward_zero(-7, 2), -3);
    assert_eq!(div_toward_zero(-1, 2), 0);
    assert_eq!(div_toward_zero(0, 5), 0);
    assert_eq!(div_toward_zero(-10, 5), -2);
}

#[test]
fn integer_square_root_is_the_floor() {
    assert_eq!(isqrt(0), 0);
    assert_eq!(isqrt(1), 1);
    assert_eq!(isqrt(3), 1);
    assert_eq!(isqrt(4), 2);
    assert_eq!(isqrt(24), 4);
    assert_eq!(isqrt(25), 5);
    assert_eq!(isqrt(1_000_000_000_000), 1_000_000);
    assert_eq!(isqrt(999_999_999_999), 999_999);
    assert_eq!(isqrt(u128::MAX), u64::MAX as u128);
}

#[test]
fn within_includes_the_boundary() {
    let a = Vec3::new(0, 0, 0);
    let b = Vec3::new(3, 4, 0);
    assert!(a.within(&b, 5));
    assert!(!a.within(&b, 4));
    assert!(a.within(&b, 6));
    assert!(b.within(&a, 5));
    assert!(a.within(&a, 0));
    assert!(!a.within(&a, -1));
}

#[test]
fn within_box_bounds_every_component() {
    let v = Vec3::new(3, -4, 0);
    assert!(v.within_box(4));
    assert!(!v.within_box(3));
    assert!(v.within_box(i64::MAX));
    assert!(!v.within_box(-1));
    assert!(!Vec3::zero().within_box(i64::MIN));
    assert!(Vec3::zero().within_box(0));
    assert_eq!(Vec3::zero(), Vec3::new(0, 0, 0));
}

#[test]
fn within_copes_with_the_widest_coordinates() {
    let a = Vec3::new(i64::MIN, i64::MIN, i64::MIN);
    let b = Vec3::new(i64::MAX, i64::MAX, i64::MAX);
    assert!(!a.within(&b, i64::MAX));
    assert!(a.within(&a, i64::MAX));
    let c = Vec3::new(i64::MIN + i64::MAX, i64::MIN, i64::MIN);
    assert!(a.within(&c, i64::MAX));
}

#[test]
fn normalising_scales_to_unit_length() {
    assert_eq!(dir(3, 4, 0).as_vec3(), Vec3::new(600_000, 800_000, 0));
    assert_eq!(dir(-3, 0, -4).as_vec3(), Vec3::new(-600_000, 0, -800_000));
    assert_eq!(dir(1, 1, 1).as_vec3(), Vec3::new(577_350, 577_350, 577_350));
    assert_eq!(dir(0, 0, 7).as_vec3(), Vec3::new(0, 0, UNIT));
    assert_eq!(dir(0, -MAX_COORD, 0).as_vec3(), Vec3::new(0, -UNIT, 0));
    assert_eq!(dir(3_000_000, 0, 0).as_vec3(), Vec3::new(UNIT, 0, 0));
}

#[test]
fn normalising_rejects_what_has_no_direction() {
    assert_eq!(Dir3::new(Vec3::new(0, 0, 0)), Err(InvalidDirectionError::Zero));
    assert_eq!(
        Dir3::new(Vec3::new(MAX_COORD + 1, 0, 0)),
        Err(InvalidDirectionError::TooLong)
    );
    assert_eq!(
        Dir3::new(Vec3::new(1, 0, -MAX_COORD - 1)),
        Err(InvalidDirectionError::TooLong)
    );
    assert!(Dir3::new(Vec3::new(MAX_COORD, MAX_COORD, MAX_COORD)).is_ok());
}

#[test]
fn directions_are_of_unit_length_within_the_slack() {
    let samples = [
        Vec3::new(1, 2, 3),
        Vec3::new(-7, 11, 13),
        Vec3::new(999_983, -1, 17),
        Vec3::new(MAX_COORD, MAX_COORD - 1, -MAX_COORD),
        Vec3::new(1, 0, 0),
        Vec3::new(123_456_789, -987_654_321, 555),
    ];
    for v in samples {
        let d = Dir3::new(v).unwrap();
        assert!(d.is_well_formed());
        let off = norm_sq(d.as_vec3()) - UNIT_SQ;
        assert!(off.abs() <= UNIT_SLACK as i128, "{:?} is off by {}", v, off);
    }
}

#[test]
fn axes_and_negation() {
    assert_eq!(Dir3::x_axis().as_vec3(), Vec3::new(UNIT, 0, 0));
    assert_eq!(Dir3::y_axis().as_vec3(), Vec3::new(0, UNIT, 0));
    assert_eq!(Dir3::z_axis().as_vec3(), Vec3::new(0, 0, UNIT));
    assert_eq!(Dir3::z_axis().negated().as_vec3(), Vec3::new(0, 0, -UNIT));
    assert_eq!(dir(3, 4, 0).negated().as_vec3(), Vec3::new(-600_000, -800_000, 0));
}

#[test]
fn cross_product_of_the_axes() {
    let x = Dir3::x_axis();
    let y = Dir3::y_axis();
    let z = Dir3::z_axis();
    assert_eq!(x.cross(&y), Vec3::new(0, 0, UNIT * UNIT));
    assert_eq!(y.cross(&z), Vec3::new(UNIT * UNIT, 0, 0));
    assert_eq!(z.cross(&x), Vec3::new(0, UNIT * UNIT, 0));
    assert_eq!(y.cross(&x), Vec3::new(0, 0, -UNIT * UNIT));
    assert_eq!(x.cross(&x), Vec3::new(0, 0, 0));
}

#[test]
fn any_orthogonal_vector_is_orthogonal() {
    assert_eq!(Dir3::x_axis().any_orthogonal_vector(), Vec3::new(0, 0, UNIT));
    assert_eq!(Dir3::y_axis().any_orthogonal_vector(), Vec3::new(0, 0, -UNIT));
    assert_eq!(Dir3::z_axis().any_orthogonal_vector(), Vec3::new(0, UNIT, 0));
    let d = dir(3, 4, 12);
    let o = d.any_orthogonal_vector();
    assert_eq!(dot(o, d.as_vec3()), 0);
    assert_ne!(o, Vec3::new(0, 0, 0));
    let e = dir(-9, 2, 5);
    assert_eq!(dot(e.any_orthogonal_vector(), e.as_vec3()), 0);
}

#[test]
fn any_orthonormal_vector_of_the_axes() {
    assert_eq!(Dir3::x_axis().any_orthonormal_vector(), Vec3::new(0, UNIT, 0));
    assert_eq!(Dir3::y_axis().any_orthonormal_vector(), Vec3::new(0, 0, -UNIT));
    assert_eq!(Dir3::z_axis().any_orthonormal_vector(), Vec3::new(0, UNIT, 0));
    assert_eq!(
        Dir3::z_axis().negated().any_orthonormal_vector(),
        Vec3::new(0, -UNIT, 0)
    );
}

#[test]
fn any_orthonormal_vector_is_nearly_orthogonal_and_unit() {
    let d = dir(3, 4, 12);
    let o = d.any_orthonormal_vector();
    // d = (230769, 307692, 923076); w = 1923076
    assert_eq!(d.as_vec3(), Vec3::new(230_769, 307_692, 923_076));
    assert_eq!(o, Vec3::new(-36_923, 950_770, -307_692));
    assert!(dot(o, d.as_vec3()).abs() <= ORTHONORMAL_DOT_SLACK as i128);
    assert!((norm_sq(o) - UNIT_SQ).abs() <= ORTHONORMAL_SLACK as i128);
}

#[test]
fn any_orthonormal_vector_stays_within_its_slack() {
    let samples = [
        dir(1, 2, 3),
        dir(-7, 11, -13),
        dir(0, 999_996, 1),
        dir(707_109, 707_109, 0),
        dir(3, 1_000_003, -5),
        dir(0, 1, -1),
        dir(-1, -1, -1),
        dir(123_456_789, -987_654_321, 555),
    ];
    for d in samples {
        let o = d.any_orthonormal_vector();
        assert!(dot(o, d.as_vec3()).abs() <= ORTHONORMAL_DOT_SLACK as i128);
        assert!((norm_sq(o) - UNIT_SQ).abs() <= ORTHONORMAL_SLACK as i128);
        assert!(Dir3::new(o).is_ok());
    }
}

#[test]
fn looking_to_rebuilds_an_orthogonal_up() {
    let h = Heading::looking_to(Dir3::z_axis().negated(), Dir3::y_axis());
    assert_eq!(h.forward, Dir3::z_axis().negated());
    assert_eq!(h.up, Dir3::y_axis());
    // An up that leans into the line of sight is straightened.
    let leaning = dir(0, 1, -1);
    let h = Heading::looking_to(Dir3::z_axis().negated(), leaning);
    assert_eq!(h.up, Dir3::y_axis());
    assert!(h.is_well_formed());
}

#[test]
fn looking_to_along_up_picks_another_axis() {
    // The line of sight is parallel to up: right comes from a vector
    // orthogonal to up, and up stays orthogonal to the line of sight.
    let h = Heading::looking_to(Dir3::y_axis(), Dir3::y_axis());
    assert_eq!(h.forward, Dir3::y_axis());
    // right = any_orthonormal(Y) = -Z; up = back x right = (-Y) x (-Z) = X
    assert_eq!(h.up, Dir3::x_axis());
    assert_eq!(dot(h.up.as_vec3(), h.forward.as_vec3()), 0);
}

#[test]
fn looking_to_gives_orthogonal_unit_directions() {
    let samples = [
        (dir(1, 2, 3), dir(-4, 5, 6)),
        (dir(1, 2, 3), dir(1, 2, 3)),
        (dir(1, 2, 3), dir(-1, -2, -3)),
        (dir(999_999, 1, 0), dir(999_999, 0, 1)),
        (dir(-7, 0, 0), dir(0, 0, 9)),
        (dir(123, -456, 789), dir(-987, 654, -321)),
    ];
    for (direction, up) in samples {
        let h = Heading::looking_to(direction, up);
        assert_eq!(h.forward, direction);
        assert!(h.is_well_formed());
        assert!(dot(h.forward.as_vec3(), h.up.as_vec3()).abs() <= ORTHO_SLACK as i128);
        assert!((norm_sq(h.up.as_vec3()) - UNIT_SQ).abs() <= UNIT_SLACK as i128);
        // The new up is on the side of the old one.
        if direction != up && direction != up.negated() {
            assert!(dot(h.up.as_vec3(), up.as_vec3()) > 0);
        }
    }
}

#[test]
fn looking_to_keeps_an_up_that_is_orthogonal_already() {
    // Orthogonal up to rounding: the pair is kept as it is.
    let nearly = dir(2, 1_000_000, 0);
    assert_eq!(nearly.as_vec3(), Vec3::new(1, 999_999, 0));
    let h = Heading::looking_to(Dir3::x_axis(), nearly);
    assert_eq!(h, Heading { forward: Dir3::x_axis(), up: nearly });
    // Not orthogonal: the up is derived anew.
    let leaning = dir(5, 1_000_000, 0);
    assert_eq!(leaning.as_vec3(), Vec3::new(4, 999_999, 0));
    let h = Heading::looking_to(Dir3::x_axis(), leaning);
    assert_eq!(h, Heading { forward: Dir3::x_axis(), up: Dir3::y_axis() });
}

#[test]
fn looking_to_is_idempotent() {
    let samples = [
        (dir(1, 2, 3), dir(-4, 5, 6)),
        (dir(1, 2, 3), dir(1, 2, 3)),
        (dir(999_999, 1, 0), dir(999_999, 0, 1)),
        (dir(123, -456, 789), dir(-987, 654, -321)),
        (dir(-5, 3, 2), dir(0, 0, 1)),
    ];
    for (direction, up) in samples {
        let once = Heading::looking_to(direction, up);
        let twice = Heading::looking_to(once.forward, once.up);
        assert_eq!(once, twice);
    }
}

#[test]
fn heading_must_be_orthogonal() {
    assert!(Heading { forward: Dir3::x_axis(), up: Dir3::y_axis() }.is_well_formed());
    assert!(!Heading { forward: Dir3::x_axis(), up: Dir3::x_axis() }.is_well_formed());
    assert!(!Heading { forward: Dir3::x_axis(), up: dir(1, 100, 0) }.is_well_formed());
    assert!(Heading { forward: Dir3::x_axis(), up: dir(1, 1_000_000, 0) }.is_well_formed());
}

#[test]
fn wrap_is_exact_at_the_faces() {
    let half = TANK_WIDTH / 2;
    assert_eq!(wrap_coordinate(half + 1, half), -half);
    assert_eq!(wrap_coordinate(-half - 1, half), half);
    assert_eq!(wrap_coordinate(half, half), half);
    assert_eq!(wrap_coordinate(-half, half), -half);
    assert_eq!(wrap_coordinate(0, half), 0);
    assert_eq!(wrap_coordinate(half + 3 * TANK_WIDTH, half), -half);
    assert_eq!(wrap_coordinate(i64::MIN, half), half);
    assert_eq!(wrap_coordinate(5, 0), 0);
}

#[test]
fn tank_wraps_each_axis_on_its_own() {
    let tank = Tank::standard();
    assert_eq!(tank, Tank { width: TANK_WIDTH, height: TANK_HEIGHT, depth: TANK_DEPTH });
    assert_eq!(tank.half(), Vec3::new(40_000_000, 22_500_000, 22_500_000));
    let p = tank.wrap(Vec3::new(40_100_000, -22_500_001, 1));
    assert_eq!(p, Vec3::new(-40_000_000, 22_500_000, 1));
    assert!(tank.holds(&p));
    assert!(!tank.holds(&Vec3::new(40_000_001, 0, 0)));
    assert!(tank.holds(&Vec3::new(40_000_000, -22_500_000, 22_500_000)));
}

#[test]
fn tank_dimensions_are_checked() {
    assert!(Tank::standard().is_well_formed());
    assert!(Tank { width: 0, height: 0, depth: 0 }.is_well_formed());
    assert!(!Tank { width: -1, height: 1, depth: 1 }.is_well_formed());
    assert!(Tank { width: 2 * MAX_COORD + 1, height: 1, depth: 1 }.is_well_formed());
    assert!(!Tank { width: 2 * MAX_COORD + 2, height: 1, depth: 1 }.is_well_formed());
}
