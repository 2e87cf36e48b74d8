use rust_particles::components::particle::Particle;
use rust_particles::initialisation::simulation_parameters::{BoundaryShape, SimulationParameters};
use rust_particles::numeric::fixed::Fixed;
use rust_particles::numeric::vector::Vec2;
use rust_particles::systems::boundary_system::{
    check_and_place_within_bounds, check_and_place_within_bounds_rectangle,
};
use rust_particles::systems::update_system::contain;

const UNIT: i64 = 1_000_000;

fn raw(v: i64) -> Fixed {
    Fixed { raw: v }
}

fn point(x: i64, y: i64) -> Vec2 {
    Vec2 { x: raw(x), y: raw(y) }
}

fn disc(px: i64, py: i64, vx: i64, vy: i64, radius: i64) -> Particle {
    Particle {
        position: point(px, py),
        previous_position: point(px - 1, py + 1),
        velocity: point(vx, vy),
        acceleration: point(11, -12),
        radius: raw(radius),
        density: raw(13),
    }
}

fn norm_squared(p: Vec2) -> i128 {
    (p.x.raw as i128).pow(2) + (p.y.raw as i128).pow(2)
}

#[test]
fn low_wall_places_and_bounces() {
    let mut p = disc(-499 * UNIT, 0, -3 * UNIT, 7 * UNIT, 5 * UNIT);
    check_and_place_within_bounds_rectangle(
        &mut p,
        point(-500 * UNIT, -500 * UNIT),
        point(500 * UNIT, 500 * UNIT),
        raw(800_000),
    );
    assert_eq!(p.position, point(-495 * UNIT, 0));
    assert_eq!(p.velocity, point(2_400_000, 7 * UNIT));
}

#[test]
fn high_wall_places_and_bounces() {
    let mut p = disc(UNIT, 498 * UNIT, 7 * UNIT, 7 * UNIT, 5 * UNIT);
    check_and_place_within_bounds_rectangle(
        &mut p,
        point(-500 * UNIT, -500 * UNIT),
        point(500 * UNIT, 500 * UNIT),
        raw(800_000),
    );
    assert_eq!(p.position, point(UNIT, 495 * UNIT));
    assert_eq!(p.velocity, point(7 * UNIT, -5_600_000));
}

#[test]
fn both_axes_are_held_on_their_own() {
    let mut p = disc(-499 * UNIT, 600 * UNIT, -3_333_333, 3_333_333, 5 * UNIT);
    check_and_place_within_bounds_rectangle(
        &mut p,
        point(-500 * UNIT, -500 * UNIT),
        point(500 * UNIT, 500 * UNIT),
        raw(333_333),
    );
    assert_eq!(p.position, point(-495 * UNIT, 495 * UNIT));
    assert_eq!(p.velocity, point(1_111_109, -1_111_109));
}

#[test]
fn a_disc_that_touches_the_wall_is_left_alone() {
    let before = disc(-495 * UNIT, 495 * UNIT, -3 * UNIT, 4 * UNIT, 5 * UNIT);
    let mut p = before;
    check_and_place_within_bounds_rectangle(
        &mut p,
        point(-500 * UNIT, -500 * UNIT),
        point(500 * UNIT, 500 * UNIT),
        raw(800_000),
    );
    assert_eq!(p, before);
}

#[test]
fn walls_touch_nothing_but_position_and_velocity() {
    let before = disc(-700 * UNIT, 700 * UNIT, -3 * UNIT, 4 * UNIT, 5 * UNIT);
    let mut p = before;
    check_and_place_within_bounds_rectangle(
        &mut p,
        point(-500 * UNIT, -500 * UNIT),
        point(500 * UNIT, 500 * UNIT),
        raw(800_000),
    );
    assert_eq!(p.previous_position, before.previous_position);
    assert_eq!(p.acceleration, before.acceleration);
    assert_eq!(p.radius, before.radius);
    assert_eq!(p.density, before.density);
}

#[test]
fn the_lower_wall_is_looked_at_first_in_a_box_too_small() {
    let mut p = disc(0, 0, UNIT, UNIT, 5 * UNIT);
    check_and_place_within_bounds_rectangle(
        &mut p,
        point(-UNIT, -UNIT),
        point(UNIT, UNIT),
        raw(UNIT),
    );
    assert_eq!(p.position, point(4 * UNIT, 4 * UNIT));
    assert_eq!(p.velocity, point(-UNIT, -UNIT));
}

#[test]
fn circle_projects_onto_the_boundary_and_reflects() {
    let mut p = disc(300 * UNIT, 400 * UNIT, 30 * UNIT, 40 * UNIT, 5 * UNIT);
    check_and_place_within_bounds(&mut p, raw(400 * UNIT), raw(800_000));
    assert_eq!(p.position, point(237 * UNIT, 316 * UNIT));
    assert_eq!(p.velocity, point(-24 * UNIT, -32 * UNIT));
    assert_eq!(norm_squared(p.position), (395 * UNIT as i128).pow(2));
}

#[test]
fn circle_rounds_toward_the_inside() {
    let mut p = disc(300 * UNIT, -399 * UNIT, 10 * UNIT, -40 * UNIT, 5 * UNIT);
    check_and_place_within_bounds(&mut p, raw(400 * UNIT), raw(500_000));
    assert_eq!(p.position, point(237_379_636, -315_714_915));
    assert_eq!(p.velocity, point(-24_237_406, 5_535_742));
    assert!(norm_squared(p.position) <= (395 * UNIT as i128).pow(2));
}

#[test]
fn circle_leaves_a_disc_inside_alone() {
    let before = disc(30 * UNIT, -39 * UNIT, 10 * UNIT, -40 * UNIT, 5 * UNIT);
    let mut p = before;
    check_and_place_within_bounds(&mut p, raw(400 * UNIT), raw(500_000));
    assert_eq!(p, before);
    let touching = disc(395 * UNIT, 0, 10 * UNIT, -40 * UNIT, 5 * UNIT);
    let mut q = touching;
    check_and_place_within_bounds(&mut q, raw(400 * UNIT), raw(500_000));
    assert_eq!(q, touching);
}

#[test]
fn circle_leaves_a_particle_at_the_origin_alone() {
    let before = disc(0, 0, 10 * UNIT, -40 * UNIT, 5 * UNIT);
    let mut p = before;
    check_and_place_within_bounds(&mut p, raw(3 * UNIT), raw(500_000));
    assert_eq!(p, before);
}

#[test]
fn circle_holds_every_disc_it_can_hold() {
    let mut state: u64 = 12345;
    for _ in 0..500 {
        state = state.wrapping_mul(6364136223846793005).wrapping_add(1442695040888963407);
        let px = ((state >> 20) as i64 % (2000 * UNIT)) - 1000 * UNIT;
        state = state.wrapping_mul(6364136223846793005).wrapping_add(1442695040888963407);
        let py = ((state >> 20) as i64 % (2000 * UNIT)) - 1000 * UNIT;
        let mut p = disc(px, py, 3 * UNIT, -4 * UNIT, 5 * UNIT);
        check_and_place_within_bounds(&mut p, raw(400 * UNIT), raw(800_000));
        assert!(norm_squared(p.position) <= (395 * UNIT as i128).pow(2));
    }
}

#[test]
fn contain_follows_the_shape_of_the_run() {
    let mut parameters = SimulationParameters::new();
    let start = disc(450 * UNIT, 0, 30 * UNIT, 0, 5 * UNIT);

    let mut boxed = start;
    contain(&mut boxed, &parameters);
    assert_eq!(boxed, start);

    parameters.boundary_shape = BoundaryShape::Circular;
    let mut round = start;
    contain(&mut round, &parameters);
    assert_eq!(round.position, point(395 * UNIT, 0));
    assert_eq!(round.velocity, point(-24 * UNIT, 0));
}
