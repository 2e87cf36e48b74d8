use rust_particles::components::particle::Particle;
use rust_particles::initialisation::simulation_parameters::{ForceModel, SimulationParameters};
use rust_particles::numeric::fixed::Fixed;
use rust_particles::numeric::vector::Vec2;
use rust_particles::systems::force_system::{
    apply_forces, apply_gravity, density_of, measure_densities, pressure_force_on,
};

const UNIT: i64 = 1_000_000;

fn raw(v: i64) -> Fixed {
    Fixed { raw: v }
}

fn point(x: i64, y: i64) -> Vec2 {
    Vec2 { x: raw(x), y: raw(y) }
}

fn at(px: i64, py: i64) -> Particle {
    Particle {
        position: point(px, py),
        previous_position: point(px, py),
        velocity: point(0, 0),
        acceleration: point(0, 0),
        radius: raw(5 * UNIT),
        density: raw(0),
    }
}

fn three() -> Vec<Particle> {
    vec![at(0, 0), at(3 * UNIT, 4 * UNIT), at(20 * UNIT, 0)]
}

fn field(target: i64) -> SimulationParameters {
    let mut parameters = SimulationParameters::new();
    parameters.force_model = ForceModel::DensityPressureField;
    parameters.target_density = raw(target);
    parameters
}

#[test]
fn gravity_adds_to_the_acceleration() {
    let mut p = at(UNIT, UNIT);
    p.acceleration = point(5, -7);
    apply_gravity(&mut p, point(0, -628_840_000));
    assert_eq!(p.acceleration, point(5, -628_840_007));
    apply_gravity(&mut p, point(-1, -628_840_000));
    assert_eq!(p.acceleration, point(4, -1_257_680_007));
}

#[test]
fn uniform_gravity_pulls_every_particle_alike() {
    let mut particles = three();
    let parameters = SimulationParameters::new();
    apply_forces(&mut particles, &parameters);
    for (after, before) in particles.iter().zip(three().iter()) {
        assert_eq!(after.acceleration, point(0, -628_840_000));
        assert_eq!(after.density, raw(0));
        assert_eq!(after.position, before.position);
    }
}

#[test]
fn density_sums_the_weights_of_all_neighbours() {
    let particles = three();
    let h = raw(10 * UNIT);
    assert_eq!(density_of(&particles, 0, h).raw, 12_733 + 5_372);
    assert_eq!(density_of(&particles, 2, h).raw, 12_733);
    let all = measure_densities(&particles, h);
    assert_eq!(all, vec![raw(18_105), raw(18_105), raw(12_733)]);
}

#[test]
fn pressure_pushes_neighbours_apart() {
    let particles = three();
    let parameters = field(0);
    let densities = measure_densities(&particles, parameters.smoothing_radius);
    assert_eq!(
        pressure_force_on(&particles, &densities, 0, &parameters),
        point(-2_577_600, -3_436_800)
    );
    assert_eq!(
        pressure_force_on(&particles, &densities, 1, &parameters),
        point(2_577_600, 3_436_800)
    );
    assert_eq!(pressure_force_on(&particles, &densities, 2, &parameters), point(0, 0));
}

#[test]
fn a_density_below_the_target_pulls_neighbours_together() {
    let particles = three();
    let parameters = field(1000 * UNIT);
    let densities = measure_densities(&particles, parameters.smoothing_radius);
    assert_eq!(
        pressure_force_on(&particles, &densities, 0, &parameters),
        point(71_184_755_592, 94_913_007_456)
    );
    assert_eq!(
        pressure_force_on(&particles, &densities, 1, &parameters),
        point(-71_184_755_592, -94_913_007_456)
    );
}

#[test]
fn neighbours_at_the_same_place_give_no_push() {
    let particles = vec![at(UNIT, UNIT), at(UNIT, UNIT)];
    let parameters = field(0);
    let densities = measure_densities(&particles, parameters.smoothing_radius);
    assert_eq!(densities, vec![raw(25_466), raw(25_466)]);
    assert_eq!(pressure_force_on(&particles, &densities, 0, &parameters), point(0, 0));
    assert_eq!(pressure_force_on(&particles, &densities, 1, &parameters), point(0, 0));
}

#[test]
fn the_density_field_adds_gravity_density_and_pressure() {
    let mut particles = three();
    let parameters = field(0);
    apply_forces(&mut particles, &parameters);
    assert_eq!(particles[0].density, raw(18_105));
    assert_eq!(particles[1].density, raw(18_105));
    assert_eq!(particles[2].density, raw(12_733));
    assert_eq!(particles[0].acceleration, point(-2_577_600, -628_840_000 - 3_436_800));
    assert_eq!(particles[1].acceleration, point(2_577_600, -628_840_000 + 3_436_800));
    assert_eq!(particles[2].acceleration, point(0, -628_840_000));
    for (after, before) in particles.iter().zip(three().iter()) {
        assert_eq!(after.position, before.position);
        assert_eq!(after.velocity, before.velocity);
    }
}

#[test]
fn every_particle_sees_the_others_as_they_were() {
    let parameters = field(0);
    let mut forward = three();
    apply_forces(&mut forward, &parameters);
    let mut backward = three();
    backward.reverse();
    apply_forces(&mut backward, &parameters);
    backward.reverse();
    assert_eq!(forward, backward);
}
