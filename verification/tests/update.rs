use rust_particles::components::particle::Particle;
use rust_particles::initialisation::simulation_parameters::{
    BoundaryShape, ForceModel, IntegrationScheme, SimulationParameters,
};
use rust_particles::numeric::fixed::{Fixed, LIMIT};
use rust_particles::numeric::vector::Vec2;
use rust_particles::systems::force_system::apply_forces;
use rust_particles::systems::integration_system::integrate;
use rust_particles::systems::particle_spawner_system::{
    particle_spawner_system, BATCH, SPAWN_INTERVAL, SPAWN_RADIUS,
};
use rust_particles::systems::update_system::{collide, contain, update_system};

const UNIT: i64 = 1_000_000;
const TICK: i64 = 15_625;

fn raw(v: i64) -> Fixed {
    Fixed { raw: v }
}

fn point(x: i64, y: i64) -> Vec2 {
    Vec2 { x: raw(x), y: raw(y) }
}

fn resting(px: i64, py: i64, radius: i64) -> Particle {
    Particle {
        position: point(px, py),
        previous_position: point(px, py),
        velocity: point(0, 0),
        acceleration: point(0, 0),
        radius: raw(radius),
        density: raw(0),
    }
}

/// A run of the spawner and the tick together, for `ticks` ticks.
fn run(parameters: &SimulationParameters, ticks: usize) -> Vec<Particle> {
    let mut world: Vec<Particle> = Vec::new();
    let mut elapsed = raw(0);
    for _ in 0..ticks {
        update_system(&mut world, parameters, raw(TICK));
        world.extend(particle_spawner_system(&mut elapsed, raw(TICK)));
    }
    world
}

#[test]
fn new_parameters_have_these_values() {
    let parameters = SimulationParameters::new();
    assert_eq!(parameters.boundary_radius, raw(400 * UNIT));
    assert_eq!(parameters.gravity, point(0, -628_840_000));
    assert_eq!(parameters.restitution, raw(800_000));
    assert_eq!(parameters.min_bound, point(-500 * UNIT, -500 * UNIT));
    assert_eq!(parameters.max_bound, point(500 * UNIT, 500 * UNIT));
    assert_eq!(parameters.boundary_shape, BoundaryShape::Rectangular);
    assert_eq!(parameters.smoothing_radius, raw(10 * UNIT));
    assert_eq!(parameters.target_density, raw(1000 * UNIT));
    assert_eq!(parameters.pressure_multiplier, raw(2000 * UNIT));
    assert_eq!(parameters.force_model, ForceModel::UniformGravity);
    assert_eq!(parameters.integration, IntegrationScheme::Verlet);
    assert_eq!(parameters.substeps, 8);
    assert!(parameters.is_valid());
}

#[test]
fn parameters_outside_their_ranges_are_not_valid() {
    let good = SimulationParameters::new();
    let mut p = good;
    p.restitution = raw(UNIT + 1);
    assert!(!p.is_valid());
    p.restitution = raw(-1);
    assert!(!p.is_valid());
    p.restitution = raw(0);
    assert!(p.is_valid());
    p.restitution = raw(UNIT);
    assert!(p.is_valid());
    let mut p = good;
    p.smoothing_radius = raw(0);
    assert!(!p.is_valid());
    let mut p = good;
    p.gravity = point(0, LIMIT + 1);
    assert!(!p.is_valid());
}

#[test]
fn spawn_rejects_a_radius_that_is_not_positive() {
    let position = point(UNIT, UNIT);
    let velocity = point(UNIT, 0);
    assert!(Particle::spawn(position, velocity, raw(0), raw(TICK)).is_none());
    assert!(Particle::spawn(position, velocity, raw(-UNIT), raw(TICK)).is_none());
    assert!(Particle::spawn(position, velocity, raw(1), raw(TICK)).is_some());
}

#[test]
fn spawn_derives_the_previous_position_from_the_velocity() {
    let p = Particle::spawn(point(0, -10 * UNIT), point(300 * UNIT, -110 * UNIT), raw(5 * UNIT), raw(TICK))
        .unwrap();
    assert_eq!(p.position, point(0, -10 * UNIT));
    assert_eq!(p.previous_position, point(-4_687_500, -8_281_250));
    assert_eq!(p.velocity, point(300 * UNIT, -110 * UNIT));
    assert_eq!(p.acceleration, point(0, 0));
    assert_eq!(p.radius, raw(5 * UNIT));
    assert_eq!(p.density, raw(0));
    assert!(p.is_valid());
}

#[test]
fn a_particle_is_valid_only_with_a_positive_radius() {
    assert!(resting(0, 0, 1).is_valid());
    assert!(!resting(0, 0, 0).is_valid());
    assert!(!resting(LIMIT + 1, 0, 1).is_valid());
}

#[test]
fn a_batch_is_due_every_fourth_tick_of_a_sixty_fourth() {
    let mut elapsed = raw(0);
    let mut sizes = Vec::new();
    let mut gathered = Vec::new();
    for _ in 0..9 {
        sizes.push(particle_spawner_system(&mut elapsed, raw(TICK)).len());
        gathered.push(elapsed.raw);
    }
    assert_eq!(sizes, vec![0, 0, 0, 4, 0, 0, 0, 4, 0]);
    assert_eq!(gathered, vec![15_625, 31_250, 46_875, 0, 15_625, 31_250, 46_875, 0, 15_625]);
    assert_eq!(BATCH, 4);
}

#[test]
fn a_batch_is_due_exactly_from_the_interval_on() {
    let mut elapsed = raw(SPAWN_INTERVAL - 2);
    assert!(particle_spawner_system(&mut elapsed, raw(1)).is_empty());
    assert_eq!(elapsed, raw(SPAWN_INTERVAL - 1));
    assert_eq!(particle_spawner_system(&mut elapsed, raw(1)).len(), 4);
    assert_eq!(elapsed, raw(0));
}

#[test]
fn a_batch_holds_these_particles() {
    let mut elapsed = raw(SPAWN_INTERVAL);
    let batch = particle_spawner_system(&mut elapsed, raw(TICK));
    let expected_previous = [
        point(-4_687_500, 1_562_500),
        point(-4_687_500, -8_281_250),
        point(-4_687_500, -18_125_000),
        point(-4_687_500, -27_968_750),
    ];
    assert_eq!(batch.len(), 4);
    for (i, particle) in batch.iter().enumerate() {
        let i = i as i64;
        assert_eq!(particle.position, point(0, -10 * UNIT * i));
        assert_eq!(particle.velocity, point(300 * UNIT, -100 * UNIT - 10 * UNIT * i));
        assert_eq!(particle.previous_position, expected_previous[i as usize]);
        assert_eq!(particle.acceleration, point(0, 0));
        assert_eq!(particle.radius, raw(SPAWN_RADIUS));
        assert!(particle.is_valid());
    }
}

#[test]
fn a_lone_particle_falls_by_gravity() {
    let parameters = SimulationParameters::new();
    let mut world = vec![resting(0, 0, 5 * UNIT)];
    update_system(&mut world, &parameters, raw(TICK));
    assert_eq!(world[0].position, point(0, -153_525));
    assert_eq!(world[0].previous_position, point(0, 0));
    assert_eq!(world[0].acceleration, point(0, 0));
    update_system(&mut world, &parameters, raw(TICK));
    assert_eq!(world[0].position, point(0, -460_575));
    assert_eq!(world[0].previous_position, point(0, -153_525));
}

#[test]
fn a_tick_is_forces_then_collisions_then_boundary_then_integration() {
    for shape in [BoundaryShape::Rectangular, BoundaryShape::Circular] {
        for model in [ForceModel::UniformGravity, ForceModel::DensityPressureField] {
            for scheme in [IntegrationScheme::Verlet, IntegrationScheme::SemiImplicitEuler] {
                let mut parameters = SimulationParameters::new();
                parameters.boundary_shape = shape;
                parameters.force_model = model;
                parameters.integration = scheme;
                parameters.target_density = raw(0);
                let start = run(&SimulationParameters::new(), 40);
                assert_eq!(start.len(), 40);

                let mut whole = start.clone();
                update_system(&mut whole, &parameters, raw(TICK));

                let mut staged = start.clone();
                apply_forces(&mut staged, &parameters);
                collide(&mut staged, &parameters);
                for particle in staged.iter_mut() {
                    contain(particle, &parameters);
                    integrate(particle, scheme, raw(TICK));
                }
                assert_eq!(whole, staged);
                assert!(whole != start);
            }
        }
    }
}

#[test]
fn particles_stay_inside_the_box() {
    let parameters = SimulationParameters::new();
    let mut world: Vec<Particle> = Vec::new();
    let mut elapsed = raw(0);
    for _ in 0..400 {
        update_system(&mut world, &parameters, raw(TICK));
        for particle in world.iter() {
            // Where the boundary held the particle, its disc was inside.
            let held = particle.previous_position;
            assert!(held.x.raw - particle.radius.raw >= parameters.min_bound.x.raw);
            assert!(held.x.raw + particle.radius.raw <= parameters.max_bound.x.raw);
            assert!(held.y.raw - particle.radius.raw >= parameters.min_bound.y.raw);
            assert!(held.y.raw + particle.radius.raw <= parameters.max_bound.y.raw);
            // A last move of no more than the radius leaves the centre inside.
            let dx = (particle.position.x.raw - held.x.raw) as i128;
            let dy = (particle.position.y.raw - held.y.raw) as i128;
            if dx * dx + dy * dy <= (particle.radius.raw as i128).pow(2) {
                assert!(particle.position.x.raw >= parameters.min_bound.x.raw);
                assert!(particle.position.x.raw <= parameters.max_bound.x.raw);
                assert!(particle.position.y.raw >= parameters.min_bound.y.raw);
                assert!(particle.position.y.raw <= parameters.max_bound.y.raw);
            }
        }
        if world.len() < 60 {
            world.extend(particle_spawner_system(&mut elapsed, raw(TICK)));
        }
    }
    assert_eq!(world.len(), 60);
}

#[test]
fn particles_stay_inside_the_circle() {
    let mut parameters = SimulationParameters::new();
    parameters.boundary_shape = BoundaryShape::Circular;
    parameters.boundary_radius = raw(100 * UNIT);
    let mut world: Vec<Particle> = Vec::new();
    let mut elapsed = raw(0);
    for _ in 0..400 {
        update_system(&mut world, &parameters, raw(TICK));
        for particle in world.iter() {
            let held = particle.previous_position;
            let room = (parameters.boundary_radius.raw - particle.radius.raw) as i128;
            let norm = (held.x.raw as i128).pow(2) + (held.y.raw as i128).pow(2);
            assert!(norm <= room * room);
            let dx = (particle.position.x.raw - held.x.raw) as i128;
            let dy = (particle.position.y.raw - held.y.raw) as i128;
            if dx * dx + dy * dy <= (particle.radius.raw as i128).pow(2) {
                let now = (particle.position.x.raw as i128).pow(2)
                    + (particle.position.y.raw as i128).pow(2);
                assert!(now <= (parameters.boundary_radius.raw as i128).pow(2));
            }
        }
        if world.len() < 40 {
            world.extend(particle_spawner_system(&mut elapsed, raw(TICK)));
        }
    }
    assert_eq!(world.len(), 40);
}

#[test]
fn a_run_is_reproducible() {
    let parameters = SimulationParameters::new();
    assert_eq!(run(&parameters, 120), run(&parameters, 120));
}
