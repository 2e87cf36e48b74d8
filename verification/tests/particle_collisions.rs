use rust_particles::components::particle::Particle;
use rust_particles::initialisation::simulation_parameters::SimulationParameters;
use rust_particles::numeric::fixed::Fixed;
use rust_particles::numeric::vector::Vec2;
use rust_particles::systems::collision_system::{
    check_collisions, resolve_collisions, resolve_pair, Body,
};
use rust_particles::systems::particle_spawner_system::particle_spawner_system;
use rust_particles::systems::update_system::update_system;

const UNIT: i64 = 1_000_000;

fn point(x: i64, y: i64) -> Vec2 {
    Vec2 { x: Fixed { raw: x }, y: Fixed { raw: y } }
}

fn body(px: i64, py: i64, vx: i64, vy: i64, radius: i64) -> Body {
    (point(px, py), point(vx, vy), Fixed { raw: radius })
}

/// Twice the kinetic energy in raw units, exactly.
fn doubled_energy(particles: &Vec<Body>) -> i128 {
    particles
        .iter()
        .map(|(_, vel, radius)| {
            let vx = vel.x.raw as i128;
            let vy = vel.y.raw as i128;
            (radius.raw as i128) * (vx * vx + vy * vy)
        })
        .sum()
}

fn calculate_kinetic_energy(particles: &Vec<Body>) -> f64 {
    (doubled_energy(particles) as f64) * 0.5 / 1e18
}

fn squared_distance(a: &Body, b: &Body) -> i128 {
    let dx = (a.0.x.raw - b.0.x.raw) as i128;
    let dy = (a.0.y.raw - b.0.y.raw) as i128;
    dx * dx + dy * dy
}

/// Bodies scattered by a fixed linear congruential sequence.
fn crowd(count: usize, seed: u64) -> Vec<Body> {
    let mut state = seed;
    let mut next = move |span: i64| -> i64 {
        state = state.wrapping_mul(6364136223846793005).wrapping_add(1442695040888963407);
        ((state >> 33) as i64) % span
    };
    let mut bodies = Vec::new();
    for _ in 0..count {
        let px = next(40 * UNIT) - 20 * UNIT;
        let py = next(40 * UNIT) - 20 * UNIT;
        let vx = next(600 * UNIT) - 300 * UNIT;
        let vy = next(600 * UNIT) - 300 * UNIT;
        let radius = 1 + next(6 * UNIT);
        bodies.push(body(px, py, vx, vy, radius));
    }
    bodies
}

#[test]
fn test_energy_conservation() {
    let substeps = 1;
    let restitution = Fixed { raw: 900_000 };

    let parameters = SimulationParameters::new();
    let mut world: Vec<Particle> = Vec::new();
    let mut elapsed = Fixed { raw: 0 };
    // The fixed tick is a sixty-fourth of a second; every update moves the
    // clock on by one part in `seconds` of a tick.
    let tick = Fixed { raw: UNIT / 64 };
    let mut clock = 0;

    let seconds = 1001;
    let steps = seconds * 64;
    for _ in 0..steps {
        clock += 1;
        if clock >= seconds {
            clock = 0;
            update_system(&mut world, &parameters, tick);
            world.extend(particle_spawner_system(&mut elapsed, tick));
        }
    }

    let mut particles: Vec<Body> = world
        .iter()
        .map(|particle| (particle.position, particle.velocity, particle.radius))
        .collect();

    println!("Particles:{}", particles.len());

    assert!(!particles.is_empty(), "No particles were spawned!");

    let initial_energy = doubled_energy(&particles);
    println!("Initial kinetic energy: {}", calculate_kinetic_energy(&particles));

    check_collisions(&mut particles, substeps, restitution);

    let final_energy = doubled_energy(&particles);
    println!("Final kinetic energy: {}", calculate_kinetic_energy(&particles));

    assert!(
        final_energy <= initial_energy,
        "Energy after collision should not exceed energy before collision"
    );
}

#[test]
fn head_on_pair_is_pushed_apart_and_bounces() {
    let mut particles = vec![
        body(0, 0, UNIT, 0, UNIT),
        body(1_500_000, 0, -UNIT, 0, UNIT),
    ];
    let initial_energy = doubled_energy(&particles);
    check_collisions(&mut particles, 1, Fixed { raw: 900_000 });
    assert_eq!(particles[0], body(-250_000, 0, -900_000, 0, UNIT));
    assert_eq!(particles[1], body(1_750_000, 0, 900_000, 0, UNIT));
    assert_eq!(initial_energy, 2_000_000_000_000_000_000);
    assert_eq!(doubled_energy(&particles), 1_620_000_000_000_000_000);
    assert!(doubled_energy(&particles) <= initial_energy);
}

#[test]
fn separating_pair_keeps_velocities() {
    let mut particles = vec![
        body(0, 0, -UNIT, 0, UNIT),
        body(1_500_000, 0, UNIT, 0, UNIT),
    ];
    check_collisions(&mut particles, 1, Fixed { raw: 900_000 });
    assert_eq!(particles[0], body(-250_000, 0, -UNIT, 0, UNIT));
    assert_eq!(particles[1], body(1_750_000, 0, UNIT, 0, UNIT));
}

#[test]
fn unequal_radii_share_the_impulse() {
    let a = body(0, 0, 3 * UNIT, UNIT, 2 * UNIT);
    let b = body(2 * UNIT, UNIT, -2 * UNIT, 0, UNIT);
    let (a, b) = resolve_pair(a, b, Fixed { raw: 800_000 });
    assert_eq!(a, body(-341_641, -170_820, 360_001, -319_997, 2 * UNIT));
    assert_eq!(b, body(2_341_641, 1_170_820, 3_279_996, 2_639_995, UNIT));
    assert_eq!(doubled_energy(&vec![a, b]), 18_191_944_960_061_000_000);
}

#[test]
fn coincident_centres_are_left_alone() {
    let before = vec![body(7, -3, UNIT, 0, UNIT), body(7, -3, -UNIT, 0, 2 * UNIT)];
    let mut particles = before.clone();
    check_collisions(&mut particles, 8, Fixed { raw: 900_000 });
    assert_eq!(particles, before);
}

#[test]
fn distant_and_touching_pairs_are_untouched() {
    let before = vec![
        body(0, 0, UNIT, 0, UNIT),
        body(2 * UNIT, 0, -UNIT, 0, UNIT),
        body(0, 50 * UNIT, 0, -UNIT, UNIT),
    ];
    let mut particles = before.clone();
    check_collisions(&mut particles, 3, Fixed { raw: 900_000 });
    assert_eq!(particles, before);
}

#[test]
fn no_pass_for_zero_or_negative_substeps() {
    let before = vec![body(0, 0, UNIT, 0, UNIT), body(1_500_000, 0, -UNIT, 0, UNIT)];
    let mut particles = before.clone();
    check_collisions(&mut particles, 0, Fixed { raw: 900_000 });
    assert_eq!(particles, before);
    check_collisions(&mut particles, -5, Fixed { raw: 900_000 });
    assert_eq!(particles, before);
}

#[test]
fn empty_and_single_lists_are_untouched() {
    let mut none: Vec<Body> = Vec::new();
    check_collisions(&mut none, 8, Fixed { raw: 900_000 });
    assert!(none.is_empty());
    let mut one = vec![body(1, 2, 3, 4, 5)];
    check_collisions(&mut one, 8, Fixed { raw: 900_000 });
    assert_eq!(one, vec![body(1, 2, 3, 4, 5)]);
}

#[test]
fn pairs_are_met_in_increasing_index_order() {
    let before = vec![
        body(0, 0, UNIT, 0, UNIT),
        body(1_500_000, 0, -UNIT, 0, UNIT),
        body(3_000_000, 200_000, -2 * UNIT, 0, UNIT),
    ];
    let mut once = before.clone();
    resolve_collisions(&mut once, Fixed { raw: 900_000 });
    assert_eq!(
        once,
        vec![
            body(-250_000, 0, -900_000, 0, UNIT),
            body(1_387_559, -57_990, -1_786_228, -429_795, UNIT),
            body(3_362_441, 257_990, 686_228, 429_795, UNIT),
        ]
    );
    let mut eight = before.clone();
    check_collisions(&mut eight, 8, Fixed { raw: 900_000 });
    assert_eq!(
        eight,
        vec![
            body(-487_155, 8_983, -1_726_420, 29_265, UNIT),
            body(1_510_492, -87_639, -959_807, -459_060, UNIT),
            body(3_476_663, 278_656, 686_228, 429_795, UNIT),
        ]
    );
}

#[test]
fn one_pass_over_two_bodies_is_one_pair() {
    let a = body(0, 0, 3 * UNIT, UNIT, 2 * UNIT);
    let b = body(2 * UNIT, UNIT, -2 * UNIT, 0, UNIT);
    let mut particles = vec![a, b];
    resolve_collisions(&mut particles, Fixed { raw: 800_000 });
    let (moved_a, moved_b) = resolve_pair(a, b, Fixed { raw: 800_000 });
    assert_eq!(particles, vec![moved_a, moved_b]);
}

#[test]
fn resolved_pair_is_apart_within_three_raw_units() {
    for seed in 0..200u64 {
        let pair = crowd(2, seed);
        for substeps in [1, 2, 8] {
            let mut particles = pair.clone();
            if squared_distance(&particles[0], &particles[1]) == 0 {
                continue;
            }
            check_collisions(&mut particles, substeps, Fixed { raw: 900_000 });
            let reach = (particles[0].2.raw + particles[1].2.raw) as i128;
            let least = if reach > 3 { reach - 3 } else { 0 };
            assert!(squared_distance(&particles[0], &particles[1]) >= least * least);
        }
    }
}

#[test]
fn energy_never_grows_in_a_crowd() {
    for seed in 0..40u64 {
        for restitution in [0, 1, 500_000, 999_999, UNIT] {
            let mut particles = crowd(30, seed);
            let mut energy = doubled_energy(&particles);
            for _ in 0..4 {
                resolve_collisions(&mut particles, Fixed { raw: restitution });
                let now = doubled_energy(&particles);
                assert!(now <= energy);
                energy = now;
            }
        }
    }
}

#[test]
fn radii_are_kept() {
    let before = crowd(25, 99);
    let mut particles = before.clone();
    check_collisions(&mut particles, 8, Fixed { raw: 700_000 });
    assert_eq!(particles.len(), before.len());
    for (after, was) in particles.iter().zip(before.iter()) {
        assert_eq!(after.2, was.2);
    }
}
