//! The forces of a tick: gravity, and the pressure of the density field.
//!
//! All forces are gathered in the particles' accelerations. The density
//! field reads the positions as they were when the tick began: densities and
//! pressure forces are worked out for every particle before any particle is
//! changed, so the order of the particles does not matter to what each one
//! sees.
use vstd::prelude::*;
use crate::components::particle::Particle;
use crate::initialisation::simulation_parameters::{ForceModel, SimulationParameters};
use crate::numeric::fixed::{
    clamp, fixed, lemma_mul_bound, lemma_trunc_div_bounds, trunc_div, Fixed, LIMIT, SCALE,
};
use crate::numeric::kernel::{
    kernel_slope, kernel_value, smoothing_kernel, smoothing_kernel_derivative,
};
use crate::numeric::root::{floor_sqrt, isqrt};
use crate::numeric::vector::{dist_sq, normal_x, normal_y, vec2, Vec2};

verus! {

/// The particle with gravity added to its acceleration.
pub open spec fn with_gravity(p: Particle, gravity: Vec2) -> Particle {
    Particle {
        acceleration: vec2(p.acceleration.x@ + gravity.x@, p.acceleration.y@ + gravity.y@),
        ..p
    }
}

/// The distance between two points in raw units, rounded down.
pub open spec fn distance(a: Vec2, b: Vec2) -> int {
    floor_sqrt(dist_sq(a, b))
}

/// The sum of the kernel weights that the first `end` particles have at
/// particle `i`, saturated at the limit.
pub open spec fn density_upto(ps: Seq<Particle>, i: int, end: int, h: Fixed) -> int
    decreases end,
{
    if end <= 0 {
        0
    } else {
        clamp(
            density_upto(ps, i, end - 1, h) + kernel_value(
                distance(ps[i].position, ps[end - 1].position),
                h@,
            ),
        )
    }
}

/// The density at particle `i`: the sum of the kernel weights of all
/// particles, itself included, for the support radius `h`.
pub open spec fn density_at(ps: Seq<Particle>, i: int, h: Fixed) -> int {
    density_upto(ps, i, ps.len() as int, h)
}

/// The pressure at a place of the given density: the excess over the target
/// density times the multiplier.
pub open spec fn pressure(density: int, params: SimulationParameters) -> int {
    clamp(
        trunc_div(clamp(density - params.target_density@) * params.pressure_multiplier@, SCALE as int),
    )
}

/// The density that pressure is divided by: never less than one raw unit.
pub open spec fn floored(density: int) -> int {
    if density < 1 {
        1
    } else {
        density
    }
}

/// The size of the push that a neighbour of the given density gives at the
/// distance `dist`: its pressure over its density, times the steepness of
/// the kernel.
pub open spec fn push_strength(density: int, dist: int, params: SimulationParameters) -> int {
    clamp(
        trunc_div(
            pressure(density, params) * (-kernel_slope(dist, params.smoothing_radius@)),
            floored(density),
        ),
    )
}

/// The x component of the push that a neighbour at `q`, of the given
/// density, gives to a particle at `p`: along the unit vector from the
/// neighbour to the particle. A neighbour at the very same place gives none.
pub open spec fn push_from_x(p: Vec2, q: Vec2, density: int, params: SimulationParameters) -> int {
    if p == q {
        0
    } else {
        trunc_div(push_strength(density, distance(p, q), params) * normal_x(p, q), SCALE as int)
    }
}

/// The y component of the push that a neighbour at `q` gives to a particle
/// at `p`.
pub open spec fn push_from_y(p: Vec2, q: Vec2, density: int, params: SimulationParameters) -> int {
    if p == q {
        0
    } else {
        trunc_div(push_strength(density, distance(p, q), params) * normal_y(p, q), SCALE as int)
    }
}

/// The pressure force that the first `end` particles exert on particle `i`,
/// summed in index order and saturated at the limit.
pub open spec fn pressure_force_upto(
    ps: Seq<Particle>,
    i: int,
    end: int,
    params: SimulationParameters,
) -> Vec2
    decreases end,
{
    if end <= 0 {
        vec2(0, 0)
    } else {
        let sum = pressure_force_upto(ps, i, end - 1, params);
        let density = density_at(ps, end - 1, params.smoothing_radius);
        vec2(
            sum.x@ + push_from_x(ps[i].position, ps[end - 1].position, density, params),
            sum.y@ + push_from_y(ps[i].position, ps[end - 1].position, density, params),
        )
    }
}

/// The pressure force on particle `i`.
pub open spec fn pressure_force(ps: Seq<Particle>, i: int, params: SimulationParameters) -> Vec2 {
    pressure_force_upto(ps, i, ps.len() as int, params)
}

/// Particle `i` after the forces of a tick are gathered: gravity in either
/// model; in the density field also the density measured at the particle and
/// the pressure force on it.
pub open spec fn forced(ps: Seq<Particle>, i: int, params: SimulationParameters) -> Particle {
    let pulled = with_gravity(ps[i], params.gravity);
    match params.force_model {
        ForceModel::UniformGravity => pulled,
        ForceModel::DensityPressureField => {
            let force = pressure_force(ps, i, params);
            Particle {
                density: fixed(density_at(ps, i, params.smoothing_radius)),
                acceleration: vec2(
                    pulled.acceleration.x@ + force.x@,
                    pulled.acceleration.y@ + force.y@,
                ),
                ..pulled
            }
        },
    }
}

/// The particles after the forces of a tick are gathered. Every particle
/// sees the others as they were before.
pub open spec fn with_forces(ps: Seq<Particle>, params: SimulationParameters) -> Seq<Particle> {
    Seq::new(ps.len(), |i: int| forced(ps, i, params))
}

/// Whether every particle of the list is well formed.
pub open spec fn particles_wf(ps: Seq<Particle>) -> bool {
    forall|i: int| 0 <= i < ps.len() ==> (#[trigger] ps[i]).wf()
}

/// Adds gravity to the particle's acceleration.
pub fn apply_gravity(particle: &mut Particle, gravity: Vec2)
    requires
        old(particle).wf(),
        gravity.wf(),
    ensures
        *final(particle) == with_gravity(*old(particle), gravity),
        final(particle).wf(),
{
    particle.acceleration = particle.acceleration.add(gravity);
}

/// The distance between two points, rounded down.
fn separation(a: Vec2, b: Vec2) -> (r: u128)
    requires
        a.wf(),
        b.wf(),
    ensures
        r == distance(a, b),
        r * r <= dist_sq(a, b),
        a != b ==> r >= 1,
        r <= 3 * LIMIT,
{
    let dx: i128 = a.x.raw as i128 - b.x.raw as i128;
    let dy: i128 = a.y.raw as i128 - b.y.raw as i128;
    proof {
        lemma_mul_bound(dx as int, dx as int, 2 * LIMIT, 2 * LIMIT);
        lemma_mul_bound(dy as int, dy as int, 2 * LIMIT, 2 * LIMIT);
        assert(dx * dx >= 0 && dy * dy >= 0) by (nonlinear_arith);
    }
    let d2: i128 = dx * dx + dy * dy;
    let r = isqrt(d2 as u128);
    proof {
        if a != b {
            assert(d2 >= 1) by (nonlinear_arith)
                requires
                    d2 == dx * dx + dy * dy,
                    dx != 0 || dy != 0,
            ;
            assert(r >= 1) by (nonlinear_arith)
                requires
                    d2 >= 1,
                    d2 < (r + 1) * (r + 1),
            ;
        }
        if r > 3 * LIMIT {
            assert(r * r > 8 * LIMIT * LIMIT) by (nonlinear_arith)
                requires
                    r > 3 * LIMIT,
            ;
        }
    }
    r
}

/// The kernel weight that a neighbour at `q` has at `p`.
fn weight(p: Vec2, q: Vec2, smoothing_radius: Fixed) -> (r: Fixed)
    requires
        p.wf(),
        q.wf(),
        smoothing_radius.wf(),
        smoothing_radius@ > 0,
    ensures
        r@ == kernel_value(distance(p, q), smoothing_radius@),
        r.wf(),
{
    let dist: u128 = separation(p, q);
    if dist >= smoothing_radius.raw as u128 {
        Fixed::zero()
    } else {
        smoothing_kernel(Fixed { raw: dist as i64 }, smoothing_radius)
    }
}

/// The steepness of the kernel between `p` and `q`.
fn steepness(p: Vec2, q: Vec2, smoothing_radius: Fixed) -> (r: Fixed)
    requires
        p.wf(),
        q.wf(),
        smoothing_radius.wf(),
        smoothing_radius@ > 0,
    ensures
        r@ == kernel_slope(distance(p, q), smoothing_radius@),
        r.wf(),
        r@ <= 0,
{
    let dist: u128 = separation(p, q);
    if dist >= smoothing_radius.raw as u128 {
        Fixed::zero()
    } else {
        smoothing_kernel_derivative(Fixed { raw: dist as i64 }, smoothing_radius)
    }
}

/// The density at particle `i`.
pub fn density_of(particles: &Vec<Particle>, i: usize, smoothing_radius: Fixed) -> (r: Fixed)
    requires
        particles_wf(particles@),
        i < particles@.len(),
        smoothing_radius.wf(),
        smoothing_radius@ > 0,
    ensures
        r@ == density_at(particles@, i as int, smoothing_radius),
        r.wf(),
{
    let here: Vec2 = particles[i].position;
    let mut sum: Fixed = Fixed::zero();
    let mut j: usize = 0;
    while j < particles.len()
        invariant
            j <= particles@.len(),
            i < particles@.len(),
            particles_wf(particles@),
            here == particles@[i as int].position,
            smoothing_radius.wf(),
            smoothing_radius@ > 0,
            sum.wf(),
            sum@ == density_upto(particles@, i as int, j as int, smoothing_radius),
        decreases particles@.len() - j,
    {
        let w: Fixed = weight(here, particles[j].position, smoothing_radius);
        sum = sum.add(w);
        j = j + 1;
    }
    sum
}

/// The density at every particle.
pub fn measure_densities(particles: &Vec<Particle>, smoothing_radius: Fixed) -> (densities: Vec<
    Fixed,
>)
    requires
        particles_wf(particles@),
        smoothing_radius.wf(),
        smoothing_radius@ > 0,
    ensures
        densities@.len() == particles@.len(),
        forall|i: int|
            0 <= i < densities@.len() ==> (#[trigger] densities@[i])@ == density_at(
                particles@,
                i,
                smoothing_radius,
            ) && densities@[i].wf(),
{
    let mut densities: Vec<Fixed> = Vec::new();
    let mut i: usize = 0;
    while i < particles.len()
        invariant
            i <= particles@.len(),
            particles_wf(particles@),
            smoothing_radius.wf(),
            smoothing_radius@ > 0,
            densities@.len() == i,
            forall|k: int|
                0 <= k < i ==> (#[trigger] densities@[k])@ == density_at(
                    particles@,
                    k,
                    smoothing_radius,
                ) && densities@[k].wf(),
        decreases particles@.len() - i,
    {
        let density: Fixed = density_of(particles, i, smoothing_radius);
        densities.push(density);
        i = i + 1;
    }
    densities
}

/// The push that a neighbour at `q`, of the given density, gives to a
/// particle at `p`.
fn push_from(p: Vec2, q: Vec2, density: Fixed, params: &SimulationParameters) -> (r: Vec2)
    requires
        p.wf(),
        q.wf(),
        density.wf(),
        params.wf(),
    ensures
        r.x@ == push_from_x(p, q, density@, *params),
        r.y@ == push_from_y(p, q, density@, *params),
        r.wf(),
{
    if p.x.raw == q.x.raw && p.y.raw == q.y.raw {
        return Vec2::zero();
    }
    let slope: Fixed = steepness(p, q, params.smoothing_radius);
    let excess: Fixed = density.sub(params.target_density);
    let pressure_here: Fixed = excess.mul(params.pressure_multiplier);
    assert(pressure_here@ == pressure(density@, *params));
    let floor: i128 = if density.raw < 1 {
        1
    } else {
        density.raw as i128
    };
    proof {
        lemma_mul_bound(pressure_here@, -slope@, LIMIT as int, LIMIT as int);
    }
    let strength: Fixed = Fixed::from_wide(
        ((pressure_here.raw as i128) * (-(slope.raw as i128))) / floor,
    );
    assert(strength@ == push_strength(density@, distance(p, q), *params));
    let normal: Vec2 = p.unit_from(q);
    proof {
        lemma_mul_bound(strength@, normal.x@, LIMIT as int, SCALE as int);
        lemma_mul_bound(strength@, normal.y@, LIMIT as int, SCALE as int);
        lemma_trunc_div_bounds(strength@ * normal.x@, SCALE as int);
        lemma_trunc_div_bounds(strength@ * normal.y@, SCALE as int);
    }
    Vec2 {
        x: Fixed { raw: (((strength.raw as i128) * (normal.x.raw as i128)) / (SCALE as i128)) as i64 },
        y: Fixed { raw: (((strength.raw as i128) * (normal.y.raw as i128)) / (SCALE as i128)) as i64 },
    }
}

/// The pressure force on particle `i`, given the density at every particle.
pub fn pressure_force_on(
    particles: &Vec<Particle>,
    densities: &Vec<Fixed>,
    i: usize,
    params: &SimulationParameters,
) -> (r: Vec2)
    requires
        particles_wf(particles@),
        params.wf(),
        i < particles@.len(),
        densities@.len() == particles@.len(),
        forall|k: int|
            0 <= k < densities@.len() ==> (#[trigger] densities@[k])@ == density_at(
                particles@,
                k,
                params.smoothing_radius,
            ) && densities@[k].wf(),
    ensures
        r == pressure_force(particles@, i as int, *params),
        r.wf(),
{
    let here: Vec2 = particles[i].position;
    let mut sum: Vec2 = Vec2::zero();
    let mut j: usize = 0;
    while j < particles.len()
        invariant
            j <= particles@.len(),
            i < particles@.len(),
            particles_wf(particles@),
            params.wf(),
            here == particles@[i as int].position,
            densities@.len() == particles@.len(),
            forall|k: int|
                0 <= k < densities@.len() ==> (#[trigger] densities@[k])@ == density_at(
                    particles@,
                    k,
                    params.smoothing_radius,
                ) && densities@[k].wf(),
            sum.wf(),
            sum == pressure_force_upto(particles@, i as int, j as int, *params),
        decreases particles@.len() - j,
    {
        let push: Vec2 = push_from(here, particles[j].position, densities[j], params);
        sum = sum.add(push);
        j = j + 1;
    }
    sum
}

/// Gathers the forces of a tick in the particles' accelerations, and in the
/// density field also measures the density at each particle.
pub fn apply_forces(particles: &mut Vec<Particle>, params: &SimulationParameters)
    requires
        particles_wf(old(particles)@),
        params.wf(),
    ensures
        final(particles)@ == with_forces(old(particles)@, *params),
        particles_wf(final(particles)@),
{
    let count: usize = particles.len();
    let mut densities: Vec<Fixed> = Vec::new();
    let mut forces: Vec<Vec2> = Vec::new();
    let with_field: bool = match params.force_model {
        ForceModel::UniformGravity => false,
        ForceModel::DensityPressureField => true,
    };
    if with_field {
        densities = measure_densities(particles, params.smoothing_radius);
        let mut i: usize = 0;
        while i < count
            invariant
                i <= count,
                count == particles@.len(),
                particles@ == old(particles)@,
                particles_wf(particles@),
                params.wf(),
                densities@.len() == count,
                forall|k: int|
                    0 <= k < densities@.len() ==> (#[trigger] densities@[k])@ == density_at(
                        particles@,
                        k,
                        params.smoothing_radius,
                    ) && densities@[k].wf(),
                forces@.len() == i,
                forall|k: int|
                    0 <= k < i ==> #[trigger] forces@[k] == pressure_force(particles@, k, *params)
                        && forces@[k].wf(),
            decreases count - i,
        {
            let force: Vec2 = pressure_force_on(particles, &densities, i, params);
            forces.push(force);
            i = i + 1;
        }
    }
    let mut i: usize = 0;
    while i < count
        invariant
            i <= count,
            count == particles@.len(),
            count == old(particles)@.len(),
            particles_wf(old(particles)@),
            params.wf(),
            with_field == (params.force_model == ForceModel::DensityPressureField),
            with_field ==> densities@.len() == count && forces@.len() == count,
            with_field ==> forall|k: int|
                0 <= k < count ==> (#[trigger] densities@[k])@ == density_at(
                    old(particles)@,
                    k,
                    params.smoothing_radius,
                ) && densities@[k].wf(),
            with_field ==> forall|k: int|
                0 <= k < count ==> #[trigger] forces@[k] == pressure_force(
                    old(particles)@,
                    k,
                    *params,
                ) && forces@[k].wf(),
            forall|k: int| 0 <= k < i ==> #[trigger] particles@[k] == forced(old(particles)@, k, *params),
            forall|k: int| 0 <= k < i ==> (#[trigger] particles@[k]).wf(),
            forall|k: int| i <= k < count ==> #[trigger] particles@[k] == old(particles)@[k],
        decreases count - i,
    {
        let mut particle: Particle = particles[i];
        apply_gravity(&mut particle, params.gravity);
        if with_field {
            particle.density = densities[i];
            particle.acceleration = particle.acceleration.add(forces[i]);
        }
        particles.set(i, particle);
        i = i + 1;
    }
    assert(particles@ =~= with_forces(old(particles)@, *params));
}

} // verus!
