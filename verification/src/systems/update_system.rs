//! One tick of the simulation: forces, collisions, boundary, integration.
use vstd::prelude::*;
use crate::components::particle::Particle;
use crate::initialisation::simulation_parameters::{
    BoundaryShape, IntegrationScheme, SimulationParameters,
};
use crate::numeric::fixed::Fixed;
use crate::numeric::vector::{dist_sq, lemma_component_bound, lemma_dot_square, Vec2};
use crate::systems::boundary_system::{
    check_and_place_within_bounds, check_and_place_within_bounds_rectangle, disc_in_circle,
    disc_in_rectangle, lemma_placed_in_circle_inside, lemma_placed_in_rectangle_inside, norm_sq,
    placed_in_circle, placed_in_rectangle, rectangle_holds,
};
use crate::systems::collision_energy::lemma_energy_never_grows;
use crate::systems::collision_system::{bodies_wf, check_collisions, resolved, Body};
use crate::systems::force_system::{apply_forces, particles_wf, with_forces};
use crate::systems::integration_system::{integrate, integrated};

verus! {

/// What collision resolution reads of each particle.
pub open spec fn bodies_of(ps: Seq<Particle>) -> Seq<Body> {
    Seq::new(ps.len(), |i: int| ps[i].body())
}

/// The particles with the positions and velocities of the bodies.
pub open spec fn with_bodies(ps: Seq<Particle>, bodies: Seq<Body>) -> Seq<Particle> {
    Seq::new(
        ps.len(),
        |i: int| Particle { position: bodies[i].0, velocity: bodies[i].1, ..ps[i] },
    )
}

/// The particles after the collision passes of a tick.
pub open spec fn collided(ps: Seq<Particle>, params: SimulationParameters) -> Seq<Particle> {
    with_bodies(ps, resolved(bodies_of(ps), params.substeps as int, params.restitution))
}

/// The particle after it is held inside the region of the run.
pub open spec fn contained(p: Particle, params: SimulationParameters) -> Particle {
    match params.boundary_shape {
        BoundaryShape::Circular => placed_in_circle(p, params.boundary_radius, params.restitution),
        BoundaryShape::Rectangular => placed_in_rectangle(
            p,
            params.min_bound,
            params.max_bound,
            params.restitution,
        ),
    }
}

/// The particles of a tick when only integration is left to do: forces are
/// gathered, collisions resolved and every particle is held inside the
/// region.
pub open spec fn before_integration(ps: Seq<Particle>, params: SimulationParameters) -> Seq<
    Particle,
> {
    let moved = collided(with_forces(ps, params), params);
    Seq::new(ps.len(), |i: int| contained(moved[i], params))
}

/// The particles after one tick of length `dt`.
pub open spec fn stepped(ps: Seq<Particle>, params: SimulationParameters, dt: Fixed) -> Seq<
    Particle,
> {
    let held = before_integration(ps, params);
    Seq::new(ps.len(), |i: int| integrated(held[i], params.integration, dt))
}

/// Whether the region of the run can hold a disc of the given radius.
pub open spec fn region_holds(radius: Fixed, params: SimulationParameters) -> bool {
    match params.boundary_shape {
        BoundaryShape::Circular => params.boundary_radius@ >= radius@,
        BoundaryShape::Rectangular => rectangle_holds(radius, params.min_bound, params.max_bound),
    }
}

/// Whether the particle's disc lies inside the region of the run.
pub open spec fn disc_in_region(p: Particle, params: SimulationParameters) -> bool {
    match params.boundary_shape {
        BoundaryShape::Circular => disc_in_circle(p.position, p.radius, params.boundary_radius),
        BoundaryShape::Rectangular => disc_in_rectangle(
            p.position,
            p.radius,
            params.min_bound,
            params.max_bound,
        ),
    }
}

/// Whether the point lies inside the region of the run.
pub open spec fn centre_in_region(p: Vec2, params: SimulationParameters) -> bool {
    match params.boundary_shape {
        BoundaryShape::Circular => params.boundary_radius@ >= 0 && norm_sq(p)
            <= params.boundary_radius@ * params.boundary_radius@,
        BoundaryShape::Rectangular => {
            &&& params.min_bound.x@ <= p.x@ <= params.max_bound.x@
            &&& params.min_bound.y@ <= p.y@ <= params.max_bound.y@
        },
    }
}

/// Whether the integration of a tick moves particle `i` by no more than its
/// own radius.
pub open spec fn last_move_within_radius(
    ps: Seq<Particle>,
    params: SimulationParameters,
    dt: Fixed,
    i: int,
) -> bool {
    dist_sq(stepped(ps, params, dt)[i].position, before_integration(ps, params)[i].position)
        <= ps[i].radius@ * ps[i].radius@
}

/// When only integration is left to do in a tick, every particle is well
/// formed, has the radius it had, and its disc lies inside the region, if
/// the region can hold it at all.
pub proof fn lemma_held_inside(ps: Seq<Particle>, params: SimulationParameters, i: int)
    requires
        particles_wf(ps),
        params.wf(),
        0 <= i < ps.len(),
    ensures
        before_integration(ps, params)[i].wf(),
        before_integration(ps, params)[i].radius == ps[i].radius,
        region_holds(ps[i].radius, params) ==> disc_in_region(
            before_integration(ps, params)[i],
            params,
        ),
{
    let pushed = with_forces(ps, params);
    assert(particles_wf(pushed));
    let bodies = bodies_of(pushed);
    assert(bodies_wf(bodies));
    lemma_energy_never_grows(bodies, params.substeps as int, params.restitution);
    let after = resolved(bodies, params.substeps as int, params.restitution);
    assert(after[i].2 == bodies[i].2);
    let moved = collided(pushed, params);
    assert(moved[i].wf());
    assert(moved[i].radius == ps[i].radius);
    if region_holds(ps[i].radius, params) {
        match params.boundary_shape {
            BoundaryShape::Circular => {
                lemma_placed_in_circle_inside(moved[i], params.boundary_radius, params.restitution);
            },
            BoundaryShape::Rectangular => {
                lemma_placed_in_rectangle_inside(
                    moved[i],
                    params.min_bound,
                    params.max_bound,
                    params.restitution,
                );
            },
        }
    }
}

/// Under Verlet integration, the place that a particle is remembered to
/// have come from lies inside the region after every tick: it is the place
/// where the boundary held the particle.
pub proof fn lemma_previous_position_inside(
    ps: Seq<Particle>,
    params: SimulationParameters,
    dt: Fixed,
    i: int,
)
    requires
        particles_wf(ps),
        params.wf(),
        0 <= i < ps.len(),
        params.integration == IntegrationScheme::Verlet,
        region_holds(ps[i].radius, params),
    ensures
        disc_in_region(
            Particle { position: stepped(ps, params, dt)[i].previous_position, ..ps[i] },
            params,
        ),
{
    lemma_held_inside(ps, params, i);
}

/// A sum of two vectors is no longer than the sum of bounds on their
/// lengths.
proof fn lemma_triangle(fx: int, fy: int, dx: int, dy: int, room: int, r: int)
    requires
        room >= 0,
        r >= 0,
        fx * fx + fy * fy <= room * room,
        dx * dx + dy * dy <= r * r,
    ensures
        (fx + dx) * (fx + dx) + (fy + dy) * (fy + dy) <= (room + r) * (room + r),
{
    let f2 = fx * fx + fy * fy;
    let d2 = dx * dx + dy * dy;
    let dot = fx * dx + fy * dy;
    let bound = room * r;
    lemma_dot_square(fx, fy, dx, dy);
    assert(f2 >= 0 && d2 >= 0) by (nonlinear_arith)
        requires
            f2 == fx * fx + fy * fy,
            d2 == dx * dx + dy * dy,
    ;
    assert(f2 * d2 <= bound * bound) by (nonlinear_arith)
        requires
            0 <= f2 <= room * room,
            0 <= d2 <= r * r,
            bound == room * r,
    ;
    assert(bound >= 0) by (nonlinear_arith)
        requires
            bound == room * r,
            room >= 0,
            r >= 0,
    ;
    if dot > bound {
        assert(dot * dot > bound * bound) by (nonlinear_arith)
            requires
                dot > bound,
                bound >= 0,
        ;
    }
    assert((fx + dx) * (fx + dx) + (fy + dy) * (fy + dy) == f2 + 2 * dot + d2) by (nonlinear_arith)
        requires
            f2 == fx * fx + fy * fy,
            d2 == dx * dx + dy * dy,
            dot == fx * dx + fy * dy,
    ;
    assert((room + r) * (room + r) == room * room + 2 * bound + r * r) by (nonlinear_arith)
        requires
            bound == room * r,
    ;
}

/// After a tick, a particle that integration has moved by no more than its
/// own radius lies inside the region: the boundary has held its disc inside,
/// and the last move of the tick cannot carry the centre across.
pub proof fn lemma_step_inside(ps: Seq<Particle>, params: SimulationParameters, dt: Fixed, i: int)
    requires
        particles_wf(ps),
        params.wf(),
        0 <= i < ps.len(),
        region_holds(ps[i].radius, params),
        last_move_within_radius(ps, params, dt, i),
    ensures
        centre_in_region(stepped(ps, params, dt)[i].position, params),
{
    lemma_held_inside(ps, params, i);
    let held = before_integration(ps, params)[i];
    let after = stepped(ps, params, dt)[i];
    let dx = after.position.x@ - held.position.x@;
    let dy = after.position.y@ - held.position.y@;
    let r = ps[i].radius@;
    match params.boundary_shape {
        BoundaryShape::Circular => {
            let room = params.boundary_radius@ - r;
            lemma_triangle(held.position.x@, held.position.y@, dx, dy, room, r);
        },
        BoundaryShape::Rectangular => {
            lemma_component_bound(dx, dy, r);
        },
    }
}

/// Resolves the collisions of a tick on a working copy of positions,
/// velocities and radii, and writes the result back when all passes are done.
pub fn collide(particles: &mut Vec<Particle>, params: &SimulationParameters)
    requires
        particles_wf(old(particles)@),
        params.wf(),
    ensures
        final(particles)@ == collided(old(particles)@, *params),
        particles_wf(final(particles)@),
{
    let count: usize = particles.len();
    let mut bodies: Vec<Body> = Vec::new();
    let mut i: usize = 0;
    while i < count
        invariant
            i <= count,
            count == particles@.len(),
            particles@ == old(particles)@,
            particles_wf(particles@),
            bodies@.len() == i,
            forall|k: int| 0 <= k < i ==> #[trigger] bodies@[k] == particles@[k].body(),
        decreases count - i,
    {
        let particle: Particle = particles[i];
        bodies.push((particle.position, particle.velocity, particle.radius));
        i = i + 1;
    }
    assert(bodies@ =~= bodies_of(particles@));
    assert(bodies_wf(bodies@));
    let ghost before = bodies@;
    check_collisions(&mut bodies, params.substeps, params.restitution);
    let mut i: usize = 0;
    while i < count
        invariant
            i <= count,
            count == particles@.len(),
            count == old(particles)@.len(),
            count == bodies@.len(),
            bodies_wf(bodies@),
            particles_wf(old(particles)@),
            forall|k: int|
                0 <= k < i ==> #[trigger] particles@[k] == (Particle {
                    position: bodies@[k].0,
                    velocity: bodies@[k].1,
                    ..old(particles)@[k]
                }),
            forall|k: int| i <= k < count ==> #[trigger] particles@[k] == old(particles)@[k],
        decreases count - i,
    {
        let mut particle: Particle = particles[i];
        let body: Body = bodies[i];
        particle.position = body.0;
        particle.velocity = body.1;
        particles.set(i, particle);
        i = i + 1;
    }
    assert(particles@ =~= collided(old(particles)@, *params));
}

/// Holds the particle inside the region of the run.
///
/// If the region can hold the disc, the disc lies inside it afterwards.
pub fn contain(particle: &mut Particle, params: &SimulationParameters)
    requires
        old(particle).wf(),
        params.wf(),
    ensures
        *final(particle) == contained(*old(particle), *params),
        final(particle).wf(),
        region_holds(old(particle).radius, *params) ==> disc_in_region(*final(particle), *params),
{
    match params.boundary_shape {
        BoundaryShape::Circular => check_and_place_within_bounds(
            particle,
            params.boundary_radius,
            params.restitution,
        ),
        BoundaryShape::Rectangular => check_and_place_within_bounds_rectangle(
            particle,
            params.min_bound,
            params.max_bound,
            params.restitution,
        ),
    }
}

/// Advances all particles by one tick of length `delta_time`: gathers the
/// forces, resolves the collisions, holds every particle inside the region
/// and integrates last.
pub fn update_system(
    particles: &mut Vec<Particle>,
    parameters: &SimulationParameters,
    delta_time: Fixed,
)
    requires
        particles_wf(old(particles)@),
        parameters.wf(),
        delta_time.wf(),
    ensures
        final(particles)@ == stepped(old(particles)@, *parameters, delta_time),
        final(particles)@.len() == old(particles)@.len(),
        particles_wf(final(particles)@),
        forall|i: int|
            0 <= i < old(particles)@.len() && region_holds(old(particles)@[i].radius, *parameters)
                && last_move_within_radius(old(particles)@, *parameters, delta_time, i)
                ==> centre_in_region((#[trigger] final(particles)@[i]).position, *parameters),
{
    proof {
        assert forall|i: int|
            0 <= i < particles@.len() && region_holds(particles@[i].radius, *parameters)
                && last_move_within_radius(particles@, *parameters, delta_time, i) implies
            centre_in_region(
            (#[trigger] stepped(particles@, *parameters, delta_time)[i]).position,
            *parameters,
        ) by {
            lemma_step_inside(particles@, *parameters, delta_time, i);
        }
    }
    apply_forces(particles, parameters);
    collide(particles, parameters);
    let count: usize = particles.len();
    let ghost moved = particles@;
    let mut i: usize = 0;
    while i < count
        invariant
            i <= count,
            count == particles@.len(),
            count == moved.len(),
            particles_wf(moved),
            parameters.wf(),
            delta_time.wf(),
            forall|k: int|
                0 <= k < i ==> #[trigger] particles@[k] == integrated(
                    contained(moved[k], *parameters),
                    parameters.integration,
                    delta_time,
                ),
            forall|k: int| 0 <= k < i ==> (#[trigger] particles@[k]).wf(),
            forall|k: int| i <= k < count ==> #[trigger] particles@[k] == moved[k],
        decreases count - i,
    {
        let mut particle: Particle = particles[i];
        contain(&mut particle, parameters);
        integrate(&mut particle, parameters.integration, delta_time);
        particles.set(i, particle);
        i = i + 1;
    }
    assert(particles@ =~= stepped(old(particles)@, *parameters, delta_time));
}

} // verus!
