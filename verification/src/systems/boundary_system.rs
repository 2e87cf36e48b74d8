//! Keeping a particle inside the region of the run: a circle about the
//! origin, or a box.
use vstd::prelude::*;
use crate::components::particle::Particle;
use crate::numeric::fixed::{
    fixed, lemma_mul_bound, lemma_trunc_square, trunc_div, Fixed, LIMIT, SCALE,
};
use crate::numeric::root::{
    ceil_sqrt, floor_sqrt, isqrt_up, lemma_ceil_sqrt_bounds, lemma_floor_sqrt_exists,
};
use crate::numeric::vector::{normal_x, normal_y, vec2, Vec2};
use crate::systems::collision_system::valid_restitution;

verus! {

/// The velocity component after a bounce off a wall: reversed and scaled by
/// the restitution.
pub open spec fn bounced(vel: Fixed, e: Fixed) -> Fixed {
    fixed(trunc_div(-vel@ * e@, SCALE as int))
}

/// Position and velocity along one axis after the disc is held between the
/// walls at `lo` and `hi`. The lower wall is looked at first.
pub open spec fn placed_on_axis(pos: Fixed, vel: Fixed, radius: Fixed, lo: Fixed, hi: Fixed, e: Fixed)
    -> (Fixed, Fixed) {
    if pos@ - radius@ < lo@ {
        (fixed(lo@ + radius@), bounced(vel, e))
    } else if pos@ + radius@ > hi@ {
        (fixed(hi@ - radius@), bounced(vel, e))
    } else {
        (pos, vel)
    }
}

/// The particle after it is held inside the box between `lo` and `hi`, each
/// axis on its own.
pub open spec fn placed_in_rectangle(p: Particle, lo: Vec2, hi: Vec2, e: Fixed) -> Particle {
    let x = placed_on_axis(p.position.x, p.velocity.x, p.radius, lo.x, hi.x, e);
    let y = placed_on_axis(p.position.y, p.velocity.y, p.radius, lo.y, hi.y, e);
    Particle {
        position: Vec2 { x: x.0, y: y.0 },
        velocity: Vec2 { x: x.1, y: y.1 },
        ..p
    }
}

/// Whether the disc of radius `radius` about `p` lies inside the box between
/// `lo` and `hi`.
pub open spec fn disc_in_rectangle(p: Vec2, radius: Fixed, lo: Vec2, hi: Vec2) -> bool {
    &&& lo.x@ + radius@ <= p.x@ <= hi.x@ - radius@
    &&& lo.y@ + radius@ <= p.y@ <= hi.y@ - radius@
}

/// Whether the box between `lo` and `hi` is wide and high enough to hold a
/// disc of radius `radius`.
pub open spec fn rectangle_holds(radius: Fixed, lo: Vec2, hi: Vec2) -> bool {
    lo.x@ + 2 * radius@ <= hi.x@ && lo.y@ + 2 * radius@ <= hi.y@
}

/// A box that can hold the disc does hold it once the particle has been
/// placed.
pub proof fn lemma_placed_in_rectangle_inside(p: Particle, lo: Vec2, hi: Vec2, e: Fixed)
    requires
        p.wf(),
        lo.wf(),
        hi.wf(),
        rectangle_holds(p.radius, lo, hi),
    ensures
        disc_in_rectangle(
            placed_in_rectangle(p, lo, hi, e).position,
            placed_in_rectangle(p, lo, hi, e).radius,
            lo,
            hi,
        ),
{
}

/// The squared distance of `p` from the origin.
pub open spec fn norm_sq(p: Vec2) -> int {
    p.x@ * p.x@ + p.y@ * p.y@
}

/// Whether the disc reaches beyond the circle of radius `boundary_radius`
/// about the origin.
pub open spec fn beyond_circle(p: Particle, boundary_radius: Fixed) -> bool {
    let room = boundary_radius@ - p.radius@;
    room < 0 || norm_sq(p.position) > room * room
}

/// One velocity component after reflection at the circle: `v - (1 + e) *
/// (v . n) * n`, rounded toward zero once. `along` is `v . n` and `n` the
/// component of the inward normal, both in millionths.
pub open spec fn reflected(v: int, gain: int, along: int, n: int) -> int {
    trunc_div(v * (SCALE * SCALE * SCALE) - gain * along * n, SCALE * SCALE * SCALE)
}

/// The particle after it is held inside the circle of radius
/// `boundary_radius` about the origin.
///
/// A disc that reaches beyond the circle is moved along the line through the
/// origin until it touches the circle from inside, and the part of its
/// velocity along that line is reversed and scaled by the restitution. A
/// particle at the origin itself is left as it is: no line is singled out.
pub open spec fn placed_in_circle(p: Particle, boundary_radius: Fixed, e: Fixed) -> Particle {
    if !beyond_circle(p, boundary_radius) || p.position == vec2(0, 0) {
        p
    } else {
        let room = boundary_radius@ - p.radius@;
        let len = ceil_sqrt(norm_sq(p.position));
        let nx = normal_x(vec2(0, 0), p.position);
        let ny = normal_y(vec2(0, 0), p.position);
        let along = p.velocity.x@ * nx + p.velocity.y@ * ny;
        let gain = SCALE + e@;
        Particle {
            position: vec2(
                trunc_div(p.position.x@ * room, len),
                trunc_div(p.position.y@ * room, len),
            ),
            velocity: vec2(
                reflected(p.velocity.x@, gain, along, nx),
                reflected(p.velocity.y@, gain, along, ny),
            ),
            ..p
        }
    }
}

/// Whether the disc of radius `radius` about `p` lies inside the circle of
/// radius `boundary_radius` about the origin.
pub open spec fn disc_in_circle(p: Vec2, radius: Fixed, boundary_radius: Fixed) -> bool {
    let room = boundary_radius@ - radius@;
    room >= 0 && norm_sq(p) <= room * room
}

/// Regrouping of a squared product.
proof fn lemma_square_of_product(a: int, b: int)
    by (nonlinear_arith)
    ensures
        (a * b) * (a * b) == (b * b) * (a * a),
{
}

/// A point scaled by `room / len`, where `len` is at least the point's
/// distance from the origin, lies no further than `room` from the origin.
proof fn lemma_scaled_inside(px: int, py: int, room: int, len: int)
    requires
        len >= 1,
        room >= 0,
        px * px + py * py <= len * len,
    ensures
        ({
            let x = fixed(trunc_div(px * room, len))@;
            let y = fixed(trunc_div(py * room, len))@;
            x * x + y * y <= room * room
        }),
{
    let qx = trunc_div(px * room, len);
    let qy = trunc_div(py * room, len);
    let x = fixed(qx)@;
    let y = fixed(qy)@;
    lemma_trunc_square(px * room, len);
    lemma_trunc_square(py * room, len);
    lemma_square_of_product(px, room);
    lemma_square_of_product(py, room);
    assert(x * x <= qx * qx && y * y <= qy * qy) by (nonlinear_arith)
        requires
            (0 <= x <= qx) || (qx <= x <= 0),
            (0 <= y <= qy) || (qy <= y <= 0),
    ;
    let ll = len * len;
    let rr = room * room;
    let n2 = px * px + py * py;
    let q2 = x * x + y * y;
    assert(q2 * ll <= (qx * qx) * ll + (qy * qy) * ll) by (nonlinear_arith)
        requires
            q2 == x * x + y * y,
            x * x <= qx * qx,
            y * y <= qy * qy,
            ll >= 0,
    ;
    assert(rr * n2 == rr * (px * px) + rr * (py * py)) by (nonlinear_arith)
        requires
            n2 == px * px + py * py,
    ;
    assert(rr * n2 <= rr * ll) by (nonlinear_arith)
        requires
            n2 <= ll,
            rr >= 0,
    ;
    assert(q2 <= rr) by (nonlinear_arith)
        requires
            q2 * ll <= rr * ll,
            ll == len * len,
            len >= 1,
    ;
}

/// A circle that can hold the disc does hold it once the particle has been
/// placed.
pub proof fn lemma_placed_in_circle_inside(p: Particle, boundary_radius: Fixed, e: Fixed)
    requires
        p.wf(),
        boundary_radius.wf(),
        boundary_radius@ >= p.radius@,
    ensures
        disc_in_circle(
            placed_in_circle(p, boundary_radius, e).position,
            placed_in_circle(p, boundary_radius, e).radius,
            boundary_radius,
        ),
{
    let room = boundary_radius@ - p.radius@;
    let px = p.position.x@;
    let py = p.position.y@;
    let n2 = norm_sq(p.position);
    assert(room * room >= 0) by (nonlinear_arith);
    if beyond_circle(p, boundary_radius) && p.position != vec2(0, 0) {
        assert(n2 >= 1) by (nonlinear_arith)
            requires
                n2 == px * px + py * py,
                px != 0 || py != 0,
        ;
        lemma_floor_sqrt_exists(n2);
        lemma_ceil_sqrt_bounds(n2, floor_sqrt(n2));
        lemma_scaled_inside(px, py, room, ceil_sqrt(n2));
    } else if beyond_circle(p, boundary_radius) {
        assert(px == 0 && py == 0);
        assert(n2 == 0) by (nonlinear_arith)
            requires
                n2 == px * px + py * py,
                px == 0,
                py == 0,
        ;
    }
}

/// Holds the particle inside the circle of radius `boundary_radius` about
/// the origin.
///
/// If the circle can hold the disc, the disc lies inside it afterwards.
pub fn check_and_place_within_bounds(
    particle: &mut Particle,
    boundary_radius: Fixed,
    restitution: Fixed,
)
    requires
        old(particle).wf(),
        boundary_radius.wf(),
        valid_restitution(restitution),
    ensures
        *final(particle) == placed_in_circle(*old(particle), boundary_radius, restitution),
        final(particle).wf(),
        boundary_radius@ >= old(particle).radius@ ==> disc_in_circle(
            final(particle).position,
            final(particle).radius,
            boundary_radius,
        ),
{
    proof {
        if boundary_radius@ >= particle.radius@ {
            lemma_placed_in_circle_inside(*particle, boundary_radius, restitution);
        }
    }
    let px: i128 = particle.position.x.raw as i128;
    let py: i128 = particle.position.y.raw as i128;
    let room: i128 = boundary_radius.raw as i128 - particle.radius.raw as i128;
    proof {
        lemma_mul_bound(px as int, px as int, LIMIT as int, LIMIT as int);
        lemma_mul_bound(py as int, py as int, LIMIT as int, LIMIT as int);
        lemma_mul_bound(room as int, room as int, 2 * LIMIT, 2 * LIMIT);
        assert(px * px >= 0 && py * py >= 0) by (nonlinear_arith);
    }
    let len2: i128 = px * px + py * py;
    if !(room < 0 || len2 > room * room) || (px == 0 && py == 0) {
        return ;
    }
    let inward: Vec2 = Vec2::zero().unit_from(particle.position);
    let nx: i128 = inward.x.raw as i128;
    let ny: i128 = inward.y.raw as i128;
    let len: i128 = isqrt_up(len2 as u128) as i128;
    proof {
        assert(len2 >= 1) by (nonlinear_arith)
            requires
                len2 == px * px + py * py,
                px != 0 || py != 0,
        ;
        lemma_floor_sqrt_exists(len2 as int);
        lemma_ceil_sqrt_bounds(len2 as int, floor_sqrt(len2 as int));
        lemma_mul_bound(px as int, room as int, LIMIT as int, 2 * LIMIT);
        lemma_mul_bound(py as int, room as int, LIMIT as int, 2 * LIMIT);
    }
    let vx: i128 = particle.velocity.x.raw as i128;
    let vy: i128 = particle.velocity.y.raw as i128;
    proof {
        lemma_mul_bound(vx as int, nx as int, LIMIT as int, SCALE as int);
        lemma_mul_bound(vy as int, ny as int, LIMIT as int, SCALE as int);
    }
    let along: i128 = vx * nx + vy * ny;
    let gain: i128 = SCALE as i128 + restitution.raw as i128;
    let cube: i128 = (SCALE as i128) * (SCALE as i128) * (SCALE as i128);
    proof {
        lemma_mul_bound(gain as int, along as int, 2 * SCALE, 2 * LIMIT * SCALE);
        lemma_mul_bound(gain * along, nx as int, 4 * LIMIT * SCALE * SCALE, SCALE as int);
        lemma_mul_bound(gain * along, ny as int, 4 * LIMIT * SCALE * SCALE, SCALE as int);
        lemma_mul_bound(vx as int, cube as int, LIMIT as int, cube as int);
        lemma_mul_bound(vy as int, cube as int, LIMIT as int, cube as int);
    }
    particle.position = Vec2 {
        x: Fixed::from_wide((px * room) / len),
        y: Fixed::from_wide((py * room) / len),
    };
    particle.velocity = Vec2 {
        x: Fixed::from_wide((vx * cube - gain * along * nx) / cube),
        y: Fixed::from_wide((vy * cube - gain * along * ny) / cube),
    };
}

/// Holds position and velocity along one axis between two walls.
fn place_on_axis(pos: Fixed, vel: Fixed, radius: Fixed, lo: Fixed, hi: Fixed, e: Fixed) -> (r: (
    Fixed,
    Fixed,
))
    requires
        pos.wf(),
        vel.wf(),
        radius.wf(),
        lo.wf(),
        hi.wf(),
        e.wf(),
    ensures
        r == placed_on_axis(pos, vel, radius, lo, hi, e),
        r.0.wf(),
        r.1.wf(),
{
    if (pos.raw as i128) - (radius.raw as i128) < lo.raw as i128 {
        (lo.add(radius), vel.neg().mul(e))
    } else if (pos.raw as i128) + (radius.raw as i128) > hi.raw as i128 {
        (hi.sub(radius), vel.neg().mul(e))
    } else {
        (pos, vel)
    }
}

/// Holds the particle inside the box between `min_bounds` and `max_bounds`.
///
/// If the box can hold the disc, the disc lies inside it afterwards.
pub fn check_and_place_within_bounds_rectangle(
    particle: &mut Particle,
    min_bounds: Vec2,
    max_bounds: Vec2,
    restitution: Fixed,
)
    requires
        old(particle).wf(),
        min_bounds.wf(),
        max_bounds.wf(),
        valid_restitution(restitution),
    ensures
        *final(particle) == placed_in_rectangle(*old(particle), min_bounds, max_bounds, restitution),
        final(particle).wf(),
        rectangle_holds(old(particle).radius, min_bounds, max_bounds) ==> disc_in_rectangle(
            final(particle).position,
            final(particle).radius,
            min_bounds,
            max_bounds,
        ),
{
    let x = place_on_axis(
        particle.position.x,
        particle.velocity.x,
        particle.radius,
        min_bounds.x,
        max_bounds.x,
        restitution,
    );
    let y = place_on_axis(
        particle.position.y,
        particle.velocity.y,
        particle.radius,
        min_bounds.y,
        max_bounds.y,
        restitution,
    );
    particle.position = Vec2 { x: x.0, y: y.0 };
    particle.velocity = Vec2 { x: x.1, y: y.1 };
}

} // verus!
