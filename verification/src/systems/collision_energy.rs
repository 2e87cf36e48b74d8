//! Collision resolution never adds kinetic energy.
//!
//! The energy of a body is weighed by its radius, as the impulses are. It is
//! counted here doubled and in raw units, so that it is a whole number.
use vstd::prelude::*;
use crate::numeric::fixed::{clamp, fixed, lemma_trunc_square, trunc_div, Fixed, SCALE};
use crate::numeric::vector::{lemma_normal_length, normal_x, normal_y};
use crate::systems::collision_system::{
    bodies_wf, body_energy, body_wf, doubled_kinetic_energy, exchange, normal_speed, overlapping,
    resolved, resolved_pair, resolved_row, resolved_rows, valid_restitution, with_pair_resolved,
    Body,
};

verus! {

/// The square of a sum.
proof fn lemma_square_of_sum(x: int, y: int)
    by (nonlinear_arith)
    ensures
        (x + y) * (x + y) == x * x + 2 * (x * y) + y * y,
        (x - y) * (x - y) == x * x - 2 * (x * y) + y * y,
{
}

/// Regrouping of the products that the energy balance of one axis is made of.
proof fn lemma_axis_terms(r: int, other: int, v: int, den: int, g: int)
    by (nonlinear_arith)
    ensures
        r * ((v * den) * (v * den)) == den * den * (r * (v * v)),
        r * ((v * den) * (other * g)) == (r * other) * (den * g * v),
        r * ((other * g) * (other * g)) == (r * other) * (other * (g * g)),
{
}

/// Along one axis, what the ideal impulse adds to the weighted squares of the
/// two velocities, all scaled by `den * den`.
proof fn lemma_axis_energy(ra: int, rb: int, va: int, vb: int, den: int, g: int)
    ensures
        ra * ((va * den + rb * g) * (va * den + rb * g)) + rb * ((vb * den - ra * g) * (vb * den
            - ra * g)) == den * den * (ra * (va * va) + rb * (vb * vb)) + (ra * rb) * (2 * (den
            * g * (va - vb)) + (ra + rb) * (g * g)),
{
    let xa = va * den;
    let ya = rb * g;
    let xb = vb * den;
    let yb = ra * g;
    lemma_square_of_sum(xa, ya);
    lemma_square_of_sum(xb, yb);
    lemma_axis_terms(ra, rb, va, den, g);
    lemma_axis_terms(rb, ra, vb, den, g);
    let w = ra * rb;
    assert(rb * ra == w) by (nonlinear_arith)
        requires
            w == ra * rb,
    ;
    assert(ra * ((xa + ya) * (xa + ya)) == ra * (xa * xa) + 2 * (ra * (xa * ya)) + ra * (ya
        * ya)) by (nonlinear_arith)
        requires
            (xa + ya) * (xa + ya) == xa * xa + 2 * (xa * ya) + ya * ya,
    ;
    assert(rb * ((xb - yb) * (xb - yb)) == rb * (xb * xb) - 2 * (rb * (xb * yb)) + rb * (yb
        * yb)) by (nonlinear_arith)
        requires
            (xb - yb) * (xb - yb) == xb * xb - 2 * (xb * yb) + yb * yb,
    ;
    let da = den * g * va;
    let db = den * g * vb;
    assert(den * g * (va - vb) == da - db) by (nonlinear_arith)
        requires
            da == den * g * va,
            db == den * g * vb,
    ;
    let gg = g * g;
    assert(w * (2 * (da - db) + (ra + rb) * gg) == 2 * (w * da) - 2 * (w * db) + w * (rb * gg)
        + w * (ra * gg)) by (nonlinear_arith);
    assert(den * den * (ra * (va * va) + rb * (vb * vb)) == den * den * (ra * (va * va)) + den
        * den * (rb * (vb * vb))) by (nonlinear_arith);
}

/// Saturating a number never grows its square.
proof fn lemma_clamp_square(v: int)
    by (nonlinear_arith)
    ensures
        clamp(v) * clamp(v) <= v * v,
{
}

/// A velocity component that is rounded toward zero and saturated is no
/// larger in square than the exact quotient.
proof fn lemma_rounded_square(a: int, d: int)
    requires
        d > 0,
    ensures
        (d * d) * (fixed(trunc_div(a, d))@ * fixed(trunc_div(a, d))@) <= a * a,
{
    let q = trunc_div(a, d);
    let v = clamp(q);
    lemma_trunc_square(a, d);
    lemma_clamp_square(q);
    assert((d * d) * (v * v) <= a * a) by (nonlinear_arith)
        requires
            v * v <= q * q,
            (q * q) * (d * d) <= a * a,
    ;
}

/// The weighted squared speed of a body after rounding, scaled by
/// `den * den`, is at most that of the exact quotients.
proof fn lemma_rounded_body(r: int, ax: int, ay: int, den: int)
    requires
        den > 0,
        r >= 0,
    ensures
        (den * den) * (r * (fixed(trunc_div(ax, den))@ * fixed(trunc_div(ax, den))@ + fixed(
            trunc_div(ay, den),
        )@ * fixed(trunc_div(ay, den))@)) <= r * (ax * ax + ay * ay),
{
    let vx = fixed(trunc_div(ax, den))@;
    let vy = fixed(trunc_div(ay, den))@;
    lemma_rounded_square(ax, den);
    lemma_rounded_square(ay, den);
    let dd = den * den;
    assert(dd * (r * (vx * vx + vy * vy)) <= r * (ax * ax + ay * ay)) by (nonlinear_arith)
        requires
            r >= 0,
            dd * (vx * vx) <= ax * ax,
            dd * (vy * vy) <= ay * ay,
    ;
}

/// Regrouping of the two kinds of product in the energy balance.
proof fn lemma_impulse_terms(reach: int, scale: int, t: int, n: int, u: int)
    by (nonlinear_arith)
    ensures
        (reach * scale) * (t * n) * u == (reach * t) * (scale * (u * n)),
        reach * ((t * n) * (t * n)) == (reach * t) * (t * (n * n)),
{
}

/// The ideal impulse takes energy out of the pair, or leaves it as it is:
/// what it adds, scaled, is `ra * rb * reach * t * (2 * scale * p + t * q)`,
/// which is never positive.
proof fn lemma_impulse_sign(
    ra: int,
    rb: int,
    reach: int,
    scale: int,
    t: int,
    gain: int,
    ux: int,
    uy: int,
    nx: int,
    ny: int,
)
    requires
        ra > 0,
        rb > 0,
        scale > 0,
        reach == ra + rb,
        ux * nx + uy * ny <= 0,
        nx * nx + ny * ny <= scale * scale,
        0 <= gain <= 2 * scale,
        t == (gain * (-(ux * nx + uy * ny))) / (scale * scale),
    ensures
        t >= 0,
        (ra * rb) * (2 * ((reach * scale) * (t * nx) * ux) + 2 * ((reach * scale) * (t * ny) * uy)
            + reach * ((t * nx) * (t * nx)) + reach * ((t * ny) * (t * ny))) <= 0,
{
    let p = ux * nx + uy * ny;
    let q = nx * nx + ny * ny;
    let ss = scale * scale;
    let x = gain * (-p);
    let sp = scale * p;
    assert(ss > 0) by (nonlinear_arith)
        requires
            ss == scale * scale,
            scale > 0,
    ;
    assert(x >= 0 && x <= -2 * sp) by (nonlinear_arith)
        requires
            x == gain * (-p),
            sp == scale * p,
            0 <= gain <= 2 * scale,
            p <= 0,
    ;
    assert(t >= 0 && t * ss <= x) by (nonlinear_arith)
        requires
            t == x / ss,
            x >= 0,
            ss > 0,
    ;
    assert(t * q <= t * ss) by (nonlinear_arith)
        requires
            t >= 0,
            q <= ss,
    ;
    let bracket = 2 * sp + t * q;
    assert(bracket <= 0);
    lemma_impulse_terms(reach, scale, t, nx, ux);
    lemma_impulse_terms(reach, scale, t, ny, uy);
    let k = reach * t;
    let ax = scale * (ux * nx);
    let ay = scale * (uy * ny);
    let bx = t * (nx * nx);
    let by_ = t * (ny * ny);
    assert(ax + ay == sp) by (nonlinear_arith)
        requires
            ax == scale * (ux * nx),
            ay == scale * (uy * ny),
            sp == scale * (ux * nx + uy * ny),
    ;
    assert(bx + by_ == t * q) by (nonlinear_arith)
        requires
            bx == t * (nx * nx),
            by_ == t * (ny * ny),
            q == nx * nx + ny * ny,
    ;
    assert(2 * (k * ax) + 2 * (k * ay) + k * bx + k * by_ == k * bracket) by (nonlinear_arith)
        requires
            bracket == 2 * (ax + ay) + (bx + by_),
    ;
    assert(k >= 0) by (nonlinear_arith)
        requires
            k == reach * t,
            reach > 0,
            t >= 0,
    ;
    assert((ra * rb) * (k * bracket) <= 0) by (nonlinear_arith)
        requires
            ra > 0,
            rb > 0,
            k >= 0,
            bracket <= 0,
    ;
}

/// Resolving a contact keeps both bodies well formed and their radii.
pub proof fn lemma_pair_wf(a: Body, b: Body, e: Fixed)
    requires
        body_wf(a),
        body_wf(b),
    ensures
        body_wf(resolved_pair(a, b, e).0),
        body_wf(resolved_pair(a, b, e).1),
        resolved_pair(a, b, e).0.2 == a.2,
        resolved_pair(a, b, e).1.2 == b.2,
{
}

/// Resolving one contact never adds kinetic energy to the pair.
pub proof fn lemma_pair_energy(a: Body, b: Body, e: Fixed)
    requires
        body_wf(a),
        body_wf(b),
        valid_restitution(e),
    ensures
        body_energy(resolved_pair(a, b, e).0) + body_energy(resolved_pair(a, b, e).1)
            <= body_energy(a) + body_energy(b),
{
    if overlapping(a, b) && a.0 != b.0 && normal_speed(a, b) <= 0 {
        let ra = a.2@;
        let rb = b.2@;
        let reach = ra + rb;
        let scale = SCALE as int;
        let den = reach * scale;
        let t = exchange(a, b, e);
        let nx = normal_x(a.0, b.0);
        let ny = normal_y(a.0, b.0);
        let ux = a.1.x@ - b.1.x@;
        let uy = a.1.y@ - b.1.y@;
        let gx = t * nx;
        let gy = t * ny;
        lemma_normal_length(a.0, b.0);
        lemma_impulse_sign(ra, rb, reach, scale, t, scale + e@, ux, uy, nx, ny);
        lemma_axis_energy(ra, rb, a.1.x@, b.1.x@, den, gx);
        lemma_axis_energy(ra, rb, a.1.y@, b.1.y@, den, gy);
        let ax = a.1.x@ * den + rb * gx;
        let ay = a.1.y@ * den + rb * gy;
        let bx = b.1.x@ * den - ra * gx;
        let by_ = b.1.y@ * den - ra * gy;
        assert(t * rb * nx == rb * gx && t * rb * ny == rb * gy && (-t) * ra * nx == -(ra * gx)
            && (-t) * ra * ny == -(ra * gy)) by (nonlinear_arith)
            requires
                gx == t * nx,
                gy == t * ny,
        ;
        assert(den > 0) by (nonlinear_arith)
            requires
                den == reach * scale,
                reach > 0,
                scale > 0,
        ;
        let after = resolved_pair(a, b, e);
        assert(after.0.1.x@ == fixed(trunc_div(ax, den))@);
        assert(after.0.1.y@ == fixed(trunc_div(ay, den))@);
        assert(after.1.1.x@ == fixed(trunc_div(bx, den))@);
        assert(after.1.1.y@ == fixed(trunc_div(by_, den))@);
        lemma_rounded_body(ra, ax, ay, den);
        lemma_rounded_body(rb, bx, by_, den);
        let dd = den * den;
        let ea = body_energy(after.0);
        let eb = body_energy(after.1);
        let ideal_a = ra * (ax * ax + ay * ay);
        let ideal_b = rb * (bx * bx + by_ * by_);
        assert(dd * ea <= ideal_a);
        assert(dd * eb <= ideal_b);
        let before = body_energy(a) + body_energy(b);
        let w = ra * rb;
        let extra_x = 2 * (den * gx * ux) + reach * (gx * gx);
        let extra_y = 2 * (den * gy * uy) + reach * (gy * gy);
        let qx = ra * (a.1.x@ * a.1.x@) + rb * (b.1.x@ * b.1.x@);
        let qy = ra * (a.1.y@ * a.1.y@) + rb * (b.1.y@ * b.1.y@);
        assert(ideal_a == ra * (ax * ax) + ra * (ay * ay)) by (nonlinear_arith)
            requires
                ideal_a == ra * (ax * ax + ay * ay),
        ;
        assert(ideal_b == rb * (bx * bx) + rb * (by_ * by_)) by (nonlinear_arith)
            requires
                ideal_b == rb * (bx * bx + by_ * by_),
        ;
        assert(before == qx + qy) by (nonlinear_arith)
            requires
                before == ra * (a.1.x@ * a.1.x@ + a.1.y@ * a.1.y@) + rb * (b.1.x@ * b.1.x@
                    + b.1.y@ * b.1.y@),
                qx == ra * (a.1.x@ * a.1.x@) + rb * (b.1.x@ * b.1.x@),
                qy == ra * (a.1.y@ * a.1.y@) + rb * (b.1.y@ * b.1.y@),
        ;
        assert(dd * before == dd * qx + dd * qy) by (nonlinear_arith)
            requires
                before == qx + qy,
        ;
        assert(ra * (ax * ax) + rb * (bx * bx) == dd * qx + w * extra_x);
        assert(ra * (ay * ay) + rb * (by_ * by_) == dd * qy + w * extra_y);
        assert(ideal_a + ideal_b == dd * before + w * extra_x + w * extra_y);
        assert(w * extra_x + w * extra_y == w * (2 * (den * gx * ux) + 2 * (den * gy * uy)
            + reach * (gx * gx) + reach * (gy * gy))) by (nonlinear_arith)
            requires
                extra_x == 2 * (den * gx * ux) + reach * (gx * gx),
                extra_y == 2 * (den * gy * uy) + reach * (gy * gy),
        ;
        assert(dd * (ea + eb) <= dd * before) by (nonlinear_arith)
            requires
                dd * ea <= ideal_a,
                dd * eb <= ideal_b,
                ideal_a + ideal_b <= dd * before,
        ;
        assert(ea + eb <= before) by (nonlinear_arith)
            requires
                dd * (ea + eb) <= dd * before,
                dd == den * den,
                den > 0,
        ;
    }
}

/// Whether the two lists have the same radii, body by body.
pub open spec fn same_radii(s: Seq<Body>, t: Seq<Body>) -> bool {
    s.len() == t.len() && forall|j: int| 0 <= j < s.len() ==> (#[trigger] s[j]).2 == t[j].2
}

/// Replacing one body changes the total by the difference of the two
/// bodies' energies.
pub proof fn lemma_energy_update(s: Seq<Body>, i: int, x: Body)
    requires
        0 <= i < s.len(),
    ensures
        doubled_kinetic_energy(s.update(i, x)) == doubled_kinetic_energy(s) - body_energy(s[i])
            + body_energy(x),
    decreases s.len(),
{
    let u = s.update(i, x);
    if i == s.len() - 1 {
        assert(u.drop_last() =~= s.drop_last());
    } else {
        assert(u.drop_last() =~= s.drop_last().update(i, x));
        lemma_energy_update(s.drop_last(), i, x);
    }
}

/// Resolving one pair of a list keeps its length and well-formedness and
/// never adds energy.
pub proof fn lemma_pair_step(s: Seq<Body>, i: int, k: int, e: Fixed)
    requires
        bodies_wf(s),
        valid_restitution(e),
        0 <= i < k < s.len(),
    ensures
        with_pair_resolved(s, i, k, e).len() == s.len(),
        bodies_wf(with_pair_resolved(s, i, k, e)),
        same_radii(with_pair_resolved(s, i, k, e), s),
        doubled_kinetic_energy(with_pair_resolved(s, i, k, e)) <= doubled_kinetic_energy(s),
{
    let r = resolved_pair(s[i], s[k], e);
    lemma_pair_wf(s[i], s[k], e);
    lemma_pair_energy(s[i], s[k], e);
    let mid = s.update(i, r.0);
    lemma_energy_update(s, i, r.0);
    lemma_energy_update(mid, k, r.1);
}

/// A row of contacts keeps the list's length and well-formedness and never
/// adds energy.
pub proof fn lemma_row_energy(s: Seq<Body>, i: int, end: int, e: Fixed)
    requires
        bodies_wf(s),
        valid_restitution(e),
        0 <= i < s.len(),
        end <= s.len(),
    ensures
        resolved_row(s, i, end, e).len() == s.len(),
        bodies_wf(resolved_row(s, i, end, e)),
        same_radii(resolved_row(s, i, end, e), s),
        doubled_kinetic_energy(resolved_row(s, i, end, e)) <= doubled_kinetic_energy(s),
    decreases end - i,
{
    if end > i + 1 {
        lemma_row_energy(s, i, end - 1, e);
        lemma_pair_step(resolved_row(s, i, end - 1, e), i, end - 1, e);
    }
}

/// The first `rows` rows of a pass keep the list's length and
/// well-formedness and never add energy.
pub proof fn lemma_rows_energy(s: Seq<Body>, rows: int, e: Fixed)
    requires
        bodies_wf(s),
        valid_restitution(e),
        rows <= s.len(),
    ensures
        resolved_rows(s, rows, e).len() == s.len(),
        bodies_wf(resolved_rows(s, rows, e)),
        same_radii(resolved_rows(s, rows, e), s),
        doubled_kinetic_energy(resolved_rows(s, rows, e)) <= doubled_kinetic_energy(s),
    decreases rows,
{
    if rows > 0 {
        lemma_rows_energy(s, rows - 1, e);
        lemma_row_energy(resolved_rows(s, rows - 1, e), rows - 1, s.len() as int, e);
    }
}

/// Whatever the bodies, the number of passes and the restitution between
/// zero and one, collision resolution leaves the bodies with no more kinetic
/// energy than they had. It keeps their number, their radii and their
/// well-formedness.
pub proof fn lemma_energy_never_grows(s: Seq<Body>, substeps: int, e: Fixed)
    requires
        bodies_wf(s),
        valid_restitution(e),
    ensures
        resolved(s, substeps, e).len() == s.len(),
        bodies_wf(resolved(s, substeps, e)),
        same_radii(resolved(s, substeps, e), s),
        doubled_kinetic_energy(resolved(s, substeps, e)) <= doubled_kinetic_energy(s),
    decreases substeps,
{
    if substeps > 0 {
        lemma_energy_never_grows(s, substeps - 1, e);
        let before = resolved(s, substeps - 1, e);
        lemma_rows_energy(before, before.len() as int, e);
    }
}

} // verus!
