//! The smoothing kernel of the density field and its derivative.
//!
//! The kernel is `W(d, h) = 4 (h^2 - d^2)^3 / (pi h^8)` for `d < h` and zero
//! from `h` on: the weight, per unit of area, that a neighbour at distance
//! `d` has within the support radius `h`. Over the reals its integral over
//! the plane is one. Here the value is rounded up, so that a neighbour inside
//! the support never weighs nothing; the derivative is rounded toward zero.
use vstd::arithmetic::div_mod::lemma_div_is_ordered;
use vstd::prelude::*;
use crate::numeric::fixed::{ceil_div, clamp, lemma_mul_bound, Fixed, LIMIT, SCALE};

verus! {

/// The circle constant in millionths.
pub const PI: i64 = 3_141_593;

/// The ratio `d / h` in millionths, rounded down.
pub open spec fn support_fraction(dist: int, h: int) -> int {
    (dist * SCALE) / h
}

/// `1 - (d / h)^2` in millionths.
pub open spec fn falloff(dist: int, h: int) -> int {
    SCALE - (support_fraction(dist, h) * support_fraction(dist, h)) / (SCALE as int)
}

/// The raw value of the kernel at distance `dist` for the support radius
/// `h`, both raw: `4 / (pi h^2)` times the cube of the falloff.
pub open spec fn kernel_value(dist: int, h: int) -> int {
    if dist >= h {
        0
    } else {
        let q = falloff(dist, h);
        let cube = ceil_div(q * q * q, SCALE * SCALE);
        clamp(ceil_div(4 * (SCALE * SCALE * SCALE) * cube, PI * (h * h)))
    }
}

/// The raw value of the kernel's derivative by the distance:
/// `-24 d (h^2 - d^2)^2 / (pi h^8)`, that is `-24 / (pi h^3)` times `d / h`
/// times the square of the falloff. Never positive.
pub open spec fn kernel_slope(dist: int, h: int) -> int {
    if dist >= h {
        0
    } else {
        let f = support_fraction(dist, h);
        let q = falloff(dist, h);
        let square = (q * q) / (SCALE as int);
        let partial = (24 * f * square * SCALE) / h;
        -clamp((partial * (SCALE * SCALE)) / (PI * (h * h)))
    }
}

/// Inside the support the ratio `d / h` is below one and the falloff is
/// positive and at most one.
pub proof fn lemma_falloff_bounds(dist: int, h: int)
    requires
        0 <= dist < h,
    ensures
        0 <= support_fraction(dist, h) < SCALE,
        1 <= falloff(dist, h) <= SCALE,
{
    let scale = SCALE as int;
    let f = support_fraction(dist, h);
    assert(0 <= f < scale) by (nonlinear_arith)
        requires
            f == (dist * scale) / h,
            0 <= dist < h,
            scale > 0,
    ;
    assert(0 <= f * f <= (scale - 1) * (scale - 1)) by (nonlinear_arith)
        requires
            0 <= f <= scale - 1,
    ;
}

/// The kernel and its derivative are exactly zero at the support radius,
/// and the kernel is positive at every distance inside it.
pub proof fn lemma_kernel_boundary(dist: int, h: int)
    requires
        0 < h,
        0 <= dist,
    ensures
        kernel_value(h, h) == 0,
        kernel_slope(h, h) == 0,
        dist < h ==> kernel_value(dist, h) > 0,
        dist >= h ==> kernel_value(dist, h) == 0 && kernel_slope(dist, h) == 0,
        kernel_slope(dist, h) <= 0,
        0 <= kernel_value(dist, h) <= LIMIT,
        -LIMIT <= kernel_slope(dist, h),
{
    if dist < h {
        lemma_falloff_bounds(dist, h);
        let scale = SCALE as int;
        let q = falloff(dist, h);
        let f = support_fraction(dist, h);
        let q3 = q * q * q;
        assert(q3 >= 1) by (nonlinear_arith)
            requires
                q3 == q * q * q,
                q >= 1,
        ;
        let cube = ceil_div(q3, scale * scale);
        assert(cube >= 1) by (nonlinear_arith)
            requires
                cube == (q3 + scale * scale - 1) / (scale * scale),
                q3 >= 1,
                scale * scale > 0,
        ;
        let den = PI * (h * h);
        assert(den >= 1) by (nonlinear_arith)
            requires
                den == PI * (h * h),
                h >= 1,
        ;
        let num = 4 * (scale * scale * scale) * cube;
        assert(num >= 1) by (nonlinear_arith)
            requires
                num == 4 * (scale * scale * scale) * cube,
                cube >= 1,
                scale == 1_000_000,
        ;
        assert(ceil_div(num, den) >= 1) by (nonlinear_arith)
            requires
                num >= 1,
                den >= 1,
        ;
    }
}

/// The kernel never grows with the distance: it is largest at distance zero
/// and falls, without ever rising, to zero at the support radius.
pub proof fn lemma_kernel_decreasing(near: int, far: int, h: int)
    requires
        0 <= near <= far,
        0 < h,
    ensures
        kernel_value(near, h) >= kernel_value(far, h),
{
    lemma_kernel_boundary(near, h);
    lemma_kernel_boundary(far, h);
    if far < h {
        let scale = SCALE as int;
        lemma_falloff_bounds(near, h);
        lemma_falloff_bounds(far, h);
        let f1 = support_fraction(near, h);
        let f2 = support_fraction(far, h);
        assert(near * scale <= far * scale) by (nonlinear_arith)
            requires
                near <= far,
                scale > 0,
        ;
        lemma_div_is_ordered(near * scale, far * scale, h);
        assert(f1 * f1 <= f2 * f2) by (nonlinear_arith)
            requires
                0 <= f1 <= f2,
        ;
        lemma_div_is_ordered(f1 * f1, f2 * f2, scale);
        let q1 = falloff(near, h);
        let q2 = falloff(far, h);
        assert(q1 >= q2);
        assert(q1 * q1 * q1 >= q2 * q2 * q2) by (nonlinear_arith)
            requires
                q1 >= q2,
                q2 >= 1,
        ;
        let ss = scale * scale;
        lemma_div_is_ordered(q2 * q2 * q2 + ss - 1, q1 * q1 * q1 + ss - 1, ss);
        let c1 = ceil_div(q1 * q1 * q1, ss);
        let c2 = ceil_div(q2 * q2 * q2, ss);
        assert(c1 >= c2);
        let k = 4 * (scale * scale * scale);
        let den = PI * (h * h);
        assert(den >= 1) by (nonlinear_arith)
            requires
                den == PI * (h * h),
                h >= 1,
        ;
        assert(k * c1 >= k * c2) by (nonlinear_arith)
            requires
                c1 >= c2,
                k >= 0,
        ;
        lemma_div_is_ordered(k * c2 + den - 1, k * c1 + den - 1, den);
    }
}

/// The cube of a number between zero and `SCALE` is at most the cube of
/// `SCALE`.
proof fn lemma_cube_bound(q: int)
    by (nonlinear_arith)
    requires
        0 <= q <= SCALE,
    ensures
        0 <= q * q <= SCALE * SCALE,
        0 <= q * q * q <= SCALE * SCALE * SCALE,
{
}

/// The kernel at distance `dist` for the support radius `smoothing_radius`.
pub fn smoothing_kernel(dist: Fixed, smoothing_radius: Fixed) -> (r: Fixed)
    requires
        dist.wf(),
        smoothing_radius.wf(),
        dist@ >= 0,
        smoothing_radius@ > 0,
    ensures
        r@ == kernel_value(dist@, smoothing_radius@),
        r.wf(),
        dist@ < smoothing_radius@ ==> r@ > 0,
        dist@ >= smoothing_radius@ ==> r@ == 0,
{
    proof {
        lemma_kernel_boundary(dist@, smoothing_radius@);
    }
    if dist.raw >= smoothing_radius.raw {
        return Fixed::zero();
    }
    let d: u128 = dist.raw as u128;
    let h: u128 = smoothing_radius.raw as u128;
    let scale: u128 = SCALE as u128;
    proof {
        lemma_falloff_bounds(dist@, smoothing_radius@);
        lemma_mul_bound(d as int, scale as int, LIMIT as int, SCALE as int);
        lemma_mul_bound(h as int, h as int, LIMIT as int, LIMIT as int);
        assert(h * h >= 1) by (nonlinear_arith)
            requires
                h >= 1,
        ;
    }
    let f: u128 = (d * scale) / h;
    proof {
        lemma_mul_bound(f as int, f as int, SCALE as int, SCALE as int);
    }
    let q: u128 = scale - (f * f) / scale;
    proof {
        lemma_cube_bound(q as int);
    }
    let cube: u128 = (q * q * q + scale * scale - 1) / (scale * scale);
    assert(cube <= scale);
    assert(cube == ceil_div(q * q * q, SCALE * SCALE));
    proof {
        lemma_mul_bound(
            4 * (scale * scale * scale),
            cube as int,
            4 * (SCALE * SCALE * SCALE),
            SCALE as int,
        );
    }
    let num: u128 = 4 * (scale * scale * scale) * cube;
    let den: u128 = (PI as u128) * (h * h);
    let w: u128 = (num + den - 1) / den;
    assert(w == ceil_div(4 * (SCALE * SCALE * SCALE) * (cube as int), PI * (smoothing_radius@
        * smoothing_radius@)));
    if w > LIMIT as u128 {
        Fixed { raw: LIMIT }
    } else {
        Fixed { raw: w as i64 }
    }
}

/// The derivative of the kernel by the distance, at distance `dist` for the
/// support radius `smoothing_radius`.
pub fn smoothing_kernel_derivative(dist: Fixed, smoothing_radius: Fixed) -> (r: Fixed)
    requires
        dist.wf(),
        smoothing_radius.wf(),
        dist@ >= 0,
        smoothing_radius@ > 0,
    ensures
        r@ == kernel_slope(dist@, smoothing_radius@),
        r.wf(),
        r@ <= 0,
        dist@ >= smoothing_radius@ ==> r@ == 0,
{
    if dist.raw >= smoothing_radius.raw {
        return Fixed::zero();
    }
    let d: u128 = dist.raw as u128;
    let h: u128 = smoothing_radius.raw as u128;
    let scale: u128 = SCALE as u128;
    proof {
        lemma_falloff_bounds(dist@, smoothing_radius@);
        lemma_mul_bound(d as int, scale as int, LIMIT as int, SCALE as int);
        lemma_mul_bound(h as int, h as int, LIMIT as int, LIMIT as int);
        assert(h * h >= 1) by (nonlinear_arith)
            requires
                h >= 1,
        ;
    }
    let f: u128 = (d * scale) / h;
    proof {
        lemma_mul_bound(f as int, f as int, SCALE as int, SCALE as int);
    }
    let q: u128 = scale - (f * f) / scale;
    proof {
        lemma_cube_bound(q as int);
    }
    let square: u128 = (q * q) / scale;
    assert(square <= scale);
    proof {
        lemma_mul_bound(24 * f, square as int, 24 * SCALE, SCALE as int);
        assert(0 <= 24 * f * square) by (nonlinear_arith)
            requires
                0 <= f,
                0 <= square,
        ;
    }
    let partial: u128 = (24 * f * square * scale) / h;
    assert(partial <= 24 * SCALE * SCALE * SCALE);
    let den: u128 = (PI as u128) * (h * h);
    let steep: u128 = (partial * (scale * scale)) / den;
    assert(steep == ((partial as int) * (SCALE * SCALE)) / (PI * (smoothing_radius@
        * smoothing_radius@)));
    if steep > LIMIT as u128 {
        Fixed { raw: -LIMIT }
    } else {
        Fixed { raw: -(steep as i64) }
    }
}

} // verus!
