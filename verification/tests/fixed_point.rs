use rust_particles::numeric::fixed::{Fixed, LIMIT, SCALE};
use rust_particles::numeric::root::{isqrt, isqrt_up};
use rust_particles::numeric::vector::Vec2;

fn raw(v: i64) -> Fixed {
    Fixed { raw: v }
}

#[test]
fn from_raw_saturates_at_the_limit() {
    assert_eq!(Fixed::from_raw(5).raw, 5);
    assert_eq!(Fixed::from_raw(LIMIT + 1).raw, LIMIT);
    assert_eq!(Fixed::from_raw(i64::MAX).raw, LIMIT);
    assert_eq!(Fixed::from_raw(i64::MIN).raw, -LIMIT);
    assert_eq!(Fixed::from_wide(i128::MAX).raw, LIMIT);
    assert_eq!(Fixed::from_wide(-7).raw, -7);
}

#[test]
fn from_units_scales_and_saturates() {
    assert_eq!(Fixed::from_units(3).raw, 3 * SCALE);
    assert_eq!(Fixed::from_units(-500).raw, -500 * SCALE);
    assert_eq!(Fixed::from_units(1_000_001).raw, LIMIT);
    assert_eq!(Fixed::from_units(i64::MIN).raw, -LIMIT);
}

#[test]
fn validity_is_the_limit() {
    assert!(raw(LIMIT).is_valid());
    assert!(raw(-LIMIT).is_valid());
    assert!(!raw(LIMIT + 1).is_valid());
    assert!(!raw(-LIMIT - 1).is_valid());
    assert!(Vec2 { x: raw(1), y: raw(-1) }.is_valid());
    assert!(!Vec2 { x: raw(1), y: raw(LIMIT + 1) }.is_valid());
}

#[test]
fn sums_and_differences_saturate() {
    assert_eq!(raw(1_500_000).add(raw(-250_000)).raw, 1_250_000);
    assert_eq!(raw(LIMIT).add(raw(1)).raw, LIMIT);
    assert_eq!(raw(-LIMIT).sub(raw(LIMIT)).raw, -LIMIT);
    assert_eq!(raw(3).sub(raw(5)).raw, -2);
    assert_eq!(raw(LIMIT).neg().raw, -LIMIT);
    assert_eq!(raw(-4).neg().raw, 4);
}

#[test]
fn products_round_toward_zero() {
    assert_eq!(raw(1_500_000).mul(raw(2_000_000)).raw, 3_000_000);
    assert_eq!(raw(1).mul(raw(999_999)).raw, 0);
    assert_eq!(raw(-1).mul(raw(999_999)).raw, 0);
    assert_eq!(raw(3_333_333).mul(raw(333_333)).raw, 1_111_109);
    assert_eq!(raw(-3_333_333).mul(raw(333_333)).raw, -1_111_109);
    assert_eq!(raw(LIMIT).mul(raw(LIMIT)).raw, LIMIT);
    assert_eq!(raw(LIMIT).mul(raw(-LIMIT)).raw, -LIMIT);
}

#[test]
fn square_roots_round_down_and_up() {
    assert_eq!(isqrt(0), 0);
    assert_eq!(isqrt(1), 1);
    assert_eq!(isqrt(3), 1);
    assert_eq!(isqrt(4), 2);
    assert_eq!(isqrt(2_000_000_000_000), 1_414_213);
    assert_eq!(isqrt(u128::MAX), 18_446_744_073_709_551_615);
    assert_eq!(isqrt_up(0), 0);
    assert_eq!(isqrt_up(4), 2);
    assert_eq!(isqrt_up(5), 3);
    assert_eq!(isqrt_up(2_000_000_000_000), 1_414_214);
    assert_eq!(isqrt_up(u128::MAX), 18_446_744_073_709_551_616);
}

#[test]
fn vectors_add_by_component() {
    let a = Vec2::new(raw(3), raw(-4));
    let b = Vec2::new(raw(10), raw(LIMIT));
    assert_eq!(a.add(b), Vec2 { x: raw(13), y: raw(LIMIT - 4) });
    assert_eq!(b.add(b), Vec2 { x: raw(20), y: raw(LIMIT) });
    assert_eq!(Vec2::zero(), Vec2 { x: raw(0), y: raw(0) });
}

#[test]
fn add_scaled_rounds_each_product_toward_zero() {
    let p = Vec2::new(raw(1_000_000), raw(2_000_000));
    let v = Vec2::new(raw(0), raw(-628_840_000));
    assert_eq!(p.add_scaled(v, raw(15_625)), Vec2 { x: raw(1_000_000), y: raw(-7_825_625) });
    let w = Vec2::new(raw(1), raw(-1));
    assert_eq!(p.add_scaled(w, raw(999_999)), p);
}

#[test]
fn unit_vectors_are_never_longer_than_one() {
    let origin = Vec2::zero();
    let p = Vec2::new(raw(1_000_000), raw(1_000_000));
    assert_eq!(origin.unit_from(p), Vec2 { x: raw(-707_106), y: raw(-707_106) });
    assert_eq!(p.unit_from(origin), Vec2 { x: raw(707_106), y: raw(707_106) });
    let q = Vec2::new(raw(3_000_000), raw(-4_000_000));
    assert_eq!(q.unit_from(origin), Vec2 { x: raw(600_000), y: raw(-800_000) });
    let far = Vec2::new(raw(LIMIT), raw(-LIMIT));
    let near = Vec2::new(raw(-LIMIT), raw(LIMIT - 1));
    let n = far.unit_from(near);
    let len2 = (n.x.raw as i128).pow(2) + (n.y.raw as i128).pow(2);
    assert!(len2 <= (SCALE as i128).pow(2));
    assert!(len2 >= ((SCALE - 2) as i128).pow(2));
}
