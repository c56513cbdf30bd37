//! Vector operations against the componentwise contracts.

use determinisk::{Scalar, Vec2};
use fixed::types::I16F16;

fn sc(x: f32) -> Scalar {
    Scalar::from_bits(I16F16::from_num(x).to_bits())
}

fn v2(x: f32, y: f32) -> Vec2 {
    Vec2::from_scalars(sc(x), sc(y))
}

fn to_f(s: Scalar) -> f32 {
    s.to_bits() as f32 / 65536.0
}

#[test]
fn test_vec2_basic_ops() {
    let a = v2(3.0, 4.0);
    let b = v2(1.0, 2.0);

    let sum = a.add(b);
    assert_eq!(to_f(sum.x), 4.0);
    assert_eq!(to_f(sum.y), 6.0);

    let diff = a.sub(b);
    assert_eq!(to_f(diff.x), 2.0);
    assert_eq!(to_f(diff.y), 2.0);
}

#[test]
fn test_vec2_magnitude() {
    let v = v2(3.0, 4.0);
    assert!((to_f(v.magnitude()) - 5.0).abs() < 0.01);

    let v2b = v2(5.0, 12.0);
    assert!((to_f(v2b.magnitude()) - 13.0).abs() < 0.01);
}

#[test]
fn test_vec2_normalize() {
    let v = v2(3.0, 4.0);
    let n = v.normalized();

    assert!((to_f(n.magnitude()) - 1.0).abs() < 0.01);
    assert!((to_f(n.x) - 0.6).abs() < 0.01);
    assert!((to_f(n.y) - 0.8).abs() < 0.01);
}

#[test]
fn test_vec2_dot_product() {
    let a = v2(2.0, 3.0);
    let b = v2(4.0, 5.0);

    let dot = a.dot(&b);
    assert_eq!(to_f(dot), 23.0); // 2*4 + 3*5 = 8 + 15 = 23
}

#[test]
fn normalized_zero_vector_is_unchanged() {
    let z = Vec2::zero();
    assert_eq!(z.normalized(), z);
}

#[test]
fn perp_rotates_a_quarter_turn() {
    let v = v2(2.0, 1.0);
    let p = v.perp();
    assert_eq!(p.x.to_bits(), sc(-1.0).to_bits());
    assert_eq!(p.y.to_bits(), sc(2.0).to_bits());
}

#[test]
fn lerp_walks_between_endpoints() {
    let a = v2(0.0, 0.0);
    let b = v2(10.0, 20.0);
    let half = Scalar::from_bits(0x8000);
    let mid = a.lerp(&b, half);
    assert_eq!(mid.x.to_bits(), sc(5.0).to_bits());
    assert_eq!(mid.y.to_bits(), sc(10.0).to_bits());
    assert_eq!(a.lerp(&b, Scalar::one()), b);
    assert_eq!(a.lerp(&b, Scalar::zero()), a);
}
