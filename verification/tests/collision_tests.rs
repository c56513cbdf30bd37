//! Impulse resolution on hand-built contacts.

use determinisk::{Circle, Collision, BoundaryCollision, Boundary, CollisionConfig, Scalar, Vec2};
use determinisk::{resolve_collisions, resolve_boundary_collisions, apply_impulses};
use fixed::types::I16F16;

fn sc(x: f32) -> Scalar {
    Scalar::from_bits(I16F16::from_num(x).to_bits())
}

fn v2(x: f32, y: f32) -> Vec2 {
    Vec2::from_scalars(sc(x), sc(y))
}

#[test]
fn test_head_on_collision() {
    // Two circles moving towards each other
    let circles = vec![
        Circle::new(v2(10.0, 10.0), sc(1.0), Scalar::one()),
        Circle::new(v2(12.0, 10.0), sc(1.0), Scalar::one()),
    ];

    // Set velocities
    let mut circles = circles;
    circles[0].velocity = v2(1.0, 0.0);
    circles[0].old_position = v2(9.0, 10.0);
    circles[1].velocity = v2(-1.0, 0.0);
    circles[1].old_position = v2(13.0, 10.0);

    let collision = Collision {
        idx_a: 0,
        idx_b: 1,
        normal: v2(1.0, 0.0),
        depth: sc(0.0), // Just touching
        contact: v2(11.0, 10.0),
    };

    let config = CollisionConfig::default();
    let impulses = resolve_collisions(&circles, &vec![collision], &config);

    // With equal masses and opposite velocities, they should exchange velocities
    assert_eq!(impulses.len(), 2);

    // Apply impulses and check velocities reversed (with restitution factor)
    let new_circles = apply_impulses(&circles, &impulses);

    // Velocities should be reversed and scaled by restitution
    assert!(new_circles[0].velocity.x < Scalar::zero()); // Moving left now
    assert!(new_circles[1].velocity.x > Scalar::zero()); // Moving right now
}

#[test]
fn test_boundary_bounce() {
    // Circle hitting bottom boundary
    let mut circles = vec![Circle::new(v2(10.0, 0.5), sc(1.0), Scalar::one())];
    circles[0].velocity = v2(0.0, -1.0);
    circles[0].old_position = v2(10.0, 1.5);

    let collision = BoundaryCollision {
        idx: 0,
        boundary: Boundary::Bottom,
        depth: sc(0.5),
        contact: v2(10.0, 0.0),
    };

    let config = CollisionConfig::default();
    let impulses = resolve_boundary_collisions(&circles, &vec![collision], &config);

    assert_eq!(impulses.len(), 1);

    let new_circles = apply_impulses(&circles, &impulses);

    // Velocity should be reversed and scaled by restitution
    assert!(new_circles[0].velocity.y > Scalar::zero()); // Bouncing up

    // Position should be corrected
    assert!(new_circles[0].position.y > circles[0].position.y);
}

#[test]
fn floor_rebound_scales_vertical_velocity_by_restitution() {
    // A unit-mass body moving straight down bounces with v' close to
    // restitution times v, and its x-velocity stays exactly zero.
    let mut circles = vec![Circle::new(v2(10.0, 0.5), sc(1.0), Scalar::one())];
    circles[0].velocity = v2(0.0, -2.0);

    let collision = BoundaryCollision {
        idx: 0,
        boundary: Boundary::Bottom,
        depth: sc(0.5),
        contact: v2(10.0, 0.0),
    };
    let config = CollisionConfig::default();
    let impulses = resolve_boundary_collisions(&circles, &vec![collision], &config);
    let out = apply_impulses(&circles, &impulses);
    let vy = out[0].velocity.y.to_bits() as f32 / 65536.0;
    assert_eq!(out[0].velocity.x.to_bits(), 0);
    assert!((vy - 1.6).abs() < 0.001, "rebound velocity {}", vy);
}
