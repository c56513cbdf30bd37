//! World stepping and determinism.

use determinisk::{Circle, Scalar, Vec2, World};
use fixed::types::I16F16;

fn sc(x: f32) -> Scalar {
    Scalar::from_bits(I16F16::from_num(x).to_bits())
}

fn v2(x: f32, y: f32) -> Vec2 {
    Vec2::from_scalars(sc(x), sc(y))
}

#[test]
fn test_basic_simulation() {
    let mut world = World::new(sc(100.0), sc(100.0));

    // Add a circle
    let circle = Circle::new(v2(50.0, 50.0), sc(5.0), sc(1.0));
    world.add_circle(circle);

    // Run simulation for 60 steps (1 second at 60 Hz)
    let initial_y = world.circles[0].position.y;
    for _ in 0..60 {
        world.step();
    }

    // Circle should have fallen due to gravity
    assert!(world.circles[0].position.y < initial_y);
}

#[test]
fn tests_test_determinism() {
    // Create two identical worlds
    let mut world1 = World::new(sc(100.0), sc(100.0));
    let mut world2 = World::new(sc(100.0), sc(100.0));

    // Add identical circles
    let circle = Circle::new(v2(50.0, 80.0), sc(5.0), sc(1.0));
    world1.add_circle(circle);
    world2.add_circle(circle);

    // Run both simulations
    for _ in 0..100 {
        world1.step();
        world2.step();
    }

    // Results should be bit-identical
    assert_eq!(
        world1.circles[0].position.x.to_bits(),
        world2.circles[0].position.x.to_bits()
    );
    assert_eq!(
        world1.circles[0].position.y.to_bits(),
        world2.circles[0].position.y.to_bits()
    );
}

#[test]
fn velocity_projection_follows_the_verlet_state() {
    let mut c = determinisk::Circle::new(v2(10.0, 10.0), sc(1.0), sc(1.0));
    let dt = Scalar::from_bits(1092);
    c.set_velocity(v2(3.0, -4.0), dt);
    c.update_velocity(dt);
    // the projection recovers the seeded velocity up to one encoding
    assert!((c.velocity.x.to_bits() - sc(3.0).to_bits()).abs() <= 16);
    assert!((c.velocity.y.to_bits() - sc(-4.0).to_bits()).abs() <= 16);
}

#[test]
fn capture_counts_the_contacts_of_the_moment() {
    let mut world = World::new(sc(100.0), sc(100.0));
    // a body pressed into the floor and the left wall
    let ball = Circle::new(v2(2.0, 2.0), sc(5.0), sc(1.0));
    world.add_circle(ball);
    let st = world.capture_state(7);
    assert_eq!(st.step, 7);
    assert_eq!(st.circles.len(), 1);
    assert_eq!(st.frame_collisions, 0);
    assert_eq!(st.frame_boundary_hits, 2);
}
