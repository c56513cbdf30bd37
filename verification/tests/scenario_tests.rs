//! The built-in scenarios, run end to end.

use determinisk::{
    get_scenario, list_scenarios, pool_break, simple_drop, state_digest, three_body_collision,
    World,
};

#[test]
fn simple_drop_rests_exactly_on_the_floor() {
    // The dropped body, stepped with the clamping variant until the
    // fall completes, rests with its y encoding equal to the radius
    // encoding bit for bit.  The clamp is the only path with an exact
    // rest: the impulse resolver corrects a fraction of the penetration
    // per tick and never lands on the radius encoding itself.
    let input = determinisk::simple_drop_simulation();
    let mut world = World::from_input(&input);
    for _ in 0..input.num_steps {
        world.step_no_collision();
    }
    assert_eq!(
        world.circles[0].position.y.to_bits(),
        world.circles[0].radius.to_bits(),
        "body must rest exactly at y = radius"
    );

    // The canonical tick is bit-identical across re-runs of simple_drop.
    let input2 = simple_drop();
    let mut world1 = World::from_input(&input2);
    let mut world2 = World::from_input(&input2);
    for _ in 0..input2.num_steps {
        world1.step();
        world2.step();
    }
    assert_eq!(state_digest(&world1.circles), state_digest(&world2.circles));
}

#[test]
fn head_on_pair_swaps_velocity_signs() {
    // Two equal bodies at (10,10) and (12,10), r = 1, m = 1, velocities
    // (+1, 0) and (-1, 0); after 30 ticks the x-velocities have swapped
    // sign with magnitudes equal up to encoding.
    let mut world = World::new(
        determinisk::Scalar::from_bits(100 << 16),
        determinisk::Scalar::from_bits(100 << 16),
    );
    world.gravity = determinisk::Vec2::zero();
    let one = determinisk::Scalar::one();
    let mut a = determinisk::Circle::new(
        determinisk::Vec2::from_scalars(
            determinisk::Scalar::from_bits(10 << 16),
            determinisk::Scalar::from_bits(10 << 16),
        ),
        one,
        one,
    );
    a.set_velocity(determinisk::Vec2::from_scalars(one, determinisk::Scalar::zero()), world.timestep);
    let mut b = determinisk::Circle::new(
        determinisk::Vec2::from_scalars(
            determinisk::Scalar::from_bits(12 << 16),
            determinisk::Scalar::from_bits(10 << 16),
        ),
        one,
        one,
    );
    b.set_velocity(
        determinisk::Vec2::from_scalars(one.neg(), determinisk::Scalar::zero()),
        world.timestep,
    );
    world.add_circle(a);
    world.add_circle(b);
    for _ in 0..30 {
        world.step();
    }
    let vax = world.circles[0].velocity.x.to_bits();
    let vbx = world.circles[1].velocity.x.to_bits();
    assert!(vax < 0, "first body should move left, vx = {}", vax);
    assert!(vbx > 0, "second body should move right, vx = {}", vbx);
    assert!((vax + vbx).abs() <= 1, "magnitudes differ: {} vs {}", vax, vbx);
}

#[test]
fn three_body_digest_is_stable() {
    // The triangular approach scenario, 300 ticks: the digest of the
    // final state is the same on every run.
    let input = three_body_collision();
    let mut digests = Vec::new();
    for _ in 0..3 {
        let mut world = World::from_input(&input);
        for _ in 0..input.num_steps {
            world.step();
        }
        digests.push(state_digest(&world.circles));
    }
    assert_eq!(digests[0].len(), 32);
    assert_eq!(digests[0], digests[1]);
    assert_eq!(digests[1], digests[2]);
}

#[test]
fn pool_break_collision_count_is_reproduced() {
    // One heavy body into a rack of ten, 600 ticks: the aggregate
    // collision count is reproduced exactly, and the per-frame counts
    // sum to it.
    let input = pool_break();
    let mut world1 = World::from_input(&input);
    let trace1 = world1.run_with_recording(input.num_steps);
    let mut world2 = World::from_input(&input);
    let trace2 = world2.run_with_recording(input.num_steps);

    assert_eq!(
        trace1.output.metrics.collision_count,
        trace2.output.metrics.collision_count
    );
    assert!(trace1.output.metrics.collision_count > 0);

    let frame_sum: u32 = trace1.states[1..]
        .iter()
        .fold(0u32, |acc, st| acc.wrapping_add(st.frame_collisions));
    assert_eq!(frame_sum, trace1.output.metrics.collision_count);

    let boundary_sum: u32 = trace1.states[1..]
        .iter()
        .fold(0u32, |acc, st| acc.wrapping_add(st.frame_boundary_hits));
    assert_eq!(boundary_sum, trace1.output.metrics.boundary_hits);
}

#[test]
fn empty_world_zero_steps_gives_one_snapshot() {
    // An empty world run for zero ticks: a trace of length one holding
    // only the initial snapshot, and all aggregates zero.
    let mut world = World::new(
        determinisk::Scalar::from_bits(100 << 16),
        determinisk::Scalar::from_bits(100 << 16),
    );
    let trace = world.run_with_recording(0);
    assert_eq!(trace.states.len(), 1);
    assert_eq!(trace.states[0].step, 0);
    assert_eq!(trace.output.steps_executed, 0);
    assert_eq!(trace.output.metrics.collision_count, 0);
    assert_eq!(trace.output.metrics.boundary_hits, 0);
    assert_eq!(trace.output.metrics.max_velocity.to_bits(), 0);
    assert_eq!(trace.output.metrics.total_energy.to_bits(), 0);
}

#[test]
fn checkpoint_resume_matches_uninterrupted_run() {
    // Run 300 ticks in one go, and 120 plus 180 with the world carried
    // over: the digests agree bit for bit.
    let input = three_body_collision();
    let mut world_full = World::from_input(&input);
    for _ in 0..300 {
        world_full.step();
    }
    let mut world_part = World::from_input(&input);
    for _ in 0..120 {
        world_part.step();
    }
    // hand the bodies over to a fresh world with the same configuration
    let mut resumed = World::from_input(&input);
    resumed.circles = world_part.circles.clone();
    for _ in 0..180 {
        resumed.step();
    }
    assert_eq!(state_digest(&world_full.circles), state_digest(&resumed.circles));
}

#[test]
fn scenario_lookup_answers_to_both_spellings() {
    assert!(get_scenario("pool_break").is_some());
    assert!(get_scenario("pool-break").is_some());
    assert!(get_scenario("three_body_collision").is_some());
    assert!(get_scenario("simple-drop-sim").is_some());
    assert!(get_scenario("no_such_scenario").is_none());
    assert_eq!(list_scenarios().len(), 6);
    assert_eq!(list_scenarios()[0], "pool_break");
}

#[test]
fn digest_tracks_the_positions() {
    // The digest is 32 bytes and changes when a position changes.
    let input = simple_drop();
    let world = World::from_input(&input);
    let d1 = state_digest(&world.circles);
    assert_eq!(d1.len(), 32);
    let mut moved = World::from_input(&input);
    moved.circles[0].position.x =
        determinisk::Scalar::from_bits(moved.circles[0].position.x.to_bits() + 1);
    let d2 = state_digest(&moved.circles);
    assert_ne!(d1, d2);
    assert_eq!(
        determinisk::final_positions(&world.circles)[0].0,
        world.circles[0].position.x.to_bits()
    );
}

#[test]
fn mock_backend_metrics_follow_the_input() {
    let input = pool_break();
    let metrics = determinisk::mock_proof_metrics(&input);
    assert_eq!(metrics.total_cycles, 600 * 11 * 1000);
    assert_eq!(metrics.user_cycles, Some(600 * 11 * 1000 * 8 / 10));
    assert_eq!(metrics.zkvm_backend, "Mock");
}
