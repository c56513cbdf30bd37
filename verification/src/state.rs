//! Simulation records: declarative input, per-tick snapshots, aggregate
//! metrics, and the recorded trace.
//!
//! All quantities are Q16.16 scalars; converting to and from other number
//! formats is the caller's business, so the records themselves stay exact.

use vstd::prelude::*;

verus! {

use crate::scalar::Scalar;
use crate::vec2::Vec2;
use crate::circle::Circle;
use crate::collision::CollisionConfig;
use crate::spatial::{spec_boundary_collisions, spec_build, spec_collision_pairs, spec_detect};
use crate::collision::spec_cell_size;
use crate::world::{World, spec_world_after_steps};

/// State of a single circle in a snapshot.
#[derive(Debug, Clone, Copy, PartialEq, Eq, Structural)]
pub struct CircleState {
    /// Center of the body.
    pub position: Vec2,
    /// Velocity projection of the body.
    pub velocity: Vec2,
    /// Radius of the body.
    pub radius: Scalar,
    /// Mass of the body.
    pub mass: Scalar,
}

/// Snapshot of the world after a given number of ticks.
#[derive(Debug, Clone)]
pub struct SimulationState {
    /// How many ticks had run when the snapshot was taken.
    pub step: u64,
    /// Elapsed simulated time, `step · timestep`.
    pub time: Scalar,
    /// The bodies, in index order.
    pub circles: Vec<CircleState>,
    /// Circle-circle contacts present in this snapshot.
    pub frame_collisions: u32,
    /// Wall contacts present in this snapshot.
    pub frame_boundary_hits: u32,
}

/// Initial configuration of a single circle.
#[derive(Debug, Clone, Copy, PartialEq, Eq, Structural)]
pub struct CircleConfig {
    /// Starting center.
    pub position: Vec2,
    /// Starting velocity.
    pub velocity: Vec2,
    /// Radius.
    pub radius: Scalar,
    /// Mass.
    pub mass: Scalar,
}

/// Declarative input of a simulation run.
#[derive(Debug, Clone)]
pub struct SimulationInput {
    /// World width.
    pub world_width: Scalar,
    /// World height.
    pub world_height: Scalar,
    /// Gravity vector.
    pub gravity: Vec2,
    /// Tick length.
    pub timestep: Scalar,
    /// Coefficient of restitution.
    pub restitution: Scalar,
    /// Position correction factor.
    pub position_correction: Scalar,
    /// The bodies to create, in index order.
    pub circles: Vec<CircleConfig>,
    /// Number of ticks to run.
    pub num_steps: u32,
    /// Whether every tick's snapshot is kept.
    pub record_trajectory: bool,
    /// Reserved; part of the input record but never a source of
    /// randomness in the core.
    pub seed: u64,
}

/// Aggregates computed over a recorded run.
#[derive(Debug, Clone, Copy, PartialEq, Eq, Structural)]
pub struct SimulationMetrics {
    /// Total kinetic plus potential energy at the end of the run.
    pub total_energy: Scalar,
    /// Largest velocity magnitude seen in any post-tick snapshot.
    pub max_velocity: Scalar,
    /// Circle-circle contacts summed over all post-tick snapshots.
    pub collision_count: u32,
    /// Wall contacts summed over all post-tick snapshots.
    pub boundary_hits: u32,
}

/// Result record of a run.
#[derive(Debug, Clone)]
pub struct SimulationOutput {
    /// The last snapshot.
    pub final_state: SimulationState,
    /// Number of ticks executed.
    pub steps_executed: u32,
    /// Aggregates of the run.
    pub metrics: SimulationMetrics,
}

impl Default for SimulationOutput {
    /// An empty output: a zero-step snapshot with no bodies and all
    /// aggregates zero.
    fn default() -> (r: SimulationOutput)
        ensures
            r.final_state.step == 0,
            r.final_state.time == Scalar::spec_zero(),
            r.final_state.circles@.len() == 0,
            r.final_state.frame_collisions == 0,
            r.final_state.frame_boundary_hits == 0,
            r.steps_executed == 0,
            r.metrics == (SimulationMetrics {
                total_energy: Scalar::spec_zero(),
                max_velocity: Scalar::spec_zero(),
                collision_count: 0,
                boundary_hits: 0,
            }),
    {
        SimulationOutput {
            final_state: SimulationState {
                step: 0,
                time: Scalar::zero(),
                circles: Vec::new(),
                frame_collisions: 0,
                frame_boundary_hits: 0,
            },
            steps_executed: 0,
            metrics: SimulationMetrics {
                total_energy: Scalar::zero(),
                max_velocity: Scalar::zero(),
                collision_count: 0,
                boundary_hits: 0,
            },
        }
    }
}

/// A full recorded run: the input, one snapshot per tick plus the
/// initial one, and the output record.
#[derive(Debug, Clone)]
pub struct SimulationTrace {
    /// The input the run started from.
    pub input: SimulationInput,
    /// Snapshots: the pre-tick state, then one per tick.
    pub states: Vec<SimulationState>,
    /// The output record.
    pub output: SimulationOutput,
}

/// A count clamped into a 32-bit field.
pub open spec fn spec_sat_u32(n: int) -> u32 {
    if n >= 0xFFFF_FFFF {
        0xFFFF_FFFFu32
    } else {
        n as u32
    }
}

/// Clamp a length into a 32-bit counter.
fn sat_u32(n: usize) -> (r: u32)
    requires
        n >= 0,
    ensures
        r == spec_sat_u32(n as int),
{
    if n >= 0xFFFF_FFFFusize {
        0xFFFF_FFFFu32
    } else {
        n as u32
    }
}

/// Elapsed time of a snapshot: the step count (reduced to the signed
/// 32-bit domain) times the tick length.
pub open spec fn spec_time(step: u64, dt: Scalar) -> Scalar {
    Scalar::spec_from_int((step % 0x8000_0000) as int).spec_mul(dt)
}

/// The snapshot row of one body.
pub open spec fn spec_circle_state(c: Circle) -> CircleState {
    CircleState { position: c.position, velocity: c.velocity, radius: c.radius, mass: c.mass }
}

/// The snapshot rows of all bodies, in index order.
pub open spec fn spec_capture_circles(circles: Seq<Circle>) -> Seq<CircleState> {
    Seq::new(circles.len(), |i: int| spec_circle_state(circles[i]))
}

/// The pairs of bodies in actual contact, in candidate order; empty when
/// the cell size encoding is zero and no grid can be built.
pub open spec fn spec_detected_pairs(circles: Seq<Circle>) -> Seq<(usize, usize)> {
    let cs = spec_cell_size(circles);
    if cs.bits == 0 {
        Seq::empty()
    } else {
        let contacts = spec_detect(circles, spec_collision_pairs(spec_build(circles, cs)));
        Seq::new(contacts.len(), |i: int| (contacts[i].idx_a, contacts[i].idx_b))
    }
}

/// `st` is exactly the snapshot of `circles` after `step` ticks: every
/// field of the snapshot is pinned.
pub open spec fn is_capture(
    st: SimulationState,
    circles: Seq<Circle>,
    bounds: Vec2,
    dt: Scalar,
    step: u64,
) -> bool {
    &&& st.step == step
    &&& st.time == spec_time(step, dt)
    &&& st.circles@ == spec_capture_circles(circles)
    &&& st.frame_collisions == spec_sat_u32(spec_detected_pairs(circles).len() as int)
    &&& st.frame_boundary_hits == spec_sat_u32(
        spec_boundary_collisions(circles, bounds.x, bounds.y).len() as int,
    )
}

/// The input rows describing the bodies as they stand.
pub open spec fn spec_input_circles(circles: Seq<Circle>) -> Seq<CircleConfig> {
    Seq::new(
        circles.len(),
        |i: int|
            CircleConfig {
                position: circles[i].position,
                velocity: circles[i].velocity,
                radius: circles[i].radius,
                mass: circles[i].mass,
            },
    )
}

/// `inp` is exactly the input record describing the given world and run
/// length: every field of the record is pinned.
pub open spec fn is_input_snapshot(
    inp: SimulationInput,
    bounds: Vec2,
    gravity: Vec2,
    dt: Scalar,
    config: CollisionConfig,
    circles: Seq<Circle>,
    num_steps: u32,
) -> bool {
    &&& inp.world_width == bounds.x
    &&& inp.world_height == bounds.y
    &&& inp.gravity == gravity
    &&& inp.timestep == dt
    &&& inp.restitution == config.restitution
    &&& inp.position_correction == config.position_correction
    &&& inp.circles@ == spec_input_circles(circles)
    &&& inp.num_steps == num_steps
    &&& inp.record_trajectory == true
    &&& inp.seed == 0
}

/// The body a configuration row creates: at rest at its position, the
/// previous Verlet position displaced to seed the velocity.
pub open spec fn spec_circle_from_config(cfg: CircleConfig, dt: Scalar) -> Circle {
    let base = Circle::spec_new(cfg.position, cfg.radius, cfg.mass);
    Circle { old_position: cfg.position.spec_sub(cfg.velocity.spec_mul(dt)), ..base }
}

/// The running total of circle-circle contacts over the post-tick
/// snapshots, with wrapping 32-bit addition.
pub open spec fn spec_sum_collisions(states: Seq<SimulationState>) -> u32
    decreases states.len(),
{
    if states.len() <= 1 {
        0u32
    } else {
        vstd::wrapping::u32_specs::wrapping_add(
            spec_sum_collisions(states.drop_last()),
            states.last().frame_collisions,
        )
    }
}

/// The running total of wall contacts over the post-tick snapshots.
pub open spec fn spec_sum_boundary_hits(states: Seq<SimulationState>) -> u32
    decreases states.len(),
{
    if states.len() <= 1 {
        0u32
    } else {
        vstd::wrapping::u32_specs::wrapping_add(
            spec_sum_boundary_hits(states.drop_last()),
            states.last().frame_boundary_hits,
        )
    }
}

/// Fold the velocity magnitudes of one snapshot's bodies into a running
/// maximum, by encoding order; a zero or negative squared magnitude is
/// skipped.
pub open spec fn spec_max_vel_from(m: Scalar, rows: Seq<CircleState>, i: int) -> Scalar
    decreases rows.len() - i,
{
    if i < 0 || i >= rows.len() {
        m
    } else {
        let v = rows[i].velocity;
        let v_sq = v.x.spec_mul(v.x).spec_add(v.y.spec_mul(v.y));
        let m1 = if v_sq.bits > 0 {
            let mag = v_sq.spec_sqrt();
            if mag.bits > m.bits {
                mag
            } else {
                m
            }
        } else {
            m
        };
        spec_max_vel_from(m1, rows, i + 1)
    }
}

/// The largest velocity magnitude over all post-tick snapshots.
pub open spec fn spec_max_velocity(states: Seq<SimulationState>) -> Scalar
    decreases states.len(),
{
    if states.len() <= 1 {
        Scalar::spec_zero()
    } else {
        spec_max_vel_from(spec_max_velocity(states.drop_last()), states.last().circles@, 0)
    }
}

/// The total energy folded over the bodies from index `i` on: kinetic
/// `m·|v|²·½` plus potential `m·(-g_y)·y` for each body.
pub open spec fn spec_energy_from(
    total: Scalar,
    circles: Seq<Circle>,
    gravity: Vec2,
    i: int,
) -> Scalar
    decreases circles.len() - i,
{
    if i < 0 || i >= circles.len() {
        total
    } else {
        let c = circles[i];
        let v_sq = c.velocity.x.spec_mul(c.velocity.x).spec_add(
            c.velocity.y.spec_mul(c.velocity.y),
        );
        let kinetic = c.mass.spec_mul(v_sq).spec_mul(Scalar::spec_half());
        let potential = c.mass.spec_mul(gravity.y.spec_neg()).spec_mul(c.position.y);
        spec_energy_from(total.spec_add(kinetic).spec_add(potential), circles, gravity, i + 1)
    }
}

/// The total energy of the bodies under the given gravity.
pub open spec fn spec_total_energy(circles: Seq<Circle>, gravity: Vec2) -> Scalar {
    spec_energy_from(Scalar::spec_zero(), circles, gravity, 0)
}

/// Copy a snapshot field by field.
fn clone_state(st: &SimulationState) -> (r: SimulationState)
    ensures
        r.step == st.step,
        r.time == st.time,
        r.circles@ == st.circles@,
        r.frame_collisions == st.frame_collisions,
        r.frame_boundary_hits == st.frame_boundary_hits,
{
    let mut rows: Vec<CircleState> = Vec::new();
    let mut i: usize = 0;
    while i < st.circles.len()
        invariant
            0 <= i <= st.circles@.len(),
            rows@ == st.circles@.take(i as int),
        decreases st.circles@.len() - i,
    {
        rows.push(st.circles[i]);
        proof {
            assert(st.circles@.take(i as int + 1) =~= st.circles@.take(i as int).push(
                st.circles@[i as int],
            ));
        }
        i = i + 1;
    }
    proof {
        assert(st.circles@.take(st.circles@.len() as int) =~= st.circles@);
    }
    SimulationState {
        step: st.step,
        time: st.time,
        circles: rows,
        frame_collisions: st.frame_collisions,
        frame_boundary_hits: st.frame_boundary_hits,
    }
}

impl World {
    /// Build a world from a declarative input: extent, gravity, timestep
    /// and resolver settings are taken from the record (the velocity
    /// threshold keeps its stock value), and one body is created per
    /// configuration row, with its velocity seeded through the Verlet
    /// state.
    pub fn from_input(input: &SimulationInput) -> (r: World)
        ensures
            r.bounds == (Vec2 { x: input.world_width, y: input.world_height }),
            r.gravity == input.gravity,
            r.timestep == input.timestep,
            r.collision_config == (CollisionConfig {
                restitution: input.restitution,
                position_correction: input.position_correction,
                velocity_threshold: CollisionConfig::spec_default().velocity_threshold,
            }),
            r.circles@ == Seq::new(
                input.circles@.len(),
                |i: int| spec_circle_from_config(input.circles@[i], input.timestep),
            ),
    {
        let mut world = World::new(input.world_width, input.world_height);
        world.gravity = input.gravity;
        world.timestep = input.timestep;
        world.collision_config.restitution = input.restitution;
        world.collision_config.position_correction = input.position_correction;
        let mut i: usize = 0;
        while i < input.circles.len()
            invariant
                0 <= i <= input.circles@.len(),
                world.bounds == (Vec2 { x: input.world_width, y: input.world_height }),
                world.gravity == input.gravity,
                world.timestep == input.timestep,
                world.collision_config == (CollisionConfig {
                    restitution: input.restitution,
                    position_correction: input.position_correction,
                    velocity_threshold: CollisionConfig::spec_default().velocity_threshold,
                }),
                world.circles@.len() == i,
                forall|t: int|
                    0 <= t < i ==> world.circles@[t] == spec_circle_from_config(
                        input.circles@[t],
                        input.timestep,
                    ),
            decreases input.circles@.len() - i,
        {
            let cfg = input.circles[i];
            let mut circle = Circle::new(cfg.position, cfg.radius, cfg.mass);
            circle.set_velocity(cfg.velocity, world.timestep);
            world.add_circle(circle);
            i = i + 1;
        }
        proof {
            assert(world.circles@ =~= Seq::new(
                input.circles@.len(),
                |i: int| spec_circle_from_config(input.circles@[i], input.timestep),
            ));
        }
        world
    }

    /// The pairs of bodies currently in actual contact.
    pub fn detect_collisions(&self) -> (out: Vec<(usize, usize)>)
        ensures
            out@ == spec_detected_pairs(self.circles@),
    {
        let mut max_radius = if self.circles.len() == 0 {
            Scalar::from_bits(0x10000)
        } else {
            self.circles[0].radius
        };
        let mut i: usize = 1;
        while i < self.circles.len()
            invariant
                1 <= i || self.circles@.len() == 0,
                i <= self.circles@.len() || (self.circles@.len() == 0 && i == 1),
                self.circles@.len() == 0 ==> max_radius == (Scalar { bits: 0x10000 }),
                self.circles@.len() > 0 ==> crate::collision::spec_max_radius_from(
                    max_radius,
                    self.circles@,
                    i as int,
                ) == crate::collision::spec_max_radius(self.circles@),
            decreases self.circles@.len() - i,
        {
            if self.circles[i].radius.bits > max_radius.bits {
                max_radius = self.circles[i].radius;
            }
            i = i + 1;
        }
        let cell_size = max_radius.mul(Scalar::two());
        proof {
            assert(cell_size == spec_cell_size(self.circles@));
        }
        let mut out: Vec<(usize, usize)> = Vec::new();
        if cell_size.bits == 0 {
            proof {
                assert(out@ =~= spec_detected_pairs(self.circles@));
            }
            return out;
        }
        let grid = crate::spatial::SpatialGrid::build(
            &self.circles,
            cell_size,
            self.bounds.x,
            self.bounds.y,
        );
        let pairs = grid.get_collision_pairs();
        proof {
            crate::spatial::lemma_build_below(self.circles@, cell_size);
            crate::spatial::lemma_collision_pairs_below(
                spec_build(self.circles@, cell_size),
                self.circles@.len(),
            );
        }
        let contacts = crate::spatial::detect_collisions(&self.circles, &pairs);
        let ghost contacts_spec = spec_detect(
            self.circles@,
            spec_collision_pairs(spec_build(self.circles@, cell_size)),
        );
        let mut k: usize = 0;
        while k < contacts.len()
            invariant
                0 <= k <= contacts@.len(),
                contacts@ == contacts_spec,
                out@.len() == k,
                forall|t: int|
                    0 <= t < k ==> out@[t] == ((#[trigger] contacts_spec[t]).idx_a,
                    contacts_spec[t].idx_b),
            decreases contacts@.len() - k,
        {
            let c = contacts[k];
            out.push((c.idx_a, c.idx_b));
            k = k + 1;
        }
        proof {
            assert(out@ =~= spec_detected_pairs(self.circles@));
        }
        out
    }

    /// The indices of the bodies currently touching a wall, one entry
    /// per wall contact.
    fn detect_boundary_collisions(&self) -> (out: Vec<usize>)
        ensures
            out@ == Seq::new(
                spec_boundary_collisions(self.circles@, self.bounds.x, self.bounds.y).len(),
                |i: int|
                    spec_boundary_collisions(self.circles@, self.bounds.x, self.bounds.y)[i].idx,
            ),
    {
        let walls = crate::spatial::detect_boundary_collisions(
            &self.circles,
            self.bounds.x,
            self.bounds.y,
        );
        let ghost walls_spec = spec_boundary_collisions(self.circles@, self.bounds.x, self.bounds.y);
        let mut out: Vec<usize> = Vec::new();
        let mut k: usize = 0;
        while k < walls.len()
            invariant
                0 <= k <= walls@.len(),
                walls@ == walls_spec,
                out@.len() == k,
                forall|t: int| 0 <= t < k ==> out@[t] == (#[trigger] walls_spec[t]).idx,
            decreases walls@.len() - k,
        {
            let w = walls[k];
            out.push(w.idx);
            k = k + 1;
        }
        proof {
            assert(out@ =~= Seq::new(walls_spec.len(), |i: int| walls_spec[i].idx));
        }
        out
    }

    /// The total energy of the world, kinetic plus potential.
    fn calculate_total_energy(&self) -> (r: Scalar)
        ensures
            r == spec_total_energy(self.circles@, self.gravity),
    {
        let mut total = Scalar::zero();
        let mut i: usize = 0;
        while i < self.circles.len()
            invariant
                0 <= i <= self.circles@.len(),
                spec_energy_from(total, self.circles@, self.gravity, i as int)
                    == spec_total_energy(self.circles@, self.gravity),
            decreases self.circles@.len() - i,
        {
            let c = self.circles[i];
            let v_sq = c.velocity.x.mul(c.velocity.x).add(c.velocity.y.mul(c.velocity.y));
            let kinetic = c.mass.mul(v_sq).mul(Scalar::half());
            let potential = c.mass.mul(self.gravity.y.neg()).mul(c.position.y);
            total = total.add(kinetic).add(potential);
            i = i + 1;
        }
        total
    }

    /// Capture the world as a snapshot taken after `step` ticks.
    pub fn capture_state(&self, step: u64) -> (st: SimulationState)
        ensures
            is_capture(st, self.circles@, self.bounds, self.timestep, step),
    {
        let collisions = self.detect_collisions();
        let boundary_hits = self.detect_boundary_collisions();
        let mut rows: Vec<CircleState> = Vec::new();
        let mut i: usize = 0;
        while i < self.circles.len()
            invariant
                0 <= i <= self.circles@.len(),
                rows@.len() == i,
                forall|t: int|
                    0 <= t < i ==> rows@[t] == spec_circle_state(#[trigger] self.circles@[t]),
            decreases self.circles@.len() - i,
        {
            let c = self.circles[i];
            rows.push(
                CircleState {
                    position: c.position,
                    velocity: c.velocity,
                    radius: c.radius,
                    mass: c.mass,
                },
            );
            i = i + 1;
        }
        proof {
            assert(rows@ =~= spec_capture_circles(self.circles@));
        }
        SimulationState {
            step,
            time: Scalar::from_int((step % 0x8000_0000u64) as i32).mul(self.timestep),
            circles: rows,
            frame_collisions: sat_u32(collisions.len()),
            frame_boundary_hits: sat_u32(boundary_hits.len()),
        }
    }
}

impl World {
    /// Run `num_steps` ticks with recording: snapshot the world before
    /// the first tick and after every tick, and fold the run's aggregates
    /// over the post-tick snapshots.  The trace holds the input record,
    /// all `num_steps + 1` snapshots, and the output record.
    pub fn run_with_recording(&mut self, num_steps: u32) -> (trace: SimulationTrace)
        requires
            old(self).timestep.bits != 0,
        ensures
            final(self).bounds == old(self).bounds,
            final(self).gravity == old(self).gravity,
            final(self).timestep == old(self).timestep,
            final(self).collision_config == old(self).collision_config,
            final(self).circles@ == spec_world_after_steps(
                old(self).circles@,
                old(self).gravity,
                old(self).timestep,
                old(self).bounds,
                old(self).collision_config,
                num_steps as int,
            ),
            is_input_snapshot(
                trace.input,
                old(self).bounds,
                old(self).gravity,
                old(self).timestep,
                old(self).collision_config,
                old(self).circles@,
                num_steps,
            ),
            trace.states@.len() == num_steps + 1,
            forall|k: int|
                0 <= k <= num_steps as int ==> is_capture(
                    #[trigger] trace.states@[k],
                    spec_world_after_steps(
                        old(self).circles@,
                        old(self).gravity,
                        old(self).timestep,
                        old(self).bounds,
                        old(self).collision_config,
                        k,
                    ),
                    old(self).bounds,
                    old(self).timestep,
                    k as u64,
                ),
            trace.output.steps_executed == num_steps,
            is_capture(
                trace.output.final_state,
                spec_world_after_steps(
                    old(self).circles@,
                    old(self).gravity,
                    old(self).timestep,
                    old(self).bounds,
                    old(self).collision_config,
                    num_steps as int,
                ),
                old(self).bounds,
                old(self).timestep,
                num_steps as u64,
            ),
            trace.output.metrics.collision_count == spec_sum_collisions(trace.states@),
            trace.output.metrics.boundary_hits == spec_sum_boundary_hits(trace.states@),
            trace.output.metrics.max_velocity == spec_max_velocity(trace.states@),
            trace.output.metrics.total_energy == spec_total_energy(
                final(self).circles@,
                old(self).gravity,
            ),
    {
        let ghost c0 = self.circles@;
        let ghost g = self.gravity;
        let ghost dt = self.timestep;
        let ghost bounds = self.bounds;
        let ghost cfg = self.collision_config;
        let mut cfg_rows: Vec<CircleConfig> = Vec::new();
        let mut ci: usize = 0;
        while ci < self.circles.len()
            invariant
                0 <= ci <= self.circles@.len(),
                self.circles@ == c0,
                cfg_rows@.len() == ci,
                forall|t: int|
                    0 <= t < ci ==> cfg_rows@[t] == spec_input_circles(c0)[t],
            decreases self.circles@.len() - ci,
        {
            let c = self.circles[ci];
            cfg_rows.push(
                CircleConfig {
                    position: c.position,
                    velocity: c.velocity,
                    radius: c.radius,
                    mass: c.mass,
                },
            );
            ci = ci + 1;
        }
        proof {
            assert(cfg_rows@ =~= spec_input_circles(c0));
        }
        let input = SimulationInput {
            world_width: self.bounds.x,
            world_height: self.bounds.y,
            gravity: self.gravity,
            timestep: self.timestep,
            restitution: self.collision_config.restitution,
            position_correction: self.collision_config.position_correction,
            circles: cfg_rows,
            num_steps,
            record_trajectory: true,
            seed: 0,
        };
        let mut states: Vec<SimulationState> = Vec::new();
        let mut max_velocity = Scalar::zero();
        let mut collision_count: u32 = 0;
        let mut boundary_hits: u32 = 0;
        let st0 = self.capture_state(0);
        states.push(st0);
        let mut step_i: u64 = 1;
        while step_i <= num_steps as u64
            invariant
                1 <= step_i,
                step_i <= num_steps as u64 + 1,
                self.bounds == bounds,
                self.gravity == g,
                self.timestep == dt,
                self.collision_config == cfg,
                dt.bits != 0,
                self.circles@ == spec_world_after_steps(c0, g, dt, bounds, cfg, step_i as int - 1),
                states@.len() == step_i,
                forall|k: int|
                    0 <= k < step_i as int ==> is_capture(
                        #[trigger] states@[k],
                        spec_world_after_steps(c0, g, dt, bounds, cfg, k),
                        bounds,
                        dt,
                        k as u64,
                    ),
                collision_count == spec_sum_collisions(states@),
                boundary_hits == spec_sum_boundary_hits(states@),
                max_velocity == spec_max_velocity(states@),
            decreases num_steps as int + 1 - step_i as int,
        {
            self.step();
            let st = self.capture_state(step_i);
            let ghost m_before = max_velocity;
            let ghost states_before = states@;
            let mut b: usize = 0;
            while b < st.circles.len()
                invariant
                    0 <= b <= st.circles@.len(),
                    spec_max_vel_from(max_velocity, st.circles@, b as int) == spec_max_vel_from(
                        m_before,
                        st.circles@,
                        0,
                    ),
                decreases st.circles@.len() - b,
            {
                let v = st.circles[b].velocity;
                let v_sq = v.x.mul(v.x).add(v.y.mul(v.y));
                if v_sq.bits > 0 {
                    let mag = v_sq.sqrt();
                    if mag.bits > max_velocity.bits {
                        max_velocity = mag;
                    }
                }
                b = b + 1;
            }
            collision_count = collision_count.wrapping_add(st.frame_collisions);
            boundary_hits = boundary_hits.wrapping_add(st.frame_boundary_hits);
            states.push(st);
            proof {
                assert(states@.drop_last() =~= states_before);
                assert(states@.last() == st);
                assert(spec_sum_collisions(states@) == collision_count);
                assert(spec_sum_boundary_hits(states@) == boundary_hits);
                assert(spec_max_velocity(states@) == max_velocity);
            }
            step_i = step_i + 1;
        }
        let total_energy = self.calculate_total_energy();
        let n_states = states.len();
        let last = clone_state(&states[n_states - 1]);
        let metrics = SimulationMetrics {
            total_energy,
            max_velocity,
            collision_count,
            boundary_hits,
        };
        let output = SimulationOutput { final_state: last, steps_executed: num_steps, metrics };
        SimulationTrace { input, states, output }
    }
}

} // verus!
