//! A deterministic 2D rigid-body physics engine for circular bodies.
//!
//! All arithmetic is Q16.16 fixed point on 32-bit signed encodings, so a
//! simulation is a pure function of its input: identical inputs give
//! bit-identical outputs on every platform and every run.

mod scalar;
mod vec2;
mod circle;
mod spatial;
mod collision;
mod world;
mod state;
mod digest;
mod scenarios;
mod proving;
mod runner;

pub use scalar::Scalar;
pub use scalar::mul_fixed;
pub use vec2::Vec2;
pub use circle::Circle;
pub use spatial::{SpatialGrid, GridCell, Collision, BoundaryCollision, Boundary};
pub use spatial::{detect_collisions, detect_boundary_collisions};
pub use collision::{CollisionConfig, Impulse};
pub use world::World;
pub use digest::{state_digest, final_positions};
pub use proving::{ProofMetrics, ProofBackend, MockBackend, mock_proof_metrics};
pub use runner::{RunnerConfig, ZkVmBackend, RunnerResult, SimulationRunner};
pub use scenarios::{pool_break, pool_break_15, simple_drop, three_body_collision, pool_break_simulation, simple_drop_simulation, get_scenario, list_scenarios};
pub use state::{SimulationState, CircleState, SimulationInput, CircleConfig, SimulationOutput, SimulationMetrics, SimulationTrace};
pub use collision::{resolve_collisions, resolve_boundary_collisions, apply_impulses, resolve_all_collisions};
