//! Built-in simulation scenarios.
//!
//! Every quantity is given directly as its Q16.16 encoding, so a scenario
//! is one fixed input record: the same bits on every machine.

use vstd::prelude::*;

verus! {

use crate::scalar::Scalar;
use crate::vec2::Vec2;
use crate::state::{SimulationInput, CircleConfig};

/// A configuration row from raw encodings.
pub open spec fn spec_cfg(px: i32, py: i32, vx: i32, vy: i32, r: i32, m: i32) -> CircleConfig {
    CircleConfig {
        position: Vec2 { x: Scalar { bits: px }, y: Scalar { bits: py } },
        velocity: Vec2 { x: Scalar { bits: vx }, y: Scalar { bits: vy } },
        radius: Scalar { bits: r },
        mass: Scalar { bits: m },
    }
}

/// Build a configuration row from raw encodings.
fn cfg(px: i32, py: i32, vx: i32, vy: i32, r: i32, m: i32) -> (c: CircleConfig)
    ensures
        c == spec_cfg(px, py, vx, vy, r, m),
{
    CircleConfig {
        position: Vec2 { x: Scalar { bits: px }, y: Scalar { bits: py } },
        velocity: Vec2 { x: Scalar { bits: vx }, y: Scalar { bits: vy } },
        radius: Scalar { bits: r },
        mass: Scalar { bits: m },
    }
}

/// Relies on str's equality: two string slices are equal exactly when
/// their character sequences are.
#[verifier::external_body]
fn str_eq(a: &str, b: &str) -> (r: bool)
    ensures
        r == (a@ == b@),
{
    a == b
}

/// The bodies of the `simple_drop` scenario.
pub open spec fn spec_simple_drop_circles() -> Seq<CircleConfig> {
    seq![
        spec_cfg(3276800, 5242880, 0, 0, 327680, 65536),
    ]
}

/// `inp` is exactly the `simple_drop` input record.
pub open spec fn is_simple_drop_input(inp: SimulationInput) -> bool {
    &&& inp.world_width == (Scalar { bits: 6553600 })
    &&& inp.world_height == (Scalar { bits: 6553600 })
    &&& inp.gravity == (Vec2 { x: Scalar { bits: 0 }, y: Scalar { bits: -642908i32 } })
    &&& inp.timestep == (Scalar { bits: 1092 })
    &&& inp.restitution == (Scalar { bits: 52429 })
    &&& inp.position_correction == (Scalar { bits: 52429 })
    &&& inp.circles@ == spec_simple_drop_circles()
    &&& inp.num_steps == 120u32
    &&& inp.record_trajectory == true
    &&& inp.seed == 0
}

/// One body dropped from rest high above the floor.
pub fn simple_drop() -> (r: SimulationInput)
    ensures
        is_simple_drop_input(r),
{
    let mut circles: Vec<CircleConfig> = Vec::new();
    circles.push(cfg(3276800, 5242880, 0, 0, 327680, 65536));
    proof {
        assert(circles@ =~= spec_simple_drop_circles());
    }
    SimulationInput {
        world_width: Scalar::from_bits(6553600),
        world_height: Scalar::from_bits(6553600),
        gravity: Vec2::from_scalars(Scalar::from_bits(0), Scalar::from_bits(-642908)),
        timestep: Scalar::from_bits(1092),
        restitution: Scalar::from_bits(52429),
        position_correction: Scalar::from_bits(52429),
        circles,
        num_steps: 120,
        record_trajectory: true,
        seed: 0,
    }
}

/// The bodies of the `simple_drop_simulation` scenario.
pub open spec fn spec_simple_drop_simulation_circles() -> Seq<CircleConfig> {
    seq![
        spec_cfg(3276800, 5242880, 0, 0, 327680, 65536),
    ]
}

/// `inp` is exactly the `simple_drop_simulation` input record.
pub open spec fn is_simple_drop_simulation_input(inp: SimulationInput) -> bool {
    &&& inp.world_width == (Scalar { bits: 6553600 })
    &&& inp.world_height == (Scalar { bits: 6553600 })
    &&& inp.gravity == (Vec2 { x: Scalar { bits: 0 }, y: Scalar { bits: -642908i32 } })
    &&& inp.timestep == (Scalar { bits: 1092 })
    &&& inp.restitution == (Scalar { bits: 52429 })
    &&& inp.position_correction == (Scalar { bits: 52429 })
    &&& inp.circles@ == spec_simple_drop_simulation_circles()
    &&& inp.num_steps == 300u32
    &&& inp.record_trajectory == true
    &&& inp.seed == 0
}

/// The ball drop built programmatically, run for five seconds.
pub fn simple_drop_simulation() -> (r: SimulationInput)
    ensures
        is_simple_drop_simulation_input(r),
{
    let mut circles: Vec<CircleConfig> = Vec::new();
    circles.push(cfg(3276800, 5242880, 0, 0, 327680, 65536));
    proof {
        assert(circles@ =~= spec_simple_drop_simulation_circles());
    }
    SimulationInput {
        world_width: Scalar::from_bits(6553600),
        world_height: Scalar::from_bits(6553600),
        gravity: Vec2::from_scalars(Scalar::from_bits(0), Scalar::from_bits(-642908)),
        timestep: Scalar::from_bits(1092),
        restitution: Scalar::from_bits(52429),
        position_correction: Scalar::from_bits(52429),
        circles,
        num_steps: 300,
        record_trajectory: true,
        seed: 0,
    }
}

/// The bodies of the `three_body_collision` scenario.
pub open spec fn spec_three_body_collision_circles() -> Seq<CircleConfig> {
    seq![
        spec_cfg(327680, 655360, 327680, 0, 32768, 65536),
        spec_cfg(983040, 655360, -327680i32, 0, 32768, 65536),
        spec_cfg(655360, 327680, 0, 196608, 19661, 32768),
    ]
}

/// `inp` is exactly the `three_body_collision` input record.
pub open spec fn is_three_body_collision_input(inp: SimulationInput) -> bool {
    &&& inp.world_width == (Scalar { bits: 1310720 })
    &&& inp.world_height == (Scalar { bits: 1310720 })
    &&& inp.gravity == (Vec2 { x: Scalar { bits: 0 }, y: Scalar { bits: -642908i32 } })
    &&& inp.timestep == (Scalar { bits: 1092 })
    &&& inp.restitution == (Scalar { bits: 58982 })
    &&& inp.position_correction == (Scalar { bits: 52429 })
    &&& inp.circles@ == spec_three_body_collision_circles()
    &&& inp.num_steps == 300u32
    &&& inp.record_trajectory == true
    &&& inp.seed == 0
}

/// Three bodies on a triangular approach course.
pub fn three_body_collision() -> (r: SimulationInput)
    ensures
        is_three_body_collision_input(r),
{
    let mut circles: Vec<CircleConfig> = Vec::new();
    circles.push(cfg(327680, 655360, 327680, 0, 32768, 65536));
    circles.push(cfg(983040, 655360, -327680, 0, 32768, 65536));
    circles.push(cfg(655360, 327680, 0, 196608, 19661, 32768));
    proof {
        assert(circles@ =~= spec_three_body_collision_circles());
    }
    SimulationInput {
        world_width: Scalar::from_bits(1310720),
        world_height: Scalar::from_bits(1310720),
        gravity: Vec2::from_scalars(Scalar::from_bits(0), Scalar::from_bits(-642908)),
        timestep: Scalar::from_bits(1092),
        restitution: Scalar::from_bits(58982),
        position_correction: Scalar::from_bits(52429),
        circles,
        num_steps: 300,
        record_trajectory: true,
        seed: 0,
    }
}

/// The bodies of the `pool_break` scenario.
pub open spec fn spec_pool_break_circles() -> Seq<CircleConfig> {
    seq![
        spec_cfg(327680, 655360, 983040, 6554, 32768, 78643),
        spec_cfg(1310720, 655360, 0, 0, 32768, 65536),
        spec_cfg(1370312, 620954, 0, 0, 32768, 65536),
        spec_cfg(1370312, 689766, 0, 0, 32768, 65536),
        spec_cfg(1429904, 586547, 0, 0, 32768, 65536),
        spec_cfg(1429904, 655360, 0, 0, 32768, 65536),
        spec_cfg(1429904, 724173, 0, 0, 32768, 65536),
        spec_cfg(1489496, 552141, 0, 0, 32768, 65536),
        spec_cfg(1489496, 620954, 0, 0, 32768, 65536),
        spec_cfg(1489496, 689766, 0, 0, 32768, 65536),
        spec_cfg(1489496, 758579, 0, 0, 32768, 65536),
    ]
}

/// `inp` is exactly the `pool_break` input record.
pub open spec fn is_pool_break_input(inp: SimulationInput) -> bool {
    &&& inp.world_width == (Scalar { bits: 1966080 })
    &&& inp.world_height == (Scalar { bits: 1310720 })
    &&& inp.gravity == (Vec2 { x: Scalar { bits: 0 }, y: Scalar { bits: 0i32 } })
    &&& inp.timestep == (Scalar { bits: 1092 })
    &&& inp.restitution == (Scalar { bits: 62259 })
    &&& inp.position_correction == (Scalar { bits: 52429 })
    &&& inp.circles@ == spec_pool_break_circles()
    &&& inp.num_steps == 600u32
    &&& inp.record_trajectory == true
    &&& inp.seed == 0
}

/// A heavy cue ball into a triangular rack of ten.
pub fn pool_break() -> (r: SimulationInput)
    ensures
        is_pool_break_input(r),
{
    let mut circles: Vec<CircleConfig> = Vec::new();
    circles.push(cfg(327680, 655360, 983040, 6554, 32768, 78643));
    circles.push(cfg(1310720, 655360, 0, 0, 32768, 65536));
    circles.push(cfg(1370312, 620954, 0, 0, 32768, 65536));
    circles.push(cfg(1370312, 689766, 0, 0, 32768, 65536));
    circles.push(cfg(1429904, 586547, 0, 0, 32768, 65536));
    circles.push(cfg(1429904, 655360, 0, 0, 32768, 65536));
    circles.push(cfg(1429904, 724173, 0, 0, 32768, 65536));
    circles.push(cfg(1489496, 552141, 0, 0, 32768, 65536));
    circles.push(cfg(1489496, 620954, 0, 0, 32768, 65536));
    circles.push(cfg(1489496, 689766, 0, 0, 32768, 65536));
    circles.push(cfg(1489496, 758579, 0, 0, 32768, 65536));
    proof {
        assert(circles@ =~= spec_pool_break_circles());
    }
    SimulationInput {
        world_width: Scalar::from_bits(1966080),
        world_height: Scalar::from_bits(1310720),
        gravity: Vec2::from_scalars(Scalar::from_bits(0), Scalar::from_bits(0)),
        timestep: Scalar::from_bits(1092),
        restitution: Scalar::from_bits(62259),
        position_correction: Scalar::from_bits(52429),
        circles,
        num_steps: 600,
        record_trajectory: true,
        seed: 0,
    }
}

/// The bodies of the `pool_break_15` scenario.
pub open spec fn spec_pool_break_15_circles() -> Seq<CircleConfig> {
    seq![
        spec_cfg(327680, 655360, 1179648, 6554, 32768, 78643),
        spec_cfg(1310720, 655360, 0, 0, 32768, 65536),
        spec_cfg(1368893, 621773, 0, 0, 32768, 65536),
        spec_cfg(1368893, 688947, 0, 0, 32768, 65536),
        spec_cfg(1427066, 588186, 0, 0, 32768, 65536),
        spec_cfg(1427066, 655360, 0, 0, 32768, 65536),
        spec_cfg(1427066, 722534, 0, 0, 32768, 65536),
        spec_cfg(1485239, 554598, 0, 0, 32768, 65536),
        spec_cfg(1485239, 621773, 0, 0, 32768, 65536),
        spec_cfg(1485239, 688947, 0, 0, 32768, 65536),
        spec_cfg(1485239, 756122, 0, 0, 32768, 65536),
        spec_cfg(1543412, 521011, 0, 0, 32768, 65536),
        spec_cfg(1543412, 588186, 0, 0, 32768, 65536),
        spec_cfg(1543412, 655360, 0, 0, 32768, 65536),
        spec_cfg(1543412, 722534, 0, 0, 32768, 65536),
        spec_cfg(1543412, 789709, 0, 0, 32768, 65536),
    ]
}

/// `inp` is exactly the `pool_break_15` input record.
pub open spec fn is_pool_break_15_input(inp: SimulationInput) -> bool {
    &&& inp.world_width == (Scalar { bits: 2293760 })
    &&& inp.world_height == (Scalar { bits: 1310720 })
    &&& inp.gravity == (Vec2 { x: Scalar { bits: 0 }, y: Scalar { bits: 0i32 } })
    &&& inp.timestep == (Scalar { bits: 1092 })
    &&& inp.restitution == (Scalar { bits: 62259 })
    &&& inp.position_correction == (Scalar { bits: 52429 })
    &&& inp.circles@ == spec_pool_break_15_circles()
    &&& inp.num_steps == 800u32
    &&& inp.record_trajectory == true
    &&& inp.seed == 0
}

/// A faster cue ball into a full rack of fifteen.
pub fn pool_break_15() -> (r: SimulationInput)
    ensures
        is_pool_break_15_input(r),
{
    let mut circles: Vec<CircleConfig> = Vec::new();
    circles.push(cfg(327680, 655360, 1179648, 6554, 32768, 78643));
    circles.push(cfg(1310720, 655360, 0, 0, 32768, 65536));
    circles.push(cfg(1368893, 621773, 0, 0, 32768, 65536));
    circles.push(cfg(1368893, 688947, 0, 0, 32768, 65536));
    circles.push(cfg(1427066, 588186, 0, 0, 32768, 65536));
    circles.push(cfg(1427066, 655360, 0, 0, 32768, 65536));
    circles.push(cfg(1427066, 722534, 0, 0, 32768, 65536));
    circles.push(cfg(1485239, 554598, 0, 0, 32768, 65536));
    circles.push(cfg(1485239, 621773, 0, 0, 32768, 65536));
    circles.push(cfg(1485239, 688947, 0, 0, 32768, 65536));
    circles.push(cfg(1485239, 756122, 0, 0, 32768, 65536));
    circles.push(cfg(1543412, 521011, 0, 0, 32768, 65536));
    circles.push(cfg(1543412, 588186, 0, 0, 32768, 65536));
    circles.push(cfg(1543412, 655360, 0, 0, 32768, 65536));
    circles.push(cfg(1543412, 722534, 0, 0, 32768, 65536));
    circles.push(cfg(1543412, 789709, 0, 0, 32768, 65536));
    proof {
        assert(circles@ =~= spec_pool_break_15_circles());
    }
    SimulationInput {
        world_width: Scalar::from_bits(2293760),
        world_height: Scalar::from_bits(1310720),
        gravity: Vec2::from_scalars(Scalar::from_bits(0), Scalar::from_bits(0)),
        timestep: Scalar::from_bits(1092),
        restitution: Scalar::from_bits(62259),
        position_correction: Scalar::from_bits(52429),
        circles,
        num_steps: 800,
        record_trajectory: true,
        seed: 0,
    }
}

/// The bodies of the `pool_break_simulation` scenario.
pub open spec fn spec_pool_break_simulation_circles() -> Seq<CircleConfig> {
    seq![
        spec_cfg(327680, 655360, 983040, 6554, 32768, 78643),
        spec_cfg(1310720, 655360, 0, 0, 32768, 65536),
        spec_cfg(1367474, 622592, 0, 0, 32768, 65536),
        spec_cfg(1367474, 688128, 0, 0, 32768, 65536),
        spec_cfg(1424228, 589824, 0, 0, 32768, 65536),
        spec_cfg(1424228, 655360, 0, 0, 32768, 65536),
        spec_cfg(1424228, 720896, 0, 0, 32768, 65536),
        spec_cfg(1480982, 557056, 0, 0, 32768, 65536),
        spec_cfg(1480982, 622592, 0, 0, 32768, 65536),
        spec_cfg(1480982, 688128, 0, 0, 32768, 65536),
        spec_cfg(1480982, 753664, 0, 0, 32768, 65536),
    ]
}

/// `inp` is exactly the `pool_break_simulation` input record.
pub open spec fn is_pool_break_simulation_input(inp: SimulationInput) -> bool {
    &&& inp.world_width == (Scalar { bits: 1966080 })
    &&& inp.world_height == (Scalar { bits: 1310720 })
    &&& inp.gravity == (Vec2 { x: Scalar { bits: 0 }, y: Scalar { bits: 0i32 } })
    &&& inp.timestep == (Scalar { bits: 1092 })
    &&& inp.restitution == (Scalar { bits: 62259 })
    &&& inp.position_correction == (Scalar { bits: 52429 })
    &&& inp.circles@ == spec_pool_break_simulation_circles()
    &&& inp.num_steps == 600u32
    &&& inp.record_trajectory == true
    &&& inp.seed == 0
}

/// The pool break built programmatically with a tight rack.
pub fn pool_break_simulation() -> (r: SimulationInput)
    ensures
        is_pool_break_simulation_input(r),
{
    let mut circles: Vec<CircleConfig> = Vec::new();
    circles.push(cfg(327680, 655360, 983040, 6554, 32768, 78643));
    circles.push(cfg(1310720, 655360, 0, 0, 32768, 65536));
    circles.push(cfg(1367474, 622592, 0, 0, 32768, 65536));
    circles.push(cfg(1367474, 688128, 0, 0, 32768, 65536));
    circles.push(cfg(1424228, 589824, 0, 0, 32768, 65536));
    circles.push(cfg(1424228, 655360, 0, 0, 32768, 65536));
    circles.push(cfg(1424228, 720896, 0, 0, 32768, 65536));
    circles.push(cfg(1480982, 557056, 0, 0, 32768, 65536));
    circles.push(cfg(1480982, 622592, 0, 0, 32768, 65536));
    circles.push(cfg(1480982, 688128, 0, 0, 32768, 65536));
    circles.push(cfg(1480982, 753664, 0, 0, 32768, 65536));
    proof {
        assert(circles@ =~= spec_pool_break_simulation_circles());
    }
    SimulationInput {
        world_width: Scalar::from_bits(1966080),
        world_height: Scalar::from_bits(1310720),
        gravity: Vec2::from_scalars(Scalar::from_bits(0), Scalar::from_bits(0)),
        timestep: Scalar::from_bits(1092),
        restitution: Scalar::from_bits(62259),
        position_correction: Scalar::from_bits(52429),
        circles,
        num_steps: 600,
        record_trajectory: true,
        seed: 0,
    }
}

/// Look a scenario up by name; each scenario answers to its underscored
/// and its hyphenated name.
pub fn get_scenario(name: &str) -> (r: Option<SimulationInput>)
    ensures
        (name@ == "pool_break"@ || name@ == "pool-break"@) ==> r is Some
            && is_pool_break_input(r.unwrap()),
        (name@ == "pool_break_15"@ || name@ == "pool-break-15"@) ==> r is Some
            && is_pool_break_15_input(r.unwrap()),
        (name@ == "simple_drop"@ || name@ == "simple-drop"@) ==> r is Some
            && is_simple_drop_input(r.unwrap()),
        (name@ == "three_body"@ || name@ == "three-body"@ || name@ == "three_body_collision"@)
            ==> r is Some && is_three_body_collision_input(r.unwrap()),
        (name@ == "pool_break_sim"@ || name@ == "pool-break-sim"@) ==> r is Some
            && is_pool_break_simulation_input(r.unwrap()),
        (name@ == "simple_drop_sim"@ || name@ == "simple-drop-sim"@) ==> r is Some
            && is_simple_drop_simulation_input(r.unwrap()),
        r is Some ==> (name@ == "pool_break"@ || name@ == "pool-break"@ || name@
            == "pool_break_15"@ || name@ == "pool-break-15"@ || name@ == "simple_drop"@ || name@
            == "simple-drop"@ || name@ == "three_body"@ || name@ == "three-body"@ || name@
            == "three_body_collision"@ || name@ == "pool_break_sim"@ || name@ == "pool-break-sim"@
            || name@ == "simple_drop_sim"@ || name@ == "simple-drop-sim"@),
{
    proof {
        reveal_strlit("pool_break");
        reveal_strlit("pool-break");
        reveal_strlit("pool_break_15");
        reveal_strlit("pool-break-15");
        reveal_strlit("simple_drop");
        reveal_strlit("simple-drop");
        reveal_strlit("three_body");
        reveal_strlit("three-body");
        reveal_strlit("three_body_collision");
        reveal_strlit("pool_break_sim");
        reveal_strlit("pool-break-sim");
        reveal_strlit("simple_drop_sim");
        reveal_strlit("simple-drop-sim");
        assert("pool_break"@.len() == 10);
        assert("pool-break"@.len() == 10);
        assert("pool_break_15"@.len() == 13);
        assert("pool-break-15"@.len() == 13);
        assert("simple_drop"@.len() == 11);
        assert("simple-drop"@.len() == 11);
        assert("three_body"@.len() == 10);
        assert("three-body"@.len() == 10);
        assert("three_body_collision"@.len() == 20);
        assert("pool_break_sim"@.len() == 14);
        assert("pool-break-sim"@.len() == 14);
        assert("simple_drop_sim"@.len() == 15);
        assert("simple-drop-sim"@.len() == 15);
        assert("pool_break"@[0] == 'p');
        assert("pool-break"@[0] == 'p');
        assert("three_body"@[0] == 't');
        assert("three-body"@[0] == 't');
    }
    if str_eq(name, "pool_break") || str_eq(name, "pool-break") {
        Some(pool_break())
    } else if str_eq(name, "pool_break_15") || str_eq(name, "pool-break-15") {
        Some(pool_break_15())
    } else if str_eq(name, "simple_drop") || str_eq(name, "simple-drop") {
        Some(simple_drop())
    } else if str_eq(name, "three_body") || str_eq(name, "three-body") || str_eq(
        name,
        "three_body_collision",
    ) {
        Some(three_body_collision())
    } else if str_eq(name, "pool_break_sim") || str_eq(name, "pool-break-sim") {
        Some(pool_break_simulation())
    } else if str_eq(name, "simple_drop_sim") || str_eq(name, "simple-drop-sim") {
        Some(simple_drop_simulation())
    } else {
        None
    }
}

/// The underscored names of all built-in scenarios.
pub fn list_scenarios() -> (r: Vec<&'static str>)
    ensures
        r@.len() == 6,
        r@[0]@ == "pool_break"@,
        r@[1]@ == "pool_break_15"@,
        r@[2]@ == "simple_drop"@,
        r@[3]@ == "three_body_collision"@,
        r@[4]@ == "pool_break_sim"@,
        r@[5]@ == "simple_drop_sim"@,
{
    let mut r: Vec<&'static str> = Vec::new();
    r.push("pool_break");
    r.push("pool_break_15");
    r.push("simple_drop");
    r.push("three_body_collision");
    r.push("pool_break_sim");
    r.push("simple_drop_sim");
    r
}

} // verus!
