//! The physics world and its tick.
//!
//! A tick integrates every body with Verlet's rule, resolves collisions
//! functionally, and refreshes the velocity projections.  Between ticks
//! the world is a pure function of its previous state and configuration.

use vstd::prelude::*;

verus! {

use crate::scalar::Scalar;
use crate::vec2::Vec2;
use crate::circle::Circle;
use crate::collision::{CollisionConfig, spec_resolve_all_collisions, resolve_all_collisions};

/// The physics world containing all bodies.
#[derive(Debug, Clone)]
pub struct World {
    /// World extent: width and height, origin at the lower left.
    pub bounds: Vec2,
    /// Gravity, applied to every body each tick.
    pub gravity: Vec2,
    /// Fixed timestep of one tick.
    pub timestep: Scalar,
    /// The bodies; a body's index is its identity for the whole run.
    pub circles: Vec<Circle>,
    /// Collision response configuration.
    pub collision_config: CollisionConfig,
}

/// One Verlet step of a single body:
/// `2 · position - old_position + gravity · dt²`.  The cached velocity is
/// set to `(position - old_position) / dt` over the written fields, so
/// the resolvers see `(new_pos - pre-tick position) / dt`: the velocity
/// of the tick being resolved, not a span of two ticks.
pub open spec fn spec_integrate_circle(c: Circle, gravity: Vec2, dt: Scalar) -> Circle {
    let new_pos = c.position.spec_mul(Scalar::spec_two()).spec_sub(c.old_position).spec_add(
        gravity.spec_mul(dt).spec_mul(dt),
    );
    Circle {
        position: new_pos,
        old_position: c.position,
        velocity: new_pos.spec_sub(c.position).spec_div(dt),
        ..c
    }
}

/// All bodies after the integration pass, in index order.
pub open spec fn spec_integrated(circles: Seq<Circle>, gravity: Vec2, dt: Scalar) -> Seq<Circle> {
    Seq::new(circles.len(), |i: int| spec_integrate_circle(circles[i], gravity, dt))
}

/// A body with its velocity projection recomputed from the Verlet state.
pub open spec fn spec_refresh_circle(c: Circle, dt: Scalar) -> Circle {
    Circle { velocity: c.position.spec_sub(c.old_position).spec_div(dt), ..c }
}

/// All bodies with refreshed velocity projections.
pub open spec fn spec_refreshed(circles: Seq<Circle>, dt: Scalar) -> Seq<Circle> {
    Seq::new(circles.len(), |i: int| spec_refresh_circle(circles[i], dt))
}

/// One full tick on the body sequence: integrate, resolve collisions,
/// refresh velocities.
#[verifier::opaque]
pub open spec fn spec_step_circles(
    circles: Seq<Circle>,
    gravity: Vec2,
    dt: Scalar,
    bounds: Vec2,
    config: CollisionConfig,
) -> Seq<Circle> {
    let integrated = spec_integrated(circles, gravity, dt);
    let resolved = spec_resolve_all_collisions(integrated, bounds.x, bounds.y, config);
    spec_refreshed(resolved, dt)
}

/// One collision-free step of a single body: Verlet integration followed
/// by a clamp to the floor; the cached velocity is left alone.
pub open spec fn spec_step_no_collision_circle(c: Circle, gravity: Vec2, dt: Scalar) -> Circle {
    let new_pos = c.position.spec_mul(Scalar::spec_two()).spec_sub(c.old_position).spec_add(
        gravity.spec_mul(dt).spec_mul(dt),
    );
    let c1 = Circle { position: new_pos, old_position: c.position, ..c };
    if c1.position.y.spec_sub(c1.radius).bits < 0 {
        Circle {
            position: Vec2 { x: c1.position.x, y: c1.radius },
            old_position: Vec2 { x: c1.old_position.x, y: c1.radius },
            ..c1
        }
    } else {
        c1
    }
}

/// All bodies after one collision-free step.
pub open spec fn spec_step_no_collision(
    circles: Seq<Circle>,
    gravity: Vec2,
    dt: Scalar,
) -> Seq<Circle> {
    Seq::new(circles.len(), |i: int| spec_step_no_collision_circle(circles[i], gravity, dt))
}

/// The body sequence after `k` ticks of the world's pipeline.
pub open spec fn spec_world_after_steps(
    circles: Seq<Circle>,
    gravity: Vec2,
    dt: Scalar,
    bounds: Vec2,
    config: CollisionConfig,
    k: int,
) -> Seq<Circle>
    decreases k,
{
    if k <= 0 {
        circles
    } else {
        spec_step_circles(
            spec_world_after_steps(circles, gravity, dt, bounds, config, k - 1),
            gravity,
            dt,
            bounds,
            config,
        )
    }
}

/// Checkpoint-resume equivalence: running `a + b` ticks from a state is
/// the same as running `a` ticks, taking the resulting bodies as a new
/// starting state, and running `b` more ticks.  Exporting and re-importing
/// a world between the two legs preserves every field, so a resumed run
/// ends bit-identical to an uninterrupted one.
pub proof fn lemma_step_compose(
    circles: Seq<Circle>,
    gravity: Vec2,
    dt: Scalar,
    bounds: Vec2,
    config: CollisionConfig,
    a: int,
    b: int,
)
    requires
        a >= 0,
        b >= 0,
    ensures
        spec_world_after_steps(circles, gravity, dt, bounds, config, a + b)
            == spec_world_after_steps(
            spec_world_after_steps(circles, gravity, dt, bounds, config, a),
            gravity,
            dt,
            bounds,
            config,
            b,
        ),
    decreases b,
{
    if b == 0 {
    } else {
        lemma_step_compose(circles, gravity, dt, bounds, config, a, b - 1);
    }
}

/// Determinism of the tick: the bodies after a step are a function of
/// the bodies and configuration before it, so two worlds that agree on
/// every field agree after any number of ticks.
pub proof fn lemma_step_deterministic(
    circles1: Seq<Circle>,
    circles2: Seq<Circle>,
    gravity: Vec2,
    dt: Scalar,
    bounds: Vec2,
    config: CollisionConfig,
    k: int,
)
    requires
        circles1 == circles2,
    ensures
        spec_world_after_steps(circles1, gravity, dt, bounds, config, k)
            == spec_world_after_steps(circles2, gravity, dt, bounds, config, k),
{
}

/// Horizontal momentum: with zero gravity, a body that the tick's
/// contact detection leaves untouched keeps its velocity projection
/// exactly — encoding for encoding, in x as in y — across the tick.
#[verifier::rlimit(100)]
pub proof fn lemma_velocity_preserved(
    circles: Seq<Circle>,
    dt: Scalar,
    bounds: Vec2,
    config: CollisionConfig,
    i: int,
)
    requires
        0 <= i < circles.len(),
        crate::collision::spec_no_contacts(
            spec_integrated(circles, Vec2 { x: Scalar { bits: 0 }, y: Scalar { bits: 0 } }, dt),
            bounds.x,
            bounds.y,
            i,
        ),
    ensures
        spec_step_circles(
            circles,
            Vec2 { x: Scalar { bits: 0 }, y: Scalar { bits: 0 } },
            dt,
            bounds,
            config,
        )[i].velocity == circles[i].position.spec_sub(circles[i].old_position).spec_div(dt),
{
    reveal(spec_step_circles);
    let g0 = Vec2 { x: Scalar { bits: 0 }, y: Scalar { bits: 0 } };
    let integrated = spec_integrated(circles, g0, dt);
    crate::collision::lemma_resolve_all_untouched(integrated, bounds.x, bounds.y, config, i);
    let resolved = crate::collision::spec_resolve_all_collisions(
        integrated,
        bounds.x,
        bounds.y,
        config,
    );
    let md: int = 0x1_0000_0000;
    let px = circles[i].position.x.bits as int;
    let py = circles[i].position.y.bits as int;
    let ox = circles[i].old_position.x.bits as int;
    let oy = circles[i].old_position.y.bits as int;
    lemma_integrate_zero_gravity(circles[i], dt);
    let nx = integrated[i].position;
    assert(resolved[i].position == nx && resolved[i].old_position == circles[i].position);
    assert(spec_step_circles(circles, g0, dt, bounds, config)[i] == spec_refresh_circle(
        resolved[i],
        dt,
    ));
    crate::scalar::lemma_wrap32_mod(2 * px - ox);
    crate::scalar::lemma_wrap32_mod(2 * py - oy);
    vstd::arithmetic::div_mod::lemma_sub_mod_noop(nx.x.bits as int, px, md);
    vstd::arithmetic::div_mod::lemma_sub_mod_noop(2 * px - ox, px, md);
    vstd::arithmetic::div_mod::lemma_sub_mod_noop(nx.y.bits as int, py, md);
    vstd::arithmetic::div_mod::lemma_sub_mod_noop(2 * py - oy, py, md);
    crate::scalar::lemma_wrap32_congruent(nx.x.bits - px, px - ox);
    crate::scalar::lemma_wrap32_congruent(nx.y.bits - py, py - oy);
    assert(nx.spec_sub(circles[i].position) == circles[i].position.spec_sub(
        circles[i].old_position,
    ));
}

/// With zero gravity the Verlet step moves a body to
/// `2 · position - old_position`, wrapped.
proof fn lemma_integrate_zero_gravity(c: Circle, dt: Scalar)
    ensures
        spec_integrate_circle(c, Vec2 { x: Scalar { bits: 0 }, y: Scalar { bits: 0 } }, dt).position
            == (Vec2 {
            x: Scalar { bits: crate::scalar::wrap32(2 * c.position.x.bits - c.old_position.x.bits) as i32 },
            y: Scalar { bits: crate::scalar::wrap32(2 * c.position.y.bits - c.old_position.y.bits) as i32 },
        }),
        spec_integrate_circle(
            c,
            Vec2 { x: Scalar { bits: 0 }, y: Scalar { bits: 0 } },
            dt,
        ).old_position == c.position,
        crate::scalar::wrap32(2 * c.position.x.bits - c.old_position.x.bits) % 0x1_0000_0000 == (2
            * c.position.x.bits - c.old_position.x.bits) % 0x1_0000_0000,
        crate::scalar::wrap32(2 * c.position.y.bits - c.old_position.y.bits) % 0x1_0000_0000 == (2
            * c.position.y.bits - c.old_position.y.bits) % 0x1_0000_0000,
{
    let g0 = Vec2 { x: Scalar { bits: 0 }, y: Scalar { bits: 0 } };
    let md: int = 0x1_0000_0000;
    let px = c.position.x.bits as int;
    let py = c.position.y.bits as int;
    let ox = c.old_position.x.bits as int;
    let oy = c.old_position.y.bits as int;
    let dtb = dt.bits as int;
    // the gravity term is exactly zero
    assert((0 * dtb) / 0x10000 == 0) by {
        assert(0 * dtb == 0);
        assert(0int / 0x10000 == 0);
    }
    crate::scalar::lemma_wrap32_id(0);
    assert(g0.spec_mul(dt) == g0);
    // the doubling is exact before wrapping
    vstd::arithmetic::div_mod::lemma_div_multiples_vanish(2 * px, 0x10000);
    assert(px * 0x20000 == 0x10000 * (2 * px));
    vstd::arithmetic::div_mod::lemma_div_multiples_vanish(2 * py, 0x10000);
    assert(py * 0x20000 == 0x10000 * (2 * py));
    let t1x = crate::scalar::wrap32(2 * px);
    let t1y = crate::scalar::wrap32(2 * py);
    crate::scalar::lemma_wrap32_mod(2 * px);
    crate::scalar::lemma_wrap32_mod(2 * py);
    vstd::arithmetic::div_mod::lemma_sub_mod_noop(t1x, ox, md);
    vstd::arithmetic::div_mod::lemma_sub_mod_noop(2 * px, ox, md);
    vstd::arithmetic::div_mod::lemma_sub_mod_noop(t1y, oy, md);
    vstd::arithmetic::div_mod::lemma_sub_mod_noop(2 * py, oy, md);
    crate::scalar::lemma_wrap32_congruent(t1x - ox, 2 * px - ox);
    crate::scalar::lemma_wrap32_congruent(t1y - oy, 2 * py - oy);
    let t2x = crate::scalar::wrap32(t1x - ox);
    let t2y = crate::scalar::wrap32(t1y - oy);
    crate::scalar::lemma_wrap32_range(t1x - ox);
    crate::scalar::lemma_wrap32_range(t1y - oy);
    crate::scalar::lemma_wrap32_id(t2x + 0);
    crate::scalar::lemma_wrap32_id(t2y + 0);
    crate::scalar::lemma_wrap32_mod(2 * px - ox);
    crate::scalar::lemma_wrap32_mod(2 * py - oy);
}

impl World {
    /// A fresh world of the given extent with no bodies, gravity
    /// `(0, -9.81)` and a sixtieth-of-a-second timestep (Q16.16 encodings
    /// -642908 and 1092), under the stock collision configuration.
    pub fn new(width: Scalar, height: Scalar) -> (r: World)
        ensures
            r.bounds == (Vec2 { x: width, y: height }),
            r.gravity == (Vec2 { x: Scalar { bits: 0 }, y: Scalar { bits: -642908i32 } }),
            r.timestep == (Scalar { bits: 1092 }),
            r.circles@.len() == 0,
            r.collision_config == CollisionConfig::spec_default(),
    {
        World {
            bounds: Vec2::from_scalars(width, height),
            gravity: Vec2::from_scalars(Scalar::zero(), Scalar::from_bits(-642908)),
            timestep: Scalar::from_bits(1092),
            circles: Vec::new(),
            collision_config: CollisionConfig::default(),
        }
    }

    /// Add a body at the end of the sequence; its index becomes its
    /// identity.
    pub fn add_circle(&mut self, circle: Circle)
        ensures
            final(self).circles@ == old(self).circles@.push(circle),
            final(self).bounds == old(self).bounds,
            final(self).gravity == old(self).gravity,
            final(self).timestep == old(self).timestep,
            final(self).collision_config == old(self).collision_config,
    {
        self.circles.push(circle);
    }

    /// One tick: gravity and Verlet integration, collision resolution,
    /// and the velocity refresh, in that order.
    pub fn step(&mut self)
        requires
            old(self).timestep.bits != 0,
        ensures
            final(self).circles@ == spec_step_circles(
                old(self).circles@,
                old(self).gravity,
                old(self).timestep,
                old(self).bounds,
                old(self).collision_config,
            ),
            final(self).bounds == old(self).bounds,
            final(self).gravity == old(self).gravity,
            final(self).timestep == old(self).timestep,
            final(self).collision_config == old(self).collision_config,
    {
        let n = self.circles.len();
        let gravity = self.gravity;
        let dt = self.timestep;
        let mut i: usize = 0;
        while i < n
            invariant
                0 <= i <= n,
                self.circles@.len() == n,
                dt == old(self).timestep,
                gravity == old(self).gravity,
                self.bounds == old(self).bounds,
                self.gravity == old(self).gravity,
                self.timestep == old(self).timestep,
                self.collision_config == old(self).collision_config,
                n == old(self).circles@.len(),
                dt.bits != 0,
                forall|t: int|
                    0 <= t < i ==> self.circles@[t] == spec_integrate_circle(
                        old(self).circles@[t],
                        gravity,
                        dt,
                    ),
                forall|t: int| i <= t < n ==> self.circles@[t] == old(self).circles@[t],
            decreases n - i,
        {
            let c = self.circles[i];
            let new_pos = c.position.mul(Scalar::two()).sub(c.old_position).add(
                gravity.mul(dt).mul(dt),
            );
            let updated = Circle {
                position: new_pos,
                old_position: c.position,
                velocity: new_pos.sub(c.position).div(dt),
                radius: c.radius,
                mass: c.mass,
                restitution: c.restitution,
                friction: c.friction,
            };
            self.circles[i] = updated;
            i = i + 1;
        }
        proof {
            assert(self.circles@ =~= spec_integrated(old(self).circles@, gravity, dt));
        }
        let resolved = resolve_all_collisions(
            &self.circles,
            self.bounds.x,
            self.bounds.y,
            &self.collision_config,
        );
        self.circles = resolved;
        let m = self.circles.len();
        let ghost after_resolve = self.circles@;
        let mut j: usize = 0;
        while j < m
            invariant
                0 <= j <= m,
                self.circles@.len() == m,
                after_resolve.len() == m,
                dt.bits != 0,
                self.bounds == old(self).bounds,
                self.gravity == old(self).gravity,
                self.timestep == old(self).timestep,
                self.collision_config == old(self).collision_config,
                forall|t: int|
                    0 <= t < j ==> self.circles@[t] == spec_refresh_circle(after_resolve[t], dt),
                forall|t: int| j <= t < m ==> self.circles@[t] == after_resolve[t],
            decreases m - j,
        {
            let c = self.circles[j];
            let updated = Circle {
                position: c.position,
                old_position: c.old_position,
                velocity: c.position.sub(c.old_position).div(dt),
                radius: c.radius,
                mass: c.mass,
                restitution: c.restitution,
                friction: c.friction,
            };
            self.circles[j] = updated;
            j = j + 1;
        }
        proof {
            reveal(spec_step_circles);
            assert(self.circles@ =~= spec_refreshed(after_resolve, dt));
        }
    }

    /// One step without collision handling, with only a clamp at the
    /// floor; a test hook, not part of the canonical tick.
    pub fn step_no_collision(&mut self)
        ensures
            final(self).circles@ == spec_step_no_collision(
                old(self).circles@,
                old(self).gravity,
                old(self).timestep,
            ),
            final(self).bounds == old(self).bounds,
            final(self).gravity == old(self).gravity,
            final(self).timestep == old(self).timestep,
            final(self).collision_config == old(self).collision_config,
    {
        let n = self.circles.len();
        let gravity = self.gravity;
        let dt = self.timestep;
        let mut i: usize = 0;
        while i < n
            invariant
                0 <= i <= n,
                self.circles@.len() == n,
                dt == old(self).timestep,
                gravity == old(self).gravity,
                self.bounds == old(self).bounds,
                self.gravity == old(self).gravity,
                self.timestep == old(self).timestep,
                self.collision_config == old(self).collision_config,
                n == old(self).circles@.len(),
                forall|t: int|
                    0 <= t < i ==> self.circles@[t] == spec_step_no_collision_circle(
                        old(self).circles@[t],
                        gravity,
                        dt,
                    ),
                forall|t: int| i <= t < n ==> self.circles@[t] == old(self).circles@[t],
            decreases n - i,
        {
            let c = self.circles[i];
            let new_pos = c.position.mul(Scalar::two()).sub(c.old_position).add(
                gravity.mul(dt).mul(dt),
            );
            let mut updated = Circle {
                position: new_pos,
                old_position: c.position,
                velocity: c.velocity,
                radius: c.radius,
                mass: c.mass,
                restitution: c.restitution,
                friction: c.friction,
            };
            if updated.position.y.sub(updated.radius).bits < 0 {
                updated.position.y = updated.radius;
                updated.old_position.y = updated.radius;
            }
            self.circles[i] = updated;
            i = i + 1;
        }
        proof {
            assert(self.circles@ =~= spec_step_no_collision(old(self).circles@, gravity, dt));
        }
    }
}

} // verus!
