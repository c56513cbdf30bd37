//! Impulse-based collision response.
//!
//! Contacts are turned into per-body velocity and position deltas, the
//! deltas are accumulated by body index, and the accumulated update is
//! applied in one functional pass, so the order in which impulses are
//! produced cannot change the result beyond the stated wrapping
//! arithmetic.

use vstd::prelude::*;

verus! {

use crate::scalar::Scalar;
use crate::vec2::Vec2;
use crate::circle::Circle;
use crate::spatial::{Collision, BoundaryCollision, Boundary};

/// Collision response configuration.
#[derive(Clone, Copy, Debug, PartialEq, Eq, Structural)]
pub struct CollisionConfig {
    /// Coefficient of restitution: zero is perfectly inelastic, one is
    /// perfectly elastic.
    pub restitution: Scalar,
    /// Fraction of the penetration depth removed per tick.
    pub position_correction: Scalar,
    /// Minimum separation speed below which no restitution is applied,
    /// to keep resting contacts from jittering.
    pub velocity_threshold: Scalar,
}

impl CollisionConfig {
    /// The stock configuration: restitution 0.8, position correction 0.4,
    /// velocity threshold 0.01 (Q16.16 encodings 0xCCCD, 0x6666, 0x28F).
    pub open spec fn spec_default() -> CollisionConfig {
        CollisionConfig {
            restitution: Scalar { bits: 0xCCCD },
            position_correction: Scalar { bits: 0x6666 },
            velocity_threshold: Scalar { bits: 0x28F },
        }
    }
}

impl Default for CollisionConfig {
    /// The stock configuration.
    fn default() -> (r: CollisionConfig)
        ensures
            r == CollisionConfig::spec_default(),
    {
        CollisionConfig {
            restitution: Scalar::from_bits(0xCCCD),
            position_correction: Scalar::from_bits(0x6666),
            velocity_threshold: Scalar::from_bits(0x28F),
        }
    }
}

/// A velocity change and a position correction aimed at one body.
#[derive(Clone, Copy, Debug, PartialEq, Eq, Structural)]
pub struct Impulse {
    /// Index of the circle the impulse applies to.
    pub idx: usize,
    /// Velocity change.
    pub delta_v: Vec2,
    /// Position correction.
    pub delta_pos: Vec2,
}

/// The impulses of one circle-circle contact: none when the bodies
/// already separate, when a mass encoding is zero, or when an inverse
/// mass or mass sum wraps to zero (the source arithmetic could not divide
/// there); otherwise one impulse per body, the first for the lower index.
#[verifier::opaque]
pub open spec fn spec_pair_impulses(
    circles: Seq<Circle>,
    col: Collision,
    config: CollisionConfig,
) -> Seq<Impulse> {
    let ca = circles[col.idx_a as int];
    let cb = circles[col.idx_b as int];
    let rel = cb.velocity.spec_sub(ca.velocity);
    let vn = rel.spec_dot(col.normal);
    if vn.bits > 0 {
        Seq::empty()
    } else if ca.mass.bits == 0 || cb.mass.bits == 0 {
        Seq::empty()
    } else {
        let e = if vn.spec_abs().bits > config.velocity_threshold.bits {
            config.restitution
        } else {
            Scalar::spec_zero()
        };
        let denom = Scalar::spec_one().spec_div(ca.mass).spec_add(
            Scalar::spec_one().spec_div(cb.mass),
        );
        let mass_sum = ca.mass.spec_add(cb.mass);
        if denom.bits == 0 || mass_sum.bits == 0 {
            Seq::empty()
        } else {
            let j = Scalar::spec_one().spec_add(e).spec_neg().spec_mul(vn).spec_div(denom);
            let impulse = col.normal.spec_mul(j);
            let delta_v_a = impulse.spec_neg().spec_div(ca.mass);
            let delta_v_b = impulse.spec_div(cb.mass);
            let total_correction = col.depth.spec_mul(config.position_correction);
            let correction_a = col.normal.spec_mul(
                total_correction.spec_mul(cb.mass).spec_div(mass_sum),
            );
            let correction_b = col.normal.spec_neg().spec_mul(
                total_correction.spec_mul(ca.mass).spec_div(mass_sum),
            );
            seq![
                Impulse { idx: col.idx_a, delta_v: delta_v_a, delta_pos: correction_a.spec_neg() },
                Impulse { idx: col.idx_b, delta_v: delta_v_b, delta_pos: correction_b.spec_neg() },
            ]
        }
    }
}

/// The impulses of the contacts from position `k` on, in contact order.
pub open spec fn spec_resolve_from(
    acc: Seq<Impulse>,
    circles: Seq<Circle>,
    collisions: Seq<Collision>,
    config: CollisionConfig,
    k: int,
) -> Seq<Impulse>
    decreases collisions.len() - k,
{
    if k < 0 || k >= collisions.len() {
        acc
    } else {
        spec_resolve_from(
            acc + spec_pair_impulses(circles, collisions[k], config),
            circles,
            collisions,
            config,
            k + 1,
        )
    }
}

/// The impulses of all circle-circle contacts.
pub open spec fn spec_resolve_collisions(
    circles: Seq<Circle>,
    collisions: Seq<Collision>,
    config: CollisionConfig,
) -> Seq<Impulse> {
    spec_resolve_from(Seq::empty(), circles, collisions, config, 0)
}

/// Turn the detected circle-circle contacts into impulses.
pub fn resolve_collisions(
    circles: &Vec<Circle>,
    collisions: &Vec<Collision>,
    config: &CollisionConfig,
) -> (out: Vec<Impulse>)
    requires
        forall|k: int|
            0 <= k < collisions@.len() ==> (#[trigger] collisions@[k]).idx_a < circles@.len()
                && collisions@[k].idx_b < circles@.len(),
    ensures
        out@ == spec_resolve_collisions(circles@, collisions@, *config),
{
    let ghost target = spec_resolve_collisions(circles@, collisions@, *config);
    let mut out: Vec<Impulse> = Vec::new();
    let mut k: usize = 0;
    while k < collisions.len()
        invariant
            0 <= k <= collisions@.len(),
            forall|t: int|
                0 <= t < collisions@.len() ==> (#[trigger] collisions@[t]).idx_a < circles@.len()
                    && collisions@[t].idx_b < circles@.len(),
            spec_resolve_from(out@, circles@, collisions@, *config, k as int) == target,
        decreases collisions.len() - k,
    {
        let col = collisions[k];
        let ghost before = out@;
        let ca = circles[col.idx_a];
        let cb = circles[col.idx_b];
        let rel = cb.velocity.sub(ca.velocity);
        let vn = rel.dot(&col.normal);
        if !(vn.bits > 0) && !(ca.mass.bits == 0 || cb.mass.bits == 0) {
            let e = if vn.abs().bits > config.velocity_threshold.bits {
                config.restitution
            } else {
                Scalar::zero()
            };
            let denom = Scalar::one().div(ca.mass).add(Scalar::one().div(cb.mass));
            let mass_sum = ca.mass.add(cb.mass);
            if !(denom.bits == 0 || mass_sum.bits == 0) {
                let j = Scalar::one().add(e).neg().mul(vn).div(denom);
                let impulse = col.normal.mul(j);
                let delta_v_a = impulse.neg().div(ca.mass);
                let delta_v_b = impulse.div(cb.mass);
                let total_correction = col.depth.mul(config.position_correction);
                let correction_a = col.normal.mul(total_correction.mul(cb.mass).div(mass_sum));
                let correction_b = col.normal.neg().mul(
                    total_correction.mul(ca.mass).div(mass_sum),
                );
                out.push(Impulse { idx: col.idx_a, delta_v: delta_v_a, delta_pos: correction_a.neg() });
                out.push(Impulse { idx: col.idx_b, delta_v: delta_v_b, delta_pos: correction_b.neg() });
            }
        }
        proof {
            reveal(spec_pair_impulses);
            assert(out@ =~= before + spec_pair_impulses(circles@, collisions@[k as int], *config));
        }
        k = k + 1;
    }
    out
}

/// The unit normal of a wall, pointing into the world.
pub open spec fn spec_boundary_normal(b: Boundary) -> Vec2 {
    match b {
        Boundary::Left => Vec2 { x: Scalar::spec_one(), y: Scalar::spec_zero() },
        Boundary::Right => Vec2 { x: Scalar::spec_one().spec_neg(), y: Scalar::spec_zero() },
        Boundary::Bottom => Vec2 { x: Scalar::spec_zero(), y: Scalar::spec_one() },
        Boundary::Top => Vec2 { x: Scalar::spec_zero(), y: Scalar::spec_one().spec_neg() },
    }
}

/// The impulse of one wall contact, treating the wall as infinitely
/// heavy: none when the body already moves away from the wall or its
/// mass encoding is zero.
#[verifier::opaque]
pub open spec fn spec_wall_impulse(
    circles: Seq<Circle>,
    col: BoundaryCollision,
    config: CollisionConfig,
) -> Seq<Impulse> {
    let c = circles[col.idx as int];
    let normal = spec_boundary_normal(col.boundary);
    let vn = c.velocity.spec_dot(normal);
    if vn.bits > 0 || c.mass.bits == 0 {
        Seq::empty()
    } else {
        let e = if vn.spec_abs().bits > config.velocity_threshold.bits {
            config.restitution
        } else {
            Scalar::spec_zero()
        };
        let j = Scalar::spec_one().spec_add(e).spec_neg().spec_mul(vn);
        let delta_v = normal.spec_mul(j).spec_div(c.mass);
        let delta_pos = normal.spec_mul(col.depth.spec_mul(config.position_correction));
        seq![Impulse { idx: col.idx, delta_v, delta_pos }]
    }
}

/// The impulses of the wall contacts from position `k` on.
pub open spec fn spec_resolve_boundary_from(
    acc: Seq<Impulse>,
    circles: Seq<Circle>,
    collisions: Seq<BoundaryCollision>,
    config: CollisionConfig,
    k: int,
) -> Seq<Impulse>
    decreases collisions.len() - k,
{
    if k < 0 || k >= collisions.len() {
        acc
    } else {
        spec_resolve_boundary_from(
            acc + spec_wall_impulse(circles, collisions[k], config),
            circles,
            collisions,
            config,
            k + 1,
        )
    }
}

/// The impulses of all wall contacts.
pub open spec fn spec_resolve_boundary_collisions(
    circles: Seq<Circle>,
    collisions: Seq<BoundaryCollision>,
    config: CollisionConfig,
) -> Seq<Impulse> {
    spec_resolve_boundary_from(Seq::empty(), circles, collisions, config, 0)
}

/// Turn the detected wall contacts into impulses.
pub fn resolve_boundary_collisions(
    circles: &Vec<Circle>,
    collisions: &Vec<BoundaryCollision>,
    config: &CollisionConfig,
) -> (out: Vec<Impulse>)
    requires
        forall|k: int| 0 <= k < collisions@.len() ==> (#[trigger] collisions@[k]).idx < circles@.len(),
    ensures
        out@ == spec_resolve_boundary_collisions(circles@, collisions@, *config),
{
    let ghost target = spec_resolve_boundary_collisions(circles@, collisions@, *config);
    let mut out: Vec<Impulse> = Vec::new();
    let mut k: usize = 0;
    while k < collisions.len()
        invariant
            0 <= k <= collisions@.len(),
            forall|t: int|
                0 <= t < collisions@.len() ==> (#[trigger] collisions@[t]).idx < circles@.len(),
            spec_resolve_boundary_from(out@, circles@, collisions@, *config, k as int) == target,
        decreases collisions.len() - k,
    {
        let col = collisions[k];
        let ghost before = out@;
        let c = circles[col.idx];
        let normal = match col.boundary {
            Boundary::Left => Vec2::from_scalars(Scalar::one(), Scalar::zero()),
            Boundary::Right => Vec2::from_scalars(Scalar::one().neg(), Scalar::zero()),
            Boundary::Bottom => Vec2::from_scalars(Scalar::zero(), Scalar::one()),
            Boundary::Top => Vec2::from_scalars(Scalar::zero(), Scalar::one().neg()),
        };
        let vn = c.velocity.dot(&normal);
        if !(vn.bits > 0 || c.mass.bits == 0) {
            let e = if vn.abs().bits > config.velocity_threshold.bits {
                config.restitution
            } else {
                Scalar::zero()
            };
            let j = Scalar::one().add(e).neg().mul(vn);
            let delta_v = normal.mul(j).div(c.mass);
            let delta_pos = normal.mul(col.depth.mul(config.position_correction));
            out.push(Impulse { idx: col.idx, delta_v, delta_pos });
        }
        proof {
            reveal(spec_wall_impulse);
            assert(normal == spec_boundary_normal(collisions@[k as int].boundary));
            assert(out@ =~= before + spec_wall_impulse(circles@, collisions@[k as int], *config));
        }
        k = k + 1;
    }
    out
}

/// The per-body totals of the impulses from position `k` on: each
/// impulse's deltas are added, in list order, onto the slot of the body
/// it aims at.
pub open spec fn spec_accumulate(
    acc: Seq<(Vec2, Vec2)>,
    impulses: Seq<Impulse>,
    k: int,
) -> Seq<(Vec2, Vec2)>
    decreases impulses.len() - k,
{
    if k < 0 || k >= impulses.len() {
        acc
    } else {
        let imp = impulses[k];
        let i = imp.idx as int;
        let slot = acc[i];
        spec_accumulate(
            acc.update(i, (slot.0.spec_add(imp.delta_v), slot.1.spec_add(imp.delta_pos))),
            impulses,
            k + 1,
        )
    }
}

/// A sequence of zero slots, one per body.
pub open spec fn spec_zero_slots(n: nat) -> Seq<(Vec2, Vec2)> {
    Seq::new(n, |i: int| (Vec2::spec_zero(), Vec2::spec_zero()))
}

/// The bodies after the accumulated impulses: position moved by the
/// position total, velocity moved by the velocity total, the previous
/// Verlet position untouched.
pub open spec fn spec_apply_impulses(circles: Seq<Circle>, impulses: Seq<Impulse>) -> Seq<Circle> {
    let totals = spec_accumulate(spec_zero_slots(circles.len()), impulses, 0);
    Seq::new(
        circles.len(),
        |i: int|
            Circle {
                position: circles[i].position.spec_add(totals[i].1),
                velocity: circles[i].velocity.spec_add(totals[i].0),
                ..circles[i]
            },
    )
}

/// Accumulate all impulses by body index and apply them in one
/// functional update.
pub fn apply_impulses(circles: &Vec<Circle>, impulses: &Vec<Impulse>) -> (out: Vec<Circle>)
    requires
        forall|k: int| 0 <= k < impulses@.len() ==> (#[trigger] impulses@[k]).idx < circles@.len(),
    ensures
        out@ == spec_apply_impulses(circles@, impulses@),
{
    let n = circles.len();
    let mut totals: Vec<(Vec2, Vec2)> = Vec::new();
    while totals.len() < n
        invariant
            totals@.len() <= n,
            forall|i: int|
                0 <= i < totals@.len() ==> totals@[i] == (Vec2::spec_zero(), Vec2::spec_zero()),
        decreases n - totals.len(),
    {
        totals.push((Vec2::zero(), Vec2::zero()));
    }
    proof {
        assert(totals@ =~= spec_zero_slots(circles@.len()));
    }
    let ghost final_totals = spec_accumulate(spec_zero_slots(circles@.len()), impulses@, 0);
    let mut k: usize = 0;
    while k < impulses.len()
        invariant
            0 <= k <= impulses@.len(),
            totals@.len() == circles@.len(),
            forall|t: int|
                0 <= t < impulses@.len() ==> (#[trigger] impulses@[t]).idx < circles@.len(),
            spec_accumulate(totals@, impulses@, k as int) == final_totals,
        decreases impulses.len() - k,
    {
        let imp = impulses[k];
        let slot = totals[imp.idx];
        totals[imp.idx] = (slot.0.add(imp.delta_v), slot.1.add(imp.delta_pos));
        k = k + 1;
    }
    let mut out: Vec<Circle> = Vec::new();
    let mut i: usize = 0;
    while i < n
        invariant
            0 <= i <= n,
            n == circles@.len(),
            totals@.len() == n,
            totals@ == final_totals,
            out@.len() == i,
            forall|t: int|
                0 <= t < i ==> out@[t] == (Circle {
                    position: circles@[t].position.spec_add(final_totals[t].1),
                    velocity: circles@[t].velocity.spec_add(final_totals[t].0),
                    ..circles@[t]
                }),
        decreases n - i,
    {
        let c = circles[i];
        let t = totals[i];
        out.push(
            Circle {
                position: c.position.add(t.1),
                velocity: c.velocity.add(t.0),
                old_position: c.old_position,
                radius: c.radius,
                mass: c.mass,
                restitution: c.restitution,
                friction: c.friction,
            },
        );
        i = i + 1;
    }
    proof {
        assert(out@ =~= spec_apply_impulses(circles@, impulses@));
    }
    out
}

/// Every contact in the list aims at indices below `n`.
pub open spec fn collisions_below(cols: Seq<Collision>, n: nat) -> bool {
    forall|t: int| 0 <= t < cols.len() ==> (#[trigger] cols[t]).idx_a < n && cols[t].idx_b < n
}

/// Every contact found by detection aims at indices below `n` when the
/// candidate pairs do.
proof fn lemma_detect_from_below(
    acc: Seq<Collision>,
    circles: Seq<Circle>,
    pairs: Seq<(usize, usize)>,
    k: int,
    n: nat,
)
    requires
        crate::spatial::pairs_below(pairs, n),
        collisions_below(acc, n),
    ensures
        collisions_below(crate::spatial::spec_detect_from(acc, circles, pairs, k), n),
    decreases pairs.len() - k,
{
    if k < 0 || k >= pairs.len() {
    } else {
        let acc1 = match crate::spatial::spec_contact(
            circles,
            pairs[k].0 as int,
            pairs[k].1 as int,
        ) {
            Some(c) => acc.push(c),
            None => acc,
        };
        assert(collisions_below(acc1, n));
        lemma_detect_from_below(acc1, circles, pairs, k + 1, n);
    }
}

/// The detected contacts aim at indices below `n` when the candidate
/// pairs do.
pub proof fn lemma_detect_below(circles: Seq<Circle>, pairs: Seq<(usize, usize)>, n: nat)
    requires
        crate::spatial::pairs_below(pairs, n),
    ensures
        collisions_below(crate::spatial::spec_detect(circles, pairs), n),
{
    lemma_detect_from_below(Seq::empty(), circles, pairs, 0, n);
}

/// Every impulse aims at an index below `n`.
pub open spec fn impulses_below(imps: Seq<Impulse>, n: nat) -> bool {
    forall|t: int| 0 <= t < imps.len() ==> (#[trigger] imps[t]).idx < n
}

/// Pair resolution aims its impulses at the contact indices.
proof fn lemma_resolve_from_below(
    acc: Seq<Impulse>,
    circles: Seq<Circle>,
    collisions: Seq<Collision>,
    config: CollisionConfig,
    k: int,
    n: nat,
)
    requires
        impulses_below(acc, n),
        collisions_below(collisions, n),
    ensures
        impulses_below(spec_resolve_from(acc, circles, collisions, config, k), n),
    decreases collisions.len() - k,
{
    if k < 0 || k >= collisions.len() {
    } else {
        lemma_pair_impulses_targets(circles, collisions[k], config);
        let acc1 = acc + spec_pair_impulses(circles, collisions[k], config);
        assert forall|t: int| 0 <= t < acc1.len() implies (#[trigger] acc1[t]).idx < n by {
            if t >= acc.len() {
                assert(acc1[t] == spec_pair_impulses(circles, collisions[k], config)[t
                    - acc.len()]);
            }
        }
        lemma_resolve_from_below(
            acc + spec_pair_impulses(circles, collisions[k], config),
            circles,
            collisions,
            config,
            k + 1,
            n,
        );
    }
}

/// The impulses of all circle-circle contacts aim below `n` when the
/// contacts do.
pub proof fn lemma_resolve_below(
    circles: Seq<Circle>,
    collisions: Seq<Collision>,
    config: CollisionConfig,
    n: nat,
)
    requires
        collisions_below(collisions, n),
    ensures
        impulses_below(spec_resolve_collisions(circles, collisions, config), n),
{
    lemma_resolve_from_below(Seq::empty(), circles, collisions, config, 0, n);
}

/// Wall resolution aims its impulses at the contact indices.
proof fn lemma_resolve_boundary_from_below(
    acc: Seq<Impulse>,
    circles: Seq<Circle>,
    collisions: Seq<BoundaryCollision>,
    config: CollisionConfig,
    k: int,
    n: nat,
)
    requires
        impulses_below(acc, n),
        forall|t: int| 0 <= t < collisions.len() ==> (#[trigger] collisions[t]).idx < n,
    ensures
        impulses_below(spec_resolve_boundary_from(acc, circles, collisions, config, k), n),
    decreases collisions.len() - k,
{
    if k < 0 || k >= collisions.len() {
    } else {
        lemma_wall_impulse_targets(circles, collisions[k], config);
        let acc1 = acc + spec_wall_impulse(circles, collisions[k], config);
        assert forall|t: int| 0 <= t < acc1.len() implies (#[trigger] acc1[t]).idx < n by {
            if t >= acc.len() {
                assert(acc1[t] == spec_wall_impulse(circles, collisions[k], config)[t
                    - acc.len()]);
            }
        }
        lemma_resolve_boundary_from_below(
            acc + spec_wall_impulse(circles, collisions[k], config),
            circles,
            collisions,
            config,
            k + 1,
            n,
        );
    }
}

/// The impulses of all wall contacts aim below `n` when the contacts do.
pub proof fn lemma_resolve_boundary_below(
    circles: Seq<Circle>,
    collisions: Seq<BoundaryCollision>,
    config: CollisionConfig,
    n: nat,
)
    requires
        forall|t: int| 0 <= t < collisions.len() ==> (#[trigger] collisions[t]).idx < n,
    ensures
        impulses_below(spec_resolve_boundary_collisions(circles, collisions, config), n),
{
    lemma_resolve_boundary_from_below(Seq::empty(), circles, collisions, config, 0, n);
}

/// Wall contacts aim at the body they were found on.
proof fn lemma_boundary_from_below(
    acc: Seq<crate::spatial::BoundaryCollision>,
    circles: Seq<Circle>,
    i: int,
    width: Scalar,
    height: Scalar,
)
    requires
        forall|t: int| 0 <= t < acc.len() ==> (#[trigger] acc[t]).idx < circles.len(),
        i >= 0,
    ensures
        forall|t: int|
            0 <= t < crate::spatial::spec_boundary_from(acc, circles, i, width, height).len()
                ==> (#[trigger] crate::spatial::spec_boundary_from(acc, circles, i, width, height)[t]).idx
                < circles.len(),
    decreases circles.len() - i,
{
    if i >= circles.len() {
    } else {
        let acc1 = acc + crate::spatial::spec_boundary_contacts(
            circles[i],
            i as usize,
            width,
            height,
        );
        assert(forall|t: int| 0 <= t < acc1.len() ==> (#[trigger] acc1[t]).idx < circles.len());
        lemma_boundary_from_below(acc1, circles, i + 1, width, height);
    }
}

/// All wall contacts aim at a body of the world.
pub proof fn lemma_boundary_below(circles: Seq<Circle>, width: Scalar, height: Scalar)
    ensures
        forall|t: int|
            0 <= t < crate::spatial::spec_boundary_collisions(circles, width, height).len() ==> (
            #[trigger] crate::spatial::spec_boundary_collisions(circles, width, height)[t]).idx
                < circles.len(),
{
    lemma_boundary_from_below(Seq::empty(), circles, 0, width, height);
}

/// A pair contact's impulses aim only at its two bodies.
proof fn lemma_pair_impulses_targets(circles: Seq<Circle>, col: Collision, config: CollisionConfig)
    ensures
        forall|t: int|
            0 <= t < spec_pair_impulses(circles, col, config).len() ==> (
            #[trigger] spec_pair_impulses(circles, col, config)[t]).idx == col.idx_a
                || spec_pair_impulses(circles, col, config)[t].idx == col.idx_b,
{
    reveal(spec_pair_impulses);
}

/// A wall contact's impulse aims only at its body.
proof fn lemma_wall_impulse_targets(
    circles: Seq<Circle>,
    col: BoundaryCollision,
    config: CollisionConfig,
)
    ensures
        forall|t: int|
            0 <= t < spec_wall_impulse(circles, col, config).len() ==> (
            #[trigger] spec_wall_impulse(circles, col, config)[t]).idx == col.idx,
{
    reveal(spec_wall_impulse);
}

/// No impulse in the list aims at body `i`.
pub open spec fn impulses_avoid(imps: Seq<Impulse>, i: int) -> bool {
    forall|t: int| 0 <= t < imps.len() ==> (#[trigger] imps[t]).idx != i
}

/// Pair resolution aims no impulse at a body that no contact involves.
proof fn lemma_resolve_from_avoids(
    acc: Seq<Impulse>,
    circles: Seq<Circle>,
    collisions: Seq<Collision>,
    config: CollisionConfig,
    k: int,
    i: int,
)
    requires
        forall|t: int|
            0 <= t < collisions.len() ==> (#[trigger] collisions[t]).idx_a != i
                && collisions[t].idx_b != i,
        impulses_avoid(acc, i),
    ensures
        impulses_avoid(spec_resolve_from(acc, circles, collisions, config, k), i),
    decreases collisions.len() - k,
{
    if k < 0 || k >= collisions.len() {
    } else {
        lemma_pair_impulses_targets(circles, collisions[k], config);
        let acc1 = acc + spec_pair_impulses(circles, collisions[k], config);
        assert forall|t: int| 0 <= t < acc1.len() implies (#[trigger] acc1[t]).idx != i by {
            if t >= acc.len() {
                assert(acc1[t] == spec_pair_impulses(circles, collisions[k], config)[t - acc.len()]);
            }
        }
        assert(impulses_avoid(acc1, i));
        lemma_resolve_from_avoids(acc1, circles, collisions, config, k + 1, i);
    }
}

/// All pair impulses avoid a body that no contact involves.
pub proof fn lemma_resolve_avoids(
    circles: Seq<Circle>,
    collisions: Seq<Collision>,
    config: CollisionConfig,
    i: int,
)
    requires
        forall|t: int|
            0 <= t < collisions.len() ==> (#[trigger] collisions[t]).idx_a != i
                && collisions[t].idx_b != i,
    ensures
        impulses_avoid(spec_resolve_collisions(circles, collisions, config), i),
{
    lemma_resolve_from_avoids(Seq::empty(), circles, collisions, config, 0, i);
}

/// Wall resolution aims no impulse at a body that no wall contact
/// involves.
proof fn lemma_resolve_boundary_from_avoids(
    acc: Seq<Impulse>,
    circles: Seq<Circle>,
    collisions: Seq<BoundaryCollision>,
    config: CollisionConfig,
    k: int,
    i: int,
)
    requires
        forall|t: int| 0 <= t < collisions.len() ==> (#[trigger] collisions[t]).idx != i,
        impulses_avoid(acc, i),
    ensures
        impulses_avoid(spec_resolve_boundary_from(acc, circles, collisions, config, k), i),
    decreases collisions.len() - k,
{
    if k < 0 || k >= collisions.len() {
    } else {
        lemma_wall_impulse_targets(circles, collisions[k], config);
        let acc1 = acc + spec_wall_impulse(circles, collisions[k], config);
        assert forall|t: int| 0 <= t < acc1.len() implies (#[trigger] acc1[t]).idx != i by {
            if t >= acc.len() {
                assert(acc1[t] == spec_wall_impulse(circles, collisions[k], config)[t - acc.len()]);
            }
        }
        lemma_resolve_boundary_from_avoids(acc1, circles, collisions, config, k + 1, i);
    }
}

/// All wall impulses avoid a body that no wall contact involves.
pub proof fn lemma_resolve_boundary_avoids(
    circles: Seq<Circle>,
    collisions: Seq<BoundaryCollision>,
    config: CollisionConfig,
    i: int,
)
    requires
        forall|t: int| 0 <= t < collisions.len() ==> (#[trigger] collisions[t]).idx != i,
    ensures
        impulses_avoid(spec_resolve_boundary_collisions(circles, collisions, config), i),
{
    lemma_resolve_boundary_from_avoids(Seq::empty(), circles, collisions, config, 0, i);
}

/// Accumulation leaves the slot of an untargeted body untouched.
pub proof fn lemma_accumulate_untouched(
    acc: Seq<(Vec2, Vec2)>,
    impulses: Seq<Impulse>,
    k: int,
    i: int,
)
    requires
        0 <= i < acc.len(),
        forall|t: int| 0 <= t < impulses.len() ==> (#[trigger] impulses[t]).idx != i,
        forall|t: int| 0 <= t < impulses.len() ==> (#[trigger] impulses[t]).idx < acc.len(),
    ensures
        spec_accumulate(acc, impulses, k).len() == acc.len(),
        spec_accumulate(acc, impulses, k)[i] == acc[i],
    decreases impulses.len() - k,
{
    if k < 0 || k >= impulses.len() {
    } else {
        let imp = impulses[k];
        let j = imp.idx as int;
        let slot = acc[j];
        let acc1 = acc.update(j, (slot.0.spec_add(imp.delta_v), slot.1.spec_add(imp.delta_pos)));
        lemma_accumulate_untouched(acc1, impulses, k + 1, i);
    }
}

/// The largest body radius from index `i` on, folded in index order.
pub open spec fn spec_max_radius_from(m: Scalar, circles: Seq<Circle>, i: int) -> Scalar
    decreases circles.len() - i,
{
    if i < 0 || i >= circles.len() {
        m
    } else {
        spec_max_radius_from(
            if circles[i].radius.bits > m.bits {
                circles[i].radius
            } else {
                m
            },
            circles,
            i + 1,
        )
    }
}

/// The largest body radius, or the encoding of one for an empty world.
pub open spec fn spec_max_radius(circles: Seq<Circle>) -> Scalar {
    if circles.len() == 0 {
        Scalar { bits: 0x10000 }
    } else {
        spec_max_radius_from(circles[0].radius, circles, 1)
    }
}

/// The grid cell size: twice the largest radius.
pub open spec fn spec_cell_size(circles: Seq<Circle>) -> Scalar {
    spec_max_radius(circles).spec_mul(Scalar::spec_two())
}

/// Dividing an encoding by one returns it unchanged.
proof fn lemma_div_by_one(s: Scalar)
    ensures
        s.spec_div(Scalar::spec_one()) == s,
{
    let x = s.bits as int;
    if x >= 0 {
        vstd::arithmetic::div_mod::lemma_div_multiples_vanish(x, 0x10000);
        assert(x * 0x10000 == 0x10000 * x);
    } else {
        vstd::arithmetic::div_mod::lemma_div_multiples_vanish(-x, 0x10000);
        assert(crate::scalar::abs_int(x * 0x10000) == 0x10000 * (-x));
    }
    crate::scalar::lemma_wrap32_id(x);
}

/// Multiplying an encoding by one returns it unchanged.
proof fn lemma_mul_by_one(s: Scalar)
    ensures
        Scalar::spec_one().spec_mul(s) == s,
        s.spec_mul(Scalar::spec_one()) == s,
{
    let x = s.bits as int;
    vstd::arithmetic::div_mod::lemma_div_multiples_vanish(x, 0x10000);
    assert(x * 0x10000 == 0x10000 * x);
    crate::scalar::lemma_wrap32_id(x);
}

/// Multiplying by a zero encoding gives the zero encoding.
proof fn lemma_mul_by_zero(s: Scalar)
    ensures
        (Scalar { bits: 0 }).spec_mul(s) == Scalar::spec_zero(),
{
    assert((0 * s.bits) as int / 0x10000 == 0) by {
        assert(0 * s.bits == 0);
        assert(0int / 0x10000 == 0);
    }
    crate::scalar::lemma_wrap32_id(0);
}

/// Opposite encodings sum to the zero encoding, wrapping included.
proof fn lemma_neg_cancels(s: Scalar)
    ensures
        s.spec_neg().spec_add(s) == Scalar::spec_zero(),
{
    let x = s.bits as int;
    let md: int = 0x1_0000_0000;
    crate::scalar::lemma_wrap32_mod(-x);
    vstd::arithmetic::div_mod::lemma_add_mod_noop(crate::scalar::wrap32(-x), x, md);
    vstd::arithmetic::div_mod::lemma_add_mod_noop(-x, x, md);
    crate::scalar::lemma_wrap32_congruent(crate::scalar::wrap32(-x) + x, 0);
    crate::scalar::lemma_wrap32_id(0);
}

/// Pair collision symmetry: between two bodies of unit mass, the two
/// velocity changes of a contact cancel exactly — their encoded sum is
/// zero in both components, so the impulse exchange conserves momentum
/// bit for bit.
#[verifier::rlimit(100)]
pub proof fn lemma_pair_impulse_symmetric(
    circles: Seq<Circle>,
    col: Collision,
    config: CollisionConfig,
)
    requires
        circles[col.idx_a as int].mass == Scalar::spec_one(),
        circles[col.idx_b as int].mass == Scalar::spec_one(),
    ensures
        spec_pair_impulses(circles, col, config).len() == 2 ==> spec_pair_impulses(
            circles,
            col,
            config,
        )[0].delta_v.spec_add(spec_pair_impulses(circles, col, config)[1].delta_v)
            == Vec2::spec_zero(),
{
    reveal(spec_pair_impulses);
    let imps = spec_pair_impulses(circles, col, config);
    if imps.len() == 2 {
        let ca = circles[col.idx_a as int];
        let cb = circles[col.idx_b as int];
        let rel = cb.velocity.spec_sub(ca.velocity);
        let vn = rel.spec_dot(col.normal);
        let e = if vn.spec_abs().bits > config.velocity_threshold.bits {
            config.restitution
        } else {
            Scalar::spec_zero()
        };
        let denom = Scalar::spec_one().spec_div(ca.mass).spec_add(
            Scalar::spec_one().spec_div(cb.mass),
        );
        let j = Scalar::spec_one().spec_add(e).spec_neg().spec_mul(vn).spec_div(denom);
        let impulse = col.normal.spec_mul(j);
        lemma_div_by_one(impulse.x.spec_neg());
        lemma_div_by_one(impulse.y.spec_neg());
        lemma_div_by_one(impulse.x);
        lemma_div_by_one(impulse.y);
        lemma_neg_cancels(impulse.x);
        lemma_neg_cancels(impulse.y);
        assert(imps[0].delta_v == impulse.spec_neg().spec_div(ca.mass));
        assert(imps[1].delta_v == impulse.spec_div(cb.mass));
    }
}

/// Floor rebound: a unit-mass body moving downward gets exactly one
/// impulse from a floor contact; it leaves the horizontal velocity
/// untouched (the x change is the zero encoding) and changes the
/// vertical velocity by exactly `-(1 + e) · v_y` in Q16.16, with `e`
/// zero below the velocity threshold and the configured restitution
/// above it.
pub proof fn lemma_floor_impulse(
    circles: Seq<Circle>,
    col: BoundaryCollision,
    config: CollisionConfig,
)
    requires
        col.boundary == Boundary::Bottom,
        circles[col.idx as int].velocity.y.bits <= 0,
        circles[col.idx as int].mass == Scalar::spec_one(),
    ensures
        spec_wall_impulse(circles, col, config).len() == 1,
        spec_wall_impulse(circles, col, config)[0].idx == col.idx,
        spec_wall_impulse(circles, col, config)[0].delta_v.x == Scalar::spec_zero(),
        spec_wall_impulse(circles, col, config)[0].delta_v.y == Scalar::spec_one().spec_add(
            if circles[col.idx as int].velocity.y.spec_abs().bits
                > config.velocity_threshold.bits {
                config.restitution
            } else {
                Scalar::spec_zero()
            },
        ).spec_neg().spec_mul(circles[col.idx as int].velocity.y),
{
    reveal(spec_wall_impulse);
    let c = circles[col.idx as int];
    let normal = spec_boundary_normal(col.boundary);
    // the dot product with (0, 1) is exactly the y velocity
    lemma_mul_by_zero(Scalar::spec_one());
    assert(c.velocity.x.spec_mul(normal.x) == Scalar::spec_zero()) by {
        assert((c.velocity.x.bits * 0) as int / 0x10000 == 0) by {
            assert(c.velocity.x.bits * 0 == 0);
            assert(0int / 0x10000 == 0);
        }
        crate::scalar::lemma_wrap32_id(0);
    }
    lemma_mul_by_one(c.velocity.y);
    crate::scalar::lemma_wrap32_id(c.velocity.y.bits as int);
    let vn = c.velocity.spec_dot(normal);
    assert(vn == c.velocity.y);
    let e = if vn.spec_abs().bits > config.velocity_threshold.bits {
        config.restitution
    } else {
        Scalar::spec_zero()
    };
    let j = Scalar::spec_one().spec_add(e).spec_neg().spec_mul(vn);
    // the impulse vector is (0, j), and dividing by the unit mass keeps it
    lemma_mul_by_zero(j);
    assert(normal.x.spec_mul(j) == Scalar::spec_zero()) by {
        assert((0 * j.bits) as int / 0x10000 == 0) by {
            assert(0 * j.bits == 0);
            assert(0int / 0x10000 == 0);
        }
        crate::scalar::lemma_wrap32_id(0);
    }
    lemma_mul_by_one(j);
    lemma_div_by_one(Scalar::spec_zero());
    lemma_div_by_one(j);
}

/// Floor rebound magnitude, exactly: adding the floor impulse's
/// vertical change `-(1 + e) · v_y` to a downward velocity `v_y` gives
/// precisely `e · |v_y|` in Q16.16 — the rebound speed is the
/// restitution times the impact speed, rounded down once by the
/// fixed-point product.
pub proof fn lemma_floor_rebound_exact(vy: Scalar, e: Scalar)
    requires
        vy.bits <= 0,
        vy.bits != i32::MIN,
        0 <= e.bits <= 0x10000,
    ensures
        vy.spec_add(Scalar::spec_one().spec_add(e).spec_neg().spec_mul(vy)) == e.spec_mul(
            vy.spec_abs(),
        ),
{
    let md: int = 0x1_0000_0000;
    let ebits = e.bits as int;
    let v = vy.bits as int;
    let w: int = -v;
    crate::scalar::lemma_wrap32_id(0x10000 + ebits);
    let s = Scalar::spec_one().spec_add(e);
    assert(s.bits == 0x10000 + ebits);
    crate::scalar::lemma_wrap32_id(-(0x10000 + ebits));
    let n = s.spec_neg();
    assert(n.bits == -(0x10000 + ebits));
    // the full product splits into the whole part and the scaled part
    let p: int = n.bits * v;
    assert(p == ebits * w + w * 0x10000) by (nonlinear_arith)
        requires
            p == (-(0x10000 + ebits)) * v,
            w == -v,
    ;
    vstd::arithmetic::div_mod::lemma_hoist_over_denominator(ebits * w, w, 0x10000);
    let q: int = p / 0x10000;
    assert(q == (ebits * w) / 0x10000 + w);
    let rr: int = (ebits * w) / 0x10000;
    vstd::arithmetic::div_mod::lemma_div_pos_is_pos(ebits * w, 0x10000);
    assert(ebits * w <= 0x10000 * w) by (nonlinear_arith)
        requires
            0 <= ebits <= 0x10000,
            w >= 0,
    ;
    vstd::arithmetic::div_mod::lemma_div_is_ordered(ebits * w, 0x10000 * w, 0x10000);
    vstd::arithmetic::div_mod::lemma_div_multiples_vanish(w, 0x10000);
    assert(0 <= rr <= w);
    // the doubled wrap cancels against the original velocity
    let j = n.spec_mul(vy);
    assert(j.bits as int == crate::scalar::wrap32(q));
    crate::scalar::lemma_wrap32_mod(q);
    vstd::arithmetic::div_mod::lemma_add_mod_noop(v, j.bits as int, md);
    vstd::arithmetic::div_mod::lemma_add_mod_noop(v, q, md);
    crate::scalar::lemma_wrap32_congruent(v + j.bits, v + q);
    crate::scalar::lemma_wrap32_id(rr);
    crate::scalar::lemma_wrap32_congruent(v + q, rr);
    // the right-hand side is the same scaled magnitude
    assert(vy.spec_abs().bits == w);
    assert(ebits * w == w * ebits) by (nonlinear_arith);
    assert(e.spec_mul(vy.spec_abs()).bits as int == crate::scalar::wrap32((ebits * w) / 0x10000));
}

/// Boundary bounce, end to end: a unit-mass body moving straight down
/// onto the floor leaves the resolution pass with its horizontal
/// velocity untouched, its vertical velocity equal to the effective
/// restitution times its impact speed (exactly, as Q16.16 products
/// round), and its center lifted by the configured fraction of the
/// penetration depth.
#[verifier::rlimit(100)]
pub proof fn lemma_floor_bounce(
    circles: Seq<Circle>,
    col: BoundaryCollision,
    config: CollisionConfig,
)
    requires
        0 <= col.idx < circles.len(),
        circles.len() <= usize::MAX,
        col.boundary == Boundary::Bottom,
        circles[col.idx as int].velocity.y.bits <= 0,
        circles[col.idx as int].velocity.y.bits != i32::MIN,
        circles[col.idx as int].mass == Scalar::spec_one(),
        0 <= config.restitution.bits <= 0x10000,
    ensures
        ({
            let c = circles[col.idx as int];
            let imps = spec_wall_impulse(circles, col, config);
            let out = spec_apply_impulses(circles, imps);
            let e = if c.velocity.y.spec_abs().bits > config.velocity_threshold.bits {
                config.restitution
            } else {
                Scalar::spec_zero()
            };
            &&& out.len() == circles.len()
            &&& out[col.idx as int].velocity.x == c.velocity.x
            &&& out[col.idx as int].velocity.y == e.spec_mul(c.velocity.y.spec_abs())
            &&& out[col.idx as int].position.x == c.position.x
            &&& out[col.idx as int].position.y == c.position.y.spec_add(
                col.depth.spec_mul(config.position_correction),
            )
            &&& out[col.idx as int].old_position == c.old_position
        }),
{
    reveal(spec_wall_impulse);
    let c = circles[col.idx as int];
    let i = col.idx as int;
    lemma_floor_impulse(circles, col, config);
    let imps = spec_wall_impulse(circles, col, config);
    let imp = imps[0];
    // the position correction is exactly (0, depth · correction)
    let t = col.depth.spec_mul(config.position_correction);
    lemma_mul_by_one(t);
    assert(imp.delta_pos.y == t) by {
        assert(spec_boundary_normal(col.boundary).y == Scalar::spec_one());
    }
    assert(imp.delta_pos.x == Scalar::spec_zero()) by {
        assert((0 * t.bits) as int / 0x10000 == 0) by {
            assert(0 * t.bits == 0);
            assert(0int / 0x10000 == 0);
        }
        crate::scalar::lemma_wrap32_id(0);
    }
    // a single impulse lands in exactly one accumulator slot
    let zeros = spec_zero_slots(circles.len());
    let totals = spec_accumulate(zeros, imps, 0);
    assert(totals == spec_accumulate(zeros.update(i, (imp.delta_v, imp.delta_pos)), imps, 1)) by {
        crate::scalar::lemma_wrap32_id(imp.delta_v.x.bits as int);
        crate::scalar::lemma_wrap32_id(imp.delta_v.y.bits as int);
        crate::scalar::lemma_wrap32_id(imp.delta_pos.x.bits as int);
        crate::scalar::lemma_wrap32_id(imp.delta_pos.y.bits as int);
        assert(zeros[i].0.spec_add(imp.delta_v) == imp.delta_v);
        assert(zeros[i].1.spec_add(imp.delta_pos) == imp.delta_pos);
    }
    assert(totals[i] == (imp.delta_v, imp.delta_pos));
    // apply: the x components gain exact zeros, the y components the deltas
    crate::scalar::lemma_wrap32_id(c.velocity.x.bits as int);
    crate::scalar::lemma_wrap32_id(c.position.x.bits as int);
    let e = if c.velocity.y.spec_abs().bits > config.velocity_threshold.bits {
        config.restitution
    } else {
        Scalar::spec_zero()
    };
    lemma_floor_rebound_exact(c.velocity.y, e);
    assert(spec_apply_impulses(circles, imps)[i].velocity.y == c.velocity.y.spec_add(
        imp.delta_v.y,
    ));
}

/// No contact of the current tick involves body `i`: no detected pair
/// touches it and it touches no wall.
#[verifier::opaque]
pub open spec fn spec_no_contacts(
    circles: Seq<Circle>,
    world_width: Scalar,
    world_height: Scalar,
    i: int,
) -> bool {
    let cs = spec_cell_size(circles);
    let contacts = crate::spatial::spec_detect(
        circles,
        crate::spatial::spec_collision_pairs(crate::spatial::spec_build(circles, cs)),
    );
    let walls = crate::spatial::spec_boundary_collisions(circles, world_width, world_height);
    &&& forall|t: int|
        0 <= t < contacts.len() ==> (#[trigger] contacts[t]).idx_a != i && contacts[t].idx_b != i
    &&& forall|t: int| 0 <= t < walls.len() ==> (#[trigger] walls[t]).idx != i
}

/// A body that no contact involves leaves the resolution pass with its
/// Verlet state unchanged.
pub proof fn lemma_resolve_all_untouched(
    circles: Seq<Circle>,
    world_width: Scalar,
    world_height: Scalar,
    config: CollisionConfig,
    i: int,
)
    requires
        0 <= i < circles.len(),
        spec_no_contacts(circles, world_width, world_height, i),
    ensures
        spec_resolve_all_collisions(circles, world_width, world_height, config).len()
            == circles.len(),
        spec_resolve_all_collisions(circles, world_width, world_height, config)[i].position
            == circles[i].position,
        spec_resolve_all_collisions(circles, world_width, world_height, config)[i].old_position
            == circles[i].old_position,
{
    reveal(spec_resolve_all_collisions);
    reveal(spec_no_contacts);
    let cs = spec_cell_size(circles);
    if cs.bits == 0 {
    } else {
        let grid = crate::spatial::spec_build(circles, cs);
        let pairs = crate::spatial::spec_collision_pairs(grid);
        let contacts = crate::spatial::spec_detect(circles, pairs);
        let walls = crate::spatial::spec_boundary_collisions(circles, world_width, world_height);
        let imps_a = spec_resolve_collisions(circles, contacts, config);
        let imps_b = spec_resolve_boundary_collisions(circles, walls, config);
        let imps = imps_a + imps_b;
        crate::spatial::lemma_build_below(circles, cs);
        crate::spatial::lemma_collision_pairs_below(grid, circles.len());
        lemma_detect_below(circles, pairs, circles.len());
        lemma_boundary_below(circles, world_width, world_height);
        lemma_resolve_below(circles, contacts, config, circles.len());
        lemma_resolve_boundary_below(circles, walls, config, circles.len());
        lemma_resolve_avoids(circles, contacts, config, i);
        lemma_resolve_boundary_avoids(circles, walls, config, i);
        assert forall|t: int| 0 <= t < imps.len() implies (#[trigger] imps[t]).idx != i
            && imps[t].idx < circles.len() by {
            if t < imps_a.len() {
                assert(imps[t] == imps_a[t]);
            } else {
                assert(imps[t] == imps_b[t - imps_a.len()]);
            }
        }
        let zeros = spec_zero_slots(circles.len());
        lemma_accumulate_untouched(zeros, imps, 0, i);
        let totals = spec_accumulate(zeros, imps, 0);
        assert(totals[i] == (Vec2::spec_zero(), Vec2::spec_zero()));
        crate::scalar::lemma_wrap32_id(circles[i].position.x.bits as int);
        crate::scalar::lemma_wrap32_id(circles[i].position.y.bits as int);
        assert(circles[i].position.spec_add(Vec2::spec_zero()) == circles[i].position);
        assert(spec_resolve_all_collisions(circles, world_width, world_height, config)[i]
            == spec_apply_impulses(circles, imps)[i]);
    }
}

/// One whole resolution pass: build the grid, enumerate candidates, test
/// them and the walls, turn contacts into impulses, and apply them.  A
/// cell size whose encoding is zero leaves no way to place bodies in
/// cells, so the bodies are returned unchanged.
#[verifier::opaque]
pub open spec fn spec_resolve_all_collisions(
    circles: Seq<Circle>,
    world_width: Scalar,
    world_height: Scalar,
    config: CollisionConfig,
) -> Seq<Circle> {
    let cs = spec_cell_size(circles);
    if cs.bits == 0 {
        circles
    } else {
        let grid = crate::spatial::spec_build(circles, cs);
        let pairs = crate::spatial::spec_collision_pairs(grid);
        let contacts = crate::spatial::spec_detect(circles, pairs);
        let walls = crate::spatial::spec_boundary_collisions(circles, world_width, world_height);
        let impulses = spec_resolve_collisions(circles, contacts, config)
            + spec_resolve_boundary_collisions(circles, walls, config);
        spec_apply_impulses(circles, impulses)
    }
}

/// The complete collision pipeline as a pure function of the bodies.
pub fn resolve_all_collisions(
    circles: &Vec<Circle>,
    world_width: Scalar,
    world_height: Scalar,
    config: &CollisionConfig,
) -> (out: Vec<Circle>)
    ensures
        out@ == spec_resolve_all_collisions(circles@, world_width, world_height, *config),
{
    proof {
        reveal(spec_resolve_all_collisions);
    }
    let mut max_radius = if circles.len() == 0 {
        Scalar::from_bits(0x10000)
    } else {
        circles[0].radius
    };
    let mut i: usize = 1;
    while i < circles.len()
        invariant
            1 <= i || circles@.len() == 0,
            i <= circles@.len() || (circles@.len() == 0 && i == 1),
            circles@.len() == 0 ==> max_radius == (Scalar { bits: 0x10000 }),
            circles@.len() > 0 ==> spec_max_radius_from(max_radius, circles@, i as int)
                == spec_max_radius(circles@),
        decreases circles@.len() - i,
    {
        if circles[i].radius.bits > max_radius.bits {
            max_radius = circles[i].radius;
        }
        i = i + 1;
    }
    let cell_size = max_radius.mul(Scalar::two());
    proof {
        assert(cell_size == spec_cell_size(circles@));
    }
    if cell_size.bits == 0 {
        let mut copy: Vec<Circle> = Vec::new();
        let mut k: usize = 0;
        while k < circles.len()
            invariant
                0 <= k <= circles@.len(),
                copy@ == circles@.take(k as int),
            decreases circles@.len() - k,
        {
            copy.push(circles[k]);
            proof {
                assert(circles@.take(k as int + 1) =~= circles@.take(k as int).push(
                    circles@[k as int],
                ));
            }
            k = k + 1;
        }
        proof {
            assert(circles@.take(circles@.len() as int) =~= circles@);
        }
        return copy;
    }
    let grid = crate::spatial::SpatialGrid::build(circles, cell_size, world_width, world_height);
    let pairs = grid.get_collision_pairs();
    proof {
        crate::spatial::lemma_build_below(circles@, cell_size);
        crate::spatial::lemma_collision_pairs_below(
            crate::spatial::spec_build(circles@, cell_size),
            circles@.len(),
        );
    }
    let circle_collisions = crate::spatial::detect_collisions(circles, &pairs);
    let boundary_collisions = crate::spatial::detect_boundary_collisions(
        circles,
        world_width,
        world_height,
    );
    proof {
        lemma_detect_below(circles@, pairs@, circles@.len());
        lemma_boundary_below(circles@, world_width, world_height);
    }
    let mut all_impulses = resolve_collisions(circles, &circle_collisions, config);
    let boundary_impulses = resolve_boundary_collisions(circles, &boundary_collisions, config);
    let ghost first_impulses = all_impulses@;
    let mut k: usize = 0;
    while k < boundary_impulses.len()
        invariant
            0 <= k <= boundary_impulses@.len(),
            all_impulses@ == first_impulses + boundary_impulses@.take(k as int),
        decreases boundary_impulses@.len() - k,
    {
        all_impulses.push(boundary_impulses[k]);
        proof {
            assert(first_impulses + boundary_impulses@.take(k as int + 1) =~= (first_impulses
                + boundary_impulses@.take(k as int)).push(boundary_impulses@[k as int]));
        }
        k = k + 1;
    }
    proof {
        assert(boundary_impulses@.take(boundary_impulses@.len() as int) =~= boundary_impulses@);
        lemma_resolve_below(circles@, circle_collisions@, *config, circles@.len());
        lemma_resolve_boundary_below(circles@, boundary_collisions@, *config, circles@.len());
    }
    apply_impulses(circles, &all_impulses)
}

} // verus!
