//! A circular rigid body.
//!
//! The Verlet state is the pair of current and previous centers; velocity
//! is never the source of truth, only the projection
//! `(position - old_position) / dt`, cached for the collision resolver.

use vstd::prelude::*;

verus! {

use crate::scalar::Scalar;
use crate::vec2::Vec2;

/// A physics circle: Verlet positions, cached velocity, and material
/// properties.  `friction` is carried in the record but not consumed by
/// the present resolver.
#[derive(Clone, Copy, Debug, PartialEq, Eq, Structural)]
pub struct Circle {
    pub position: Vec2,
    pub old_position: Vec2,
    pub velocity: Vec2,
    pub radius: Scalar,
    pub mass: Scalar,
    pub restitution: Scalar,
    pub friction: Scalar,
}

impl Circle {
    /// A body at rest: both Verlet positions at `position`, zero velocity,
    /// restitution one half and friction one tenth (Q16.16 encodings
    /// 0x8000 and 0x199A).
    pub open spec fn spec_new(position: Vec2, radius: Scalar, mass: Scalar) -> Circle {
        Circle {
            position,
            old_position: position,
            velocity: Vec2::spec_zero(),
            radius,
            mass,
            restitution: Scalar { bits: 0x8000 },
            friction: Scalar { bits: 0x199A },
        }
    }

    /// Create a new circle at rest.
    pub fn new(position: Vec2, radius: Scalar, mass: Scalar) -> (r: Circle)
        ensures
            r == Circle::spec_new(position, radius, mass),
    {
        Circle {
            position,
            old_position: position,
            velocity: Vec2::zero(),
            radius,
            mass,
            restitution: Scalar::from_bits(0x8000),
            friction: Scalar::from_bits(0x199A),
        }
    }

    /// The velocity projected from the Verlet state.
    pub open spec fn spec_velocity(self, dt: Scalar) -> Vec2 {
        self.position.spec_sub(self.old_position).spec_div(dt)
    }

    /// Refresh the cached velocity from the position history.
    pub fn update_velocity(&mut self, dt: Scalar)
        requires
            dt.bits != 0,
        ensures
            *final(self) == (Circle { velocity: old(self).spec_velocity(dt), ..*old(self) }),
    {
        self.velocity = self.position.sub(self.old_position).div(dt);
    }

    /// Seed a velocity by moving the previous center to
    /// `position - velocity · dt`; this is the only way to give a body an
    /// initial velocity.
    pub fn set_velocity(&mut self, velocity: Vec2, dt: Scalar)
        ensures
            *final(self) == (Circle {
                old_position: old(self).position.spec_sub(velocity.spec_mul(dt)),
                ..*old(self)
            }),
    {
        self.old_position = self.position.sub(velocity.mul(dt));
    }
}

} // verus!
