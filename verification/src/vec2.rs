//! Two-dimensional vectors of Q16.16 scalars.
//!
//! All operators act componentwise; `dot` fixes the evaluation order (both
//! products first, then their sum), so every result is a pure function of
//! the operand encodings.

use vstd::prelude::*;

verus! {

use crate::scalar::Scalar;

/// Ordered pair of Q16.16 scalars.
#[derive(Clone, Copy, Debug, PartialEq, Eq, Hash, Structural)]
pub struct Vec2 {
    pub x: Scalar,
    pub y: Scalar,
}

impl Default for Vec2 {
    /// The zero vector.
    fn default() -> (r: Vec2)
        ensures
            r == Vec2::spec_zero(),
    {
        Vec2 { x: Scalar { bits: 0 }, y: Scalar { bits: 0 } }
    }
}

impl Vec2 {
    /// The zero vector.
    pub open spec fn spec_zero() -> Vec2 {
        Vec2 { x: Scalar::spec_zero(), y: Scalar::spec_zero() }
    }

    #[verifier::when_used_as_spec(spec_zero)]
    pub fn zero() -> (r: Vec2)
        ensures
            r == Vec2::spec_zero(),
    {
        Vec2 { x: Scalar::zero(), y: Scalar::zero() }
    }

    /// The unit vector along x.
    pub fn unit_x() -> (r: Vec2)
        ensures
            r == (Vec2 { x: Scalar::spec_one(), y: Scalar::spec_zero() }),
    {
        Vec2 { x: Scalar::one(), y: Scalar::zero() }
    }

    /// The unit vector along y.
    pub fn unit_y() -> (r: Vec2)
        ensures
            r == (Vec2 { x: Scalar::spec_zero(), y: Scalar::spec_one() }),
    {
        Vec2 { x: Scalar::zero(), y: Scalar::one() }
    }

    /// Build a vector from its two components.
    pub fn from_scalars(x: Scalar, y: Scalar) -> (r: Vec2)
        ensures
            r == (Vec2 { x, y }),
    {
        Vec2 { x, y }
    }

    /// Componentwise sum.
    pub open spec fn spec_add(self, rhs: Vec2) -> Vec2 {
        Vec2 { x: self.x.spec_add(rhs.x), y: self.y.spec_add(rhs.y) }
    }

    #[verifier::when_used_as_spec(spec_add)]
    pub fn add(self, rhs: Vec2) -> (r: Vec2)
        ensures
            r == self.spec_add(rhs),
    {
        Vec2 { x: self.x.add(rhs.x), y: self.y.add(rhs.y) }
    }

    /// Componentwise difference.
    pub open spec fn spec_sub(self, rhs: Vec2) -> Vec2 {
        Vec2 { x: self.x.spec_sub(rhs.x), y: self.y.spec_sub(rhs.y) }
    }

    #[verifier::when_used_as_spec(spec_sub)]
    pub fn sub(self, rhs: Vec2) -> (r: Vec2)
        ensures
            r == self.spec_sub(rhs),
    {
        Vec2 { x: self.x.sub(rhs.x), y: self.y.sub(rhs.y) }
    }

    /// Componentwise negation.
    pub open spec fn spec_neg(self) -> Vec2 {
        Vec2 { x: self.x.spec_neg(), y: self.y.spec_neg() }
    }

    #[verifier::when_used_as_spec(spec_neg)]
    pub fn neg(self) -> (r: Vec2)
        ensures
            r == self.spec_neg(),
    {
        Vec2 { x: self.x.neg(), y: self.y.neg() }
    }

    /// Both components multiplied by a scalar.
    pub open spec fn spec_mul(self, rhs: Scalar) -> Vec2 {
        Vec2 { x: self.x.spec_mul(rhs), y: self.y.spec_mul(rhs) }
    }

    #[verifier::when_used_as_spec(spec_mul)]
    pub fn mul(self, rhs: Scalar) -> (r: Vec2)
        ensures
            r == self.spec_mul(rhs),
    {
        Vec2 { x: self.x.mul(rhs), y: self.y.mul(rhs) }
    }

    /// Both components divided by a scalar.
    pub open spec fn spec_div(self, rhs: Scalar) -> Vec2 {
        Vec2 { x: self.x.spec_div(rhs), y: self.y.spec_div(rhs) }
    }

    #[verifier::when_used_as_spec(spec_div)]
    pub fn div(self, rhs: Scalar) -> (r: Vec2)
        requires
            rhs.bits != 0,
        ensures
            r == self.spec_div(rhs),
    {
        Vec2 { x: self.x.div(rhs), y: self.y.div(rhs) }
    }

    /// Dot product: `x·x' + y·y'`, products first, then the sum.
    pub open spec fn spec_dot(self, other: Vec2) -> Scalar {
        self.x.spec_mul(other.x).spec_add(self.y.spec_mul(other.y))
    }

    pub fn dot(&self, other: &Vec2) -> (r: Scalar)
        ensures
            r == self.spec_dot(*other),
    {
        self.x.mul(other.x).add(self.y.mul(other.y))
    }

    /// Squared magnitude: the dot product of the vector with itself.
    pub open spec fn spec_magnitude_squared(self) -> Scalar {
        self.spec_dot(self)
    }

    pub fn magnitude_squared(&self) -> (r: Scalar)
        ensures
            r == self.spec_magnitude_squared(),
    {
        self.x.mul(self.x).add(self.y.mul(self.y))
    }

    /// Magnitude: square root of the squared magnitude.
    pub open spec fn spec_magnitude(self) -> Scalar {
        self.spec_magnitude_squared().spec_sqrt()
    }

    pub fn magnitude(&self) -> (r: Scalar)
        ensures
            r == self.spec_magnitude(),
    {
        self.magnitude_squared().sqrt()
    }

    /// The vector scaled to unit length when its magnitude is strictly
    /// positive, the vector unchanged otherwise.
    pub open spec fn spec_normalized(self) -> Vec2 {
        let mag = self.spec_magnitude();
        if mag.bits > 0 {
            self.spec_div(mag)
        } else {
            self
        }
    }

    pub fn normalized(&self) -> (r: Vec2)
        ensures
            r == self.spec_normalized(),
    {
        let mag = self.magnitude();
        if mag.bits > 0 {
            self.div(mag)
        } else {
            *self
        }
    }

    /// Perpendicular vector, rotated a quarter turn counter-clockwise.
    pub open spec fn spec_perp(self) -> Vec2 {
        Vec2 { x: self.y.spec_neg(), y: self.x }
    }

    pub fn perp(&self) -> (r: Vec2)
        ensures
            r == self.spec_perp(),
    {
        Vec2 { x: self.y.neg(), y: self.x }
    }

    /// Linear interpolation `a + (b - a) · t`.
    pub open spec fn spec_lerp(self, other: Vec2, t: Scalar) -> Vec2 {
        self.spec_add(other.spec_sub(self).spec_mul(t))
    }

    pub fn lerp(&self, other: &Vec2, t: Scalar) -> (r: Vec2)
        ensures
            r == self.spec_lerp(*other, t),
    {
        self.add(other.sub(*self).mul(t))
    }
}

} // verus!
