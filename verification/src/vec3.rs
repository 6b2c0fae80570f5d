//! Vectors of three fixed-point components, which also serve as colours.

use crate::scalar::{
    hypot, lemma_add_neg, lemma_div_by_hypot_within_one, lemma_mul_neg, Scalar, ONE_RAW,
};
use vstd::prelude::*;

verus! {

/// A vector, a point or a colour.
#[derive(Clone, Copy, Debug, PartialEq, Eq, Structural)]
pub struct Vec3 {
    pub x: Scalar,
    pub y: Scalar,
    pub z: Scalar,
}

impl Vec3 {
    /// A vector is well formed when its components are.
    pub open spec fn wf(self) -> bool {
        self.x.wf() && self.y.wf() && self.z.wf()
    }

    pub open spec fn spec_clamped(self) -> Vec3 {
        Vec3 {
            x: Scalar::from_raw(self.x.raw),
            y: Scalar::from_raw(self.y.raw),
            z: Scalar::from_raw(self.z.raw),
        }
    }

    pub open spec fn spec_new(x: Scalar, y: Scalar, z: Scalar) -> Vec3 {
        Vec3 { x, y, z }
    }

    pub open spec fn spec_splat(v: Scalar) -> Vec3 {
        Vec3 { x: v, y: v, z: v }
    }

    pub open spec fn spec_zero() -> Vec3 {
        Vec3::spec_splat(Scalar::zero())
    }

    pub open spec fn spec_ones() -> Vec3 {
        Vec3::spec_splat(Scalar::one())
    }

    pub open spec fn spec_add(self, rhs: Vec3) -> Vec3 {
        Vec3 { x: self.x.add(rhs.x), y: self.y.add(rhs.y), z: self.z.add(rhs.z) }
    }

    pub open spec fn spec_sub(self, rhs: Vec3) -> Vec3 {
        Vec3 { x: self.x.sub(rhs.x), y: self.y.sub(rhs.y), z: self.z.sub(rhs.z) }
    }

    pub open spec fn spec_neg(self) -> Vec3 {
        Vec3 { x: self.x.neg(), y: self.y.neg(), z: self.z.neg() }
    }

    pub open spec fn spec_mul(self, rhs: Vec3) -> Vec3 {
        Vec3 { x: self.x.mul(rhs.x), y: self.y.mul(rhs.y), z: self.z.mul(rhs.z) }
    }

    pub open spec fn spec_scale(self, factor: Scalar) -> Vec3 {
        Vec3 { x: factor.mul(self.x), y: factor.mul(self.y), z: factor.mul(self.z) }
    }

    pub open spec fn spec_div(self, divisor: Scalar) -> Vec3 {
        Vec3 { x: self.x.div(divisor), y: self.y.div(divisor), z: self.z.div(divisor) }
    }

    pub open spec fn spec_dot(self, rhs: Vec3) -> Scalar {
        self.x.mul(rhs.x).add(self.y.mul(rhs.y)).add(self.z.mul(rhs.z))
    }

    pub open spec fn spec_cross(self, rhs: Vec3) -> Vec3 {
        Vec3 {
            x: self.y.mul(rhs.z).sub(rhs.y.mul(self.z)),
            y: self.z.mul(rhs.x).sub(rhs.z.mul(self.x)),
            z: self.x.mul(rhs.y).sub(rhs.x.mul(self.y)),
        }
    }

    pub open spec fn spec_length_squared(self) -> Scalar {
        self.dot(self)
    }

    pub open spec fn spec_length(self) -> Scalar {
        hypot(self.x, self.y, self.z)
    }

    /// Whether each component lies between minus one and one.
    pub open spec fn within_one(self) -> bool {
        &&& -ONE_RAW <= self.x.raw <= ONE_RAW
        &&& -ONE_RAW <= self.y.raw <= ONE_RAW
        &&& -ONE_RAW <= self.z.raw <= ONE_RAW
    }

    pub open spec fn spec_normalize(self) -> Vec3 {
        self.spec_div(self.length())
    }

    pub open spec fn spec_abs_diff_eq(self, rhs: Vec3, max_abs_diff: Scalar) -> bool {
        &&& self.x.sub(rhs.x).abs().le(max_abs_diff)
        &&& self.y.sub(rhs.y).abs().le(max_abs_diff)
        &&& self.z.sub(rhs.z).abs().le(max_abs_diff)
    }

    /// The vector with each component brought into the range of the
    /// well-formed scalars; a well-formed vector itself.
    #[verifier::when_used_as_spec(spec_clamped)]
    pub fn clamped(self) -> (r: Vec3)
        ensures
            r == self.spec_clamped(),
            r.wf(),
            self.wf() ==> r == self,
    {
        Vec3 {
            x: Scalar::from_raw(self.x.raw),
            y: Scalar::from_raw(self.y.raw),
            z: Scalar::from_raw(self.z.raw),
        }
    }

    /// The vector with the given components.
    #[verifier::when_used_as_spec(spec_new)]
    pub fn new(x: Scalar, y: Scalar, z: Scalar) -> (r: Vec3)
        ensures
            r == Vec3::spec_new(x, y, z),
    {
        Vec3 { x, y, z }
    }

    /// The vector whose components all equal `v`.
    #[verifier::when_used_as_spec(spec_splat)]
    pub fn splat(v: Scalar) -> (r: Vec3)
        ensures
            r == Vec3::spec_splat(v),
    {
        Vec3 { x: v, y: v, z: v }
    }

    /// The zero vector, which is also the colour black.
    #[verifier::when_used_as_spec(spec_zero)]
    pub fn zero() -> (r: Vec3)
        ensures
            r == Vec3::spec_zero(),
            r.wf(),
    {
        Vec3::splat(Scalar::zero())
    }

    /// The vector of ones, which is also the colour white.
    #[verifier::when_used_as_spec(spec_ones)]
    pub fn ones() -> (r: Vec3)
        ensures
            r == Vec3::spec_ones(),
            r.wf(),
    {
        Vec3::splat(Scalar::one())
    }

    /// The sum, component by component.
    #[verifier::when_used_as_spec(spec_add)]
    pub fn add(self, rhs: Vec3) -> (r: Vec3)
        ensures
            r == self.spec_add(rhs),
            r.wf(),
    {
        Vec3 { x: self.x.add(rhs.x), y: self.y.add(rhs.y), z: self.z.add(rhs.z) }
    }

    /// The difference, component by component.
    #[verifier::when_used_as_spec(spec_sub)]
    pub fn sub(self, rhs: Vec3) -> (r: Vec3)
        ensures
            r == self.spec_sub(rhs),
            r.wf(),
    {
        Vec3 { x: self.x.sub(rhs.x), y: self.y.sub(rhs.y), z: self.z.sub(rhs.z) }
    }

    /// The opposite vector.
    #[verifier::when_used_as_spec(spec_neg)]
    pub fn neg(self) -> (r: Vec3)
        ensures
            r == self.spec_neg(),
            r.wf(),
    {
        Vec3 { x: self.x.neg(), y: self.y.neg(), z: self.z.neg() }
    }

    /// The product, component by component: how a colour attenuates another.
    #[verifier::when_used_as_spec(spec_mul)]
    pub fn mul(self, rhs: Vec3) -> (r: Vec3)
        ensures
            r == self.spec_mul(rhs),
            r.wf(),
    {
        Vec3 { x: self.x.mul(rhs.x), y: self.y.mul(rhs.y), z: self.z.mul(rhs.z) }
    }

    /// The vector with each component multiplied by `factor`.
    #[verifier::when_used_as_spec(spec_scale)]
    pub fn scale(self, factor: Scalar) -> (r: Vec3)
        ensures
            r == self.spec_scale(factor),
            r.wf(),
    {
        Vec3 { x: factor.mul(self.x), y: factor.mul(self.y), z: factor.mul(self.z) }
    }

    /// The vector with each component divided by `divisor`.
    #[verifier::when_used_as_spec(spec_div)]
    pub fn div(self, divisor: Scalar) -> (r: Vec3)
        ensures
            r == self.spec_div(divisor),
            r.wf(),
    {
        Vec3 { x: self.x.div(divisor), y: self.y.div(divisor), z: self.z.div(divisor) }
    }

    /// The dot product: the three products, summed from the left.
    #[verifier::when_used_as_spec(spec_dot)]
    pub fn dot(self, rhs: Vec3) -> (r: Scalar)
        ensures
            r == self.spec_dot(rhs),
            r.wf(),
    {
        self.x.mul(rhs.x).add(self.y.mul(rhs.y)).add(self.z.mul(rhs.z))
    }

    /// The cross product.
    #[verifier::when_used_as_spec(spec_cross)]
    pub fn cross(self, rhs: Vec3) -> (r: Vec3)
        ensures
            r == self.spec_cross(rhs),
            r.wf(),
    {
        Vec3 {
            x: self.y.mul(rhs.z).sub(rhs.y.mul(self.z)),
            y: self.z.mul(rhs.x).sub(rhs.z.mul(self.x)),
            z: self.x.mul(rhs.y).sub(rhs.x.mul(self.y)),
        }
    }

    /// The dot product of the vector with itself.
    #[verifier::when_used_as_spec(spec_length_squared)]
    pub fn length_squared(self) -> (r: Scalar)
        ensures
            r == self.spec_length_squared(),
            r.wf(),
    {
        self.dot(self)
    }

    /// The length, rounded down: the square root of the exact sum of the
    /// squares of the components.
    #[verifier::when_used_as_spec(spec_length)]
    pub fn length(self) -> (r: Scalar)
        ensures
            r == self.spec_length(),
            r.wf(),
            r.raw >= 0,
    {
        hypot(self.x, self.y, self.z)
    }

    /// The vector divided by its length, component by component; the zero
    /// vector for the zero vector. Each component of the result lies
    /// between minus one and one.
    #[verifier::when_used_as_spec(spec_normalize)]
    pub fn normalize(self) -> (r: Vec3)
        ensures
            r == self.spec_normalize(),
            r.wf(),
            r.within_one(),
    {
        proof {
            lemma_div_by_hypot_within_one(self.x, self.y, self.z);
        }
        self.div(self.length())
    }

    /// Whether each component is within `max_abs_diff` of that of `rhs`.
    #[verifier::when_used_as_spec(spec_abs_diff_eq)]
    pub fn abs_diff_eq(self, rhs: Vec3, max_abs_diff: Scalar) -> (r: bool)
        ensures
            r == self.spec_abs_diff_eq(rhs, max_abs_diff),
    {
        self.x.sub(rhs.x).abs().le(max_abs_diff) && self.y.sub(rhs.y).abs().le(max_abs_diff)
            && self.z.sub(rhs.z).abs().le(max_abs_diff)
    }
}

/// Each component of a normalized vector lies between minus one and one.
pub proof fn lemma_normalize_within_one(v: Vec3)
    ensures
        v.normalize().within_one(),
{
    lemma_div_by_hypot_within_one(v.x, v.y, v.z);
}

/// The dot product changes sign with either vector.
pub proof fn lemma_dot_neg(a: Vec3, b: Vec3)
    requires
        b.wf(),
    ensures
        a.dot(b.neg()) == a.dot(b).neg(),
{
    lemma_mul_neg(a.x, b.x);
    lemma_mul_neg(a.y, b.y);
    lemma_mul_neg(a.z, b.z);
    lemma_add_neg(a.x.mul(b.x), a.y.mul(b.y));
    lemma_add_neg(a.x.mul(b.x).add(a.y.mul(b.y)), a.z.mul(b.z));
}

} // verus!
