//! Three-component vectors, used for points, directions and colours alike.
use crate::scalar::Scalar;
use vstd::prelude::*;

verus! {

/// The bits of 1e-8, the bound under which a component counts as zero.
pub const NEAR_ZERO_BITS: u32 = 0x322b_cc77;

/// Components in the order (x, y, z), or (r, g, b) for a colour.
#[derive(Clone, Copy, Debug, PartialEq, Eq, Structural)]
pub struct Vec3 {
    pub x: Scalar,
    pub y: Scalar,
    pub z: Scalar,
}

pub type Point3 = Vec3;

pub type Color = Vec3;

impl Vec3 {
    /// The component on an axis: 0 for x, 1 for y, anything else for z.
    pub open spec fn component(self, axis: int) -> Scalar {
        if axis == 0 {
            self.x
        } else if axis == 1 {
            self.y
        } else {
            self.z
        }
    }

    /// Component by component the smaller of two vectors.
    pub open spec fn min_of(self, other: Vec3) -> Vec3 {
        Vec3 {
            x: self.x.min_of(other.x),
            y: self.y.min_of(other.y),
            z: self.z.min_of(other.z),
        }
    }

    /// Component by component the larger of two vectors.
    pub open spec fn max_of(self, other: Vec3) -> Vec3 {
        Vec3 {
            x: self.x.max_of(other.x),
            y: self.y.max_of(other.y),
            z: self.z.max_of(other.z),
        }
    }

    /// Whether no component is a NaN.
    pub open spec fn numeric(self) -> bool {
        !self.x.nan() && !self.y.nan() && !self.z.nan()
    }

    /// The vector whose components are all positive zero.
    pub open spec fn zero_vector() -> Vec3 {
        Vec3 { x: Scalar { bits: 0 }, y: Scalar { bits: 0 }, z: Scalar { bits: 0 } }
    }

    pub open spec fn negated(self) -> Vec3 {
        Vec3 { x: self.x.negated(), y: self.y.negated(), z: self.z.negated() }
    }

    /// Whether every component is a number of magnitude below 1e-8.
    pub open spec fn tiny(self) -> bool {
        &&& self.x.magnitude() < NEAR_ZERO_BITS
        &&& self.y.magnitude() < NEAR_ZERO_BITS
        &&& self.z.magnitude() < NEAR_ZERO_BITS
    }

    /// A component that is left out is positive zero.
    pub fn new(x: Option<Scalar>, y: Option<Scalar>, z: Option<Scalar>) -> (r: Vec3)
        ensures
            r.x == (if x is Some { x->0 } else { Scalar { bits: 0 } }),
            r.y == (if y is Some { y->0 } else { Scalar { bits: 0 } }),
            r.z == (if z is Some { z->0 } else { Scalar { bits: 0 } }),
    {
        Vec3 {
            x: match x {
                Some(v) => v,
                None => Scalar::zero(),
            },
            y: match y {
                Some(v) => v,
                None => Scalar::zero(),
            },
            z: match z {
                Some(v) => v,
                None => Scalar::zero(),
            },
        }
    }

    pub fn x(&self) -> (r: Scalar)
        ensures
            r == self.x,
    {
        self.x
    }

    pub fn y(&self) -> (r: Scalar)
        ensures
            r == self.y,
    {
        self.y
    }

    pub fn z(&self) -> (r: Scalar)
        ensures
            r == self.z,
    {
        self.z
    }

    /// The component on an axis: 0 for x, 1 for y, anything else for z.
    pub fn axis(&self, axis: i32) -> (r: Scalar)
        ensures
            r == self.component(axis as int),
    {
        if axis == 0 {
            self.x
        } else if axis == 1 {
            self.y
        } else {
            self.z
        }
    }

    /// True when the vector is so close to zero in every dimension that a
    /// direction made from it would be meaningless.
    pub fn near_zero(&self) -> (r: bool)
        ensures
            r == self.tiny(),
    {
        let s = Scalar::from_bits(NEAR_ZERO_BITS);
        self.x.abs().lt(s) && self.y.abs().lt(s) && self.z.abs().lt(s)
    }

    /// The vector that points the other way.
    pub fn neg(self) -> (r: Vec3)
        ensures
            r == self.negated(),
    {
        Vec3 { x: self.x.neg(), y: self.y.neg(), z: self.z.neg() }
    }

    /// Turns a random vector of the unit sphere into the hemisphere round
    /// a normal. `facing` is the dot product of the vector with the normal:
    /// the vector is kept where it is positive and turned round everywhere
    /// else.
    pub fn random_in_hemisphere(in_unit_sphere: Vec3, facing: Scalar) -> (r: Vec3)
        ensures
            r == (if (Scalar { bits: 0 }).less(facing) {
                in_unit_sphere
            } else {
                in_unit_sphere.negated()
            }),
    {
        if facing.gt(Scalar::zero()) {
            in_unit_sphere
        } else {
            in_unit_sphere.neg()
        }
    }

    pub fn min(self, other: Vec3) -> (r: Vec3)
        ensures
            r == self.min_of(other),
    {
        Vec3 { x: self.x.min(other.x), y: self.y.min(other.y), z: self.z.min(other.z) }
    }

    pub fn max(self, other: Vec3) -> (r: Vec3)
        ensures
            r == self.max_of(other),
    {
        Vec3 { x: self.x.max(other.x), y: self.y.max(other.y), z: self.z.max(other.z) }
    }
}

} // verus!
