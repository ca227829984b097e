//! Rays: a half-line with a time stamp for motion blur.
use crate::scalar::Scalar;
use crate::vec3::{Point3, Vec3};
use vstd::prelude::*;

verus! {

/// The half-line `origin + t * direction`, cast at `time`.
#[derive(Clone, Copy, Debug, PartialEq, Eq, Structural)]
pub struct Ray {
    pub orig: Point3,
    pub dir: Vec3,
    pub time: Scalar,
}

impl Ray {
    /// A part that is left out is zero.
    pub fn new(origin: Option<Point3>, direction: Option<Vec3>, tm: Option<Scalar>) -> (r: Ray)
        ensures
            r.orig == (if origin is Some { origin->0 } else { Vec3::zero_vector() }),
            r.dir == (if direction is Some { direction->0 } else { Vec3::zero_vector() }),
            r.time == (if tm is Some { tm->0 } else { Scalar { bits: 0 } }),
    {
        Ray {
            orig: match origin {
                Some(p) => p,
                None => Vec3::new(None, None, None),
            },
            dir: match direction {
                Some(d) => d,
                None => Vec3::new(None, None, None),
            },
            time: match tm {
                Some(t) => t,
                None => Scalar::zero(),
            },
        }
    }

    pub fn origin(&self) -> (r: Point3)
        ensures
            r == self.orig,
    {
        self.orig
    }

    pub fn direction(&self) -> (r: Vec3)
        ensures
            r == self.dir,
    {
        self.dir
    }

    pub fn time(&self) -> (r: Scalar)
        ensures
            r == self.time,
    {
        self.time
    }
}

} // verus!
