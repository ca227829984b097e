//! A sphere whose centre moves on a straight line while the shutter is open.
use crate::aabb::AABB;
use crate::hittable::{chosen_root, Sphere};
use crate::scalar::Scalar;
use crate::vec3::Point3;
use vstd::prelude::*;

verus! {

/// A sphere with its centre at `center0` at `time0` and at `center1` at
/// `time1`.
#[derive(Clone, Copy, Debug, PartialEq, Eq, Structural)]
pub struct MovingSphere {
    pub center0: Point3,
    pub center1: Point3,
    pub time0: Scalar,
    pub time1: Scalar,
    pub radius: Scalar,
    pub material: usize,
}

impl MovingSphere {
    pub fn new(
        center0: Point3,
        center1: Point3,
        time0: Scalar,
        time1: Scalar,
        radius: Scalar,
        material: usize,
    ) -> (r: MovingSphere)
        ensures
            r == (MovingSphere { center0, center1, time0, time1, radius, material }),
    {
        MovingSphere { center0, center1, time0, time1, radius, material }
    }

    /// Picks the ray parameter of the hit, as for a sphere at rest.
    pub fn root(
        discriminant: Scalar,
        near_root: Scalar,
        far_root: Scalar,
        t_min: Scalar,
        t_max: Scalar,
    ) -> (r: Option<Scalar>)
        ensures
            r == chosen_root(discriminant, near_root, far_root, t_min, t_max),
            r is Some ==> t_min.less_eq(r->0) && (r->0).less_eq(t_max),
    {
        Sphere::root(discriminant, near_root, far_root, t_min, t_max)
    }

    /// The box around the whole movement: the union of the box round the
    /// sphere at the first moment, `box0`, and at the last, `box1`.
    pub fn bounding_box(box0: AABB, box1: AABB) -> (r: Option<AABB>)
        ensures
            r == Some(box0.union_of(box1)),
    {
        Some(AABB::surrounding_box(box0, box1))
    }
}

} // verus!
