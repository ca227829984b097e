//! Rectangles that lie in a plane of two coordinate axes.
use crate::aabb::AABB;
use crate::hittable::HitRecord;
use crate::scalar::{Scalar, ONE_BITS};
use crate::vec3::{Point3, Vec3};
use vstd::prelude::*;

verus! {

/// Where a ray meets the plane of a rectangle: the ray parameter `t`, the
/// meeting point, the place `(u, v)` of the point within the rectangle, and
/// `facing`, the dot product of the ray's direction with the plane's normal.
#[derive(Clone, Copy, Debug, PartialEq, Eq, Structural)]
pub struct PlaneCrossing {
    pub t: Scalar,
    pub point: Point3,
    pub u: Scalar,
    pub v: Scalar,
    pub facing: Scalar,
}

/// The record of a hit in a plane with the normal `normal`.
pub open spec fn struck(crossing: PlaneCrossing, normal: Vec3, material: Option<usize>) -> HitRecord {
    HitRecord {
        point: crossing.point,
        normal: if crossing.facing.less(Scalar { bits: 0 }) {
            normal
        } else {
            normal.negated()
        },
        t: crossing.t,
        u: crossing.u,
        v: crossing.v,
        front_face: crossing.facing.less(Scalar { bits: 0 }),
        material,
    }
}

/// A rectangle in the plane `z = k`, from `x0` to `x1` and from `y0`
/// to `y1`.
#[derive(Clone, Copy, Debug, PartialEq, Eq, Structural)]
pub struct XYRect {
    pub material: Option<usize>,
    pub x0: Scalar,
    pub x1: Scalar,
    pub y0: Scalar,
    pub y1: Scalar,
    pub k: Scalar,
}

impl XYRect {
    /// Whether a ray that meets the plane at the parameter `t`, in the
    /// point with the coordinates `x` and `y`, hits the rectangle.
    pub open spec fn covers(
        self,
        t: Scalar,
        x: Scalar,
        y: Scalar,
        t_min: Scalar,
        t_max: Scalar,
    ) -> bool {
        &&& t_min.less_eq(t) && t.less_eq(t_max)
        &&& self.x0.less_eq(x) && x.less_eq(self.x1)
        &&& self.y0.less_eq(y) && y.less_eq(self.y1)
    }

    /// The normal of the plane.
    pub open spec fn normal() -> Vec3 {
        Vec3 {
            x: Scalar { bits: 0 },
            y: Scalar { bits: 0 },
            z: Scalar { bits: ONE_BITS },
        }
    }

    pub fn new(
        x0: Scalar,
        x1: Scalar,
        y0: Scalar,
        y1: Scalar,
        k: Scalar,
        material: Option<usize>,
    ) -> (r: XYRect)
        ensures
            r == (XYRect { material, x0, x1, y0, y1, k }),
    {
        XYRect { material, x0, x1, y0, y1, k }
    }

    /// The record of the hit of a ray that meets the plane at `crossing`,
    /// or nothing where the meeting lies outside the window from `t_min` to
    /// `t_max` or where the meeting point lies outside the rectangle.
    pub fn hit(&self, crossing: &PlaneCrossing, t_min: Scalar, t_max: Scalar) -> (r: Option<
        HitRecord,
    >)
        ensures
            r is Some <==> self.covers(
                crossing.t,
                crossing.point.x,
                crossing.point.y,
                t_min,
                t_max,
            ),
            r is Some ==> r->0 == struck(*crossing, Self::normal(), self.material),
            r is Some ==> (r->0).within(t_min, t_max),
    {
        let t = crossing.t;
        if !(t_min.le(t) && t.le(t_max)) {
            return None;
        }
        let x = crossing.point.x;
        let y = crossing.point.y;
        if !(self.x0.le(x) && x.le(self.x1) && self.y0.le(y) && y.le(self.y1)) {
            return None;
        }
        let outward_normal = Vec3::new(None, None, Some(Scalar::one()));
        Some(
            HitRecord::new(
                t,
                crossing.point,
                &outward_normal,
                crossing.facing,
                crossing.u,
                crossing.v,
                self.material,
            ),
        )
    }

    /// The box round the rectangle. A flat box would be no use to the
    /// hierarchy, so it reaches from `below` to `above` across the plane:
    /// `k` less and `k` plus a small thickness.
    pub fn bounding_box(&self, below: Scalar, above: Scalar) -> (r: Option<AABB>)
        ensures
            r == Some(
                AABB::spanning(
                    Vec3 { x: self.x0, y: self.y0, z: below },
                    Vec3 { x: self.x1, y: self.y1, z: above },
                ),
            ),
    {
        Some(
            AABB::new(
                Vec3::new(Some(self.x0), Some(self.y0), Some(below)),
                Vec3::new(Some(self.x1), Some(self.y1), Some(above)),
            ),
        )
    }
}

/// A rectangle in the plane `y = k`, from `x0` to `x1` and from `z0`
/// to `z1`.
#[derive(Clone, Copy, Debug, PartialEq, Eq, Structural)]
pub struct XZRect {
    pub material: Option<usize>,
    pub x0: Scalar,
    pub x1: Scalar,
    pub z0: Scalar,
    pub z1: Scalar,
    pub k: Scalar,
}

impl XZRect {
    /// Whether a ray that meets the plane at the parameter `t`, in the
    /// point with the coordinates `x` and `z`, hits the rectangle.
    pub open spec fn covers(
        self,
        t: Scalar,
        x: Scalar,
        z: Scalar,
        t_min: Scalar,
        t_max: Scalar,
    ) -> bool {
        &&& t_min.less_eq(t) && t.less_eq(t_max)
        &&& self.x0.less_eq(x) && x.less_eq(self.x1)
        &&& self.z0.less_eq(z) && z.less_eq(self.z1)
    }

    /// The normal of the plane.
    pub open spec fn normal() -> Vec3 {
        Vec3 {
            x: Scalar { bits: 0 },
            y: Scalar { bits: ONE_BITS },
            z: Scalar { bits: 0 },
        }
    }

    pub fn new(
        x0: Scalar,
        x1: Scalar,
        z0: Scalar,
        z1: Scalar,
        k: Scalar,
        material: Option<usize>,
    ) -> (r: XZRect)
        ensures
            r == (XZRect { material, x0, x1, z0, z1, k }),
    {
        XZRect { material, x0, x1, z0, z1, k }
    }

    /// The record of the hit of a ray that meets the plane at `crossing`,
    /// or nothing where the meeting lies outside the window from `t_min` to
    /// `t_max` or where the meeting point lies outside the rectangle.
    pub fn hit(&self, crossing: &PlaneCrossing, t_min: Scalar, t_max: Scalar) -> (r: Option<
        HitRecord,
    >)
        ensures
            r is Some <==> self.covers(
                crossing.t,
                crossing.point.x,
                crossing.point.z,
                t_min,
                t_max,
            ),
            r is Some ==> r->0 == struck(*crossing, Self::normal(), self.material),
            r is Some ==> (r->0).within(t_min, t_max),
    {
        let t = crossing.t;
        if !(t_min.le(t) && t.le(t_max)) {
            return None;
        }
        let x = crossing.point.x;
        let z = crossing.point.z;
        if !(self.x0.le(x) && x.le(self.x1) && self.z0.le(z) && z.le(self.z1)) {
            return None;
        }
        let outward_normal = Vec3::new(None, Some(Scalar::one()), None);
        Some(
            HitRecord::new(
                t,
                crossing.point,
                &outward_normal,
                crossing.facing,
                crossing.u,
                crossing.v,
                self.material,
            ),
        )
    }

    /// The box round the rectangle. A flat box would be no use to the
    /// hierarchy, so it reaches from `below` to `above` across the plane:
    /// `k` less and `k` plus a small thickness.
    pub fn bounding_box(&self, below: Scalar, above: Scalar) -> (r: Option<AABB>)
        ensures
            r == Some(
                AABB::spanning(
                    Vec3 { x: self.x0, y: below, z: self.z0 },
                    Vec3 { x: self.x1, y: above, z: self.z1 },
                ),
            ),
    {
        Some(
            AABB::new(
                Vec3::new(Some(self.x0), Some(below), Some(self.z0)),
                Vec3::new(Some(self.x1), Some(above), Some(self.z1)),
            ),
        )
    }
}

/// A rectangle in the plane `x = k`, from `y0` to `y1` and from `z0`
/// to `z1`.
#[derive(Clone, Copy, Debug, PartialEq, Eq, Structural)]
pub struct YZRect {
    pub material: Option<usize>,
    pub y0: Scalar,
    pub y1: Scalar,
    pub z0: Scalar,
    pub z1: Scalar,
    pub k: Scalar,
}

impl YZRect {
    /// Whether a ray that meets the plane at the parameter `t`, in the
    /// point with the coordinates `y` and `z`, hits the rectangle.
    pub open spec fn covers(
        self,
        t: Scalar,
        y: Scalar,
        z: Scalar,
        t_min: Scalar,
        t_max: Scalar,
    ) -> bool {
        &&& t_min.less_eq(t) && t.less_eq(t_max)
        &&& self.y0.less_eq(y) && y.less_eq(self.y1)
        &&& self.z0.less_eq(z) && z.less_eq(self.z1)
    }

    /// The normal of the plane.
    pub open spec fn normal() -> Vec3 {
        Vec3 {
            x: Scalar { bits: ONE_BITS },
            y: Scalar { bits: 0 },
            z: Scalar { bits: 0 },
        }
    }

    pub fn new(
        y0: Scalar,
        y1: Scalar,
        z0: Scalar,
        z1: Scalar,
        k: Scalar,
        material: Option<usize>,
    ) -> (r: YZRect)
        ensures
            r == (YZRect { material, y0, y1, z0, z1, k }),
    {
        YZRect { material, y0, y1, z0, z1, k }
    }

    /// The record of the hit of a ray that meets the plane at `crossing`,
    /// or nothing where the meeting lies outside the window from `t_min` to
    /// `t_max` or where the meeting point lies outside the rectangle.
    pub fn hit(&self, crossing: &PlaneCrossing, t_min: Scalar, t_max: Scalar) -> (r: Option<
        HitRecord,
    >)
        ensures
            r is Some <==> self.covers(
                crossing.t,
                crossing.point.y,
                crossing.point.z,
                t_min,
                t_max,
            ),
            r is Some ==> r->0 == struck(*crossing, Self::normal(), self.material),
            r is Some ==> (r->0).within(t_min, t_max),
    {
        let t = crossing.t;
        if !(t_min.le(t) && t.le(t_max)) {
            return None;
        }
        let y = crossing.point.y;
        let z = crossing.point.z;
        if !(self.y0.le(y) && y.le(self.y1) && self.z0.le(z) && z.le(self.z1)) {
            return None;
        }
        let outward_normal = Vec3::new(Some(Scalar::one()), None, None);
        Some(
            HitRecord::new(
                t,
                crossing.point,
                &outward_normal,
                crossing.facing,
                crossing.u,
                crossing.v,
                self.material,
            ),
        )
    }

    /// The box round the rectangle. A flat box would be no use to the
    /// hierarchy, so it reaches from `below` to `above` across the plane:
    /// `k` less and `k` plus a small thickness.
    pub fn bounding_box(&self, below: Scalar, above: Scalar) -> (r: Option<AABB>)
        ensures
            r == Some(
                AABB::spanning(
                    Vec3 { x: below, y: self.y0, z: self.z0 },
                    Vec3 { x: above, y: self.y1, z: self.z1 },
                ),
            ),
    {
        Some(
            AABB::new(
                Vec3::new(Some(below), Some(self.y0), Some(self.z0)),
                Vec3::new(Some(above), Some(self.y1), Some(self.z1)),
            ),
        )
    }
}

} // verus!
