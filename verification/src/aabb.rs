//! Axis-aligned bounding boxes.
use crate::bvh::BvhError;
use crate::hittable::Hittable;
use crate::scalar::{lemma_min_max_bounds, lemma_min_max_commute, Scalar};
use crate::vec3::Point3;
use std::cmp::Ordering;
use vstd::prelude::*;

verus! {

/// A box given by its smallest and its largest corner.
#[derive(Clone, Copy, Debug, PartialEq, Eq, Structural)]
pub struct AABB {
    pub maximum: Point3,
    pub minimum: Point3,
}

impl AABB {
    /// The box spanned by two corners, whichever way round they are given.
    pub open spec fn spanning(a: Point3, b: Point3) -> AABB {
        AABB { minimum: a.min_of(b), maximum: a.max_of(b) }
    }

    /// On every axis the minimum is a number not above the maximum.
    pub open spec fn ordered(self) -> bool {
        &&& self.minimum.x.less_eq(self.maximum.x)
        &&& self.minimum.y.less_eq(self.maximum.y)
        &&& self.minimum.z.less_eq(self.maximum.z)
    }

    /// The smallest box around two boxes.
    pub open spec fn union_of(self, other: AABB) -> AABB {
        AABB {
            minimum: self.minimum.min_of(other.minimum),
            maximum: self.maximum.max_of(other.maximum),
        }
    }

    /// Whether `inner` lies inside this box on every axis.
    pub open spec fn encloses(self, inner: AABB) -> bool {
        &&& self.minimum.x.less_eq(inner.minimum.x) && inner.maximum.x.less_eq(self.maximum.x)
        &&& self.minimum.y.less_eq(inner.minimum.y) && inner.maximum.y.less_eq(self.maximum.y)
        &&& self.minimum.z.less_eq(inner.minimum.z) && inner.maximum.z.less_eq(self.maximum.z)
    }

    /// Builds the box between two corners. The corners may come in either
    /// order: each axis takes its smaller value as minimum.
    pub fn new(a: Point3, b: Point3) -> (r: AABB)
        ensures
            r == AABB::spanning(a, b),
    {
        AABB { minimum: a.min(b), maximum: a.max(b) }
    }

    pub fn max(&self) -> (r: &Point3)
        ensures
            *r == self.maximum,
    {
        &self.maximum
    }

    pub fn min(&self) -> (r: &Point3)
        ensures
            *r == self.minimum,
    {
        &self.minimum
    }

    /// The union of two boxes.
    pub fn surrounding_box(box0: AABB, box1: AABB) -> (r: AABB)
        ensures
            r == box0.union_of(box1),
    {
        let small = box0.minimum.min(box1.minimum);
        let big = box0.maximum.max(box1.maximum);
        AABB { minimum: small, maximum: big }
    }
}

/// The key by which a box is ordered on an axis: the order key of its
/// minimum there. Axis 0 is x, axis 1 is y, every other axis is z.
pub open spec fn min_key(b: AABB, axis: i32) -> int {
    b.minimum.component(axis as int).order_key()
}

/// Whether box `a` comes before box `b` on an axis.
pub fn box_less(a: &AABB, b: &AABB, axis: i32) -> (r: bool)
    ensures
        r == (min_key(*a, axis) < min_key(*b, axis)),
{
    a.minimum.axis(axis).sort_key() < b.minimum.axis(axis).sort_key()
}

/// How two surfaces compare on an axis: by the minimum of their boxes at
/// time zero, a NaN after every number. Without a box there is no answer.
pub open spec fn compared(a: Option<AABB>, b: Option<AABB>, axis: i32) -> Result<
    Ordering,
    BvhError,
> {
    if a is Some && b is Some {
        if min_key(a->0, axis) < min_key(b->0, axis) {
            Ok(Ordering::Less)
        } else if min_key(a->0, axis) == min_key(b->0, axis) {
            Ok(Ordering::Equal)
        } else {
            Ok(Ordering::Greater)
        }
    } else {
        Err(BvhError::NoBoundingBox)
    }
}

impl AABB {
    /// Compares two surfaces by the minimum of their bounding boxes on an
    /// axis. A surface without a bounding box cannot be placed in a
    /// hierarchy: the comparison fails.
    pub fn box_compare<H: Hittable>(a: &H, b: &H, axis: i32) -> (r: Result<Ordering, BvhError>)
        ensures
            r == compared(
                a.box_spec(Scalar { bits: 0 }, Scalar { bits: 0 }),
                b.box_spec(Scalar { bits: 0 }, Scalar { bits: 0 }),
                axis,
            ),
    {
        let box_a = a.bounding_box(Scalar::zero(), Scalar::zero());
        let box_b = b.bounding_box(Scalar::zero(), Scalar::zero());
        match (box_a, box_b) {
            (Some(box_a), Some(box_b)) => {
                if box_less(&box_a, &box_b, axis) {
                    Ok(Ordering::Less)
                } else if box_less(&box_b, &box_a, axis) {
                    Ok(Ordering::Greater)
                } else {
                    Ok(Ordering::Equal)
                }
            },
            _ => Err(BvhError::NoBoundingBox),
        }
    }

    pub fn box_x_compare<H: Hittable>(a: &H, b: &H) -> (r: Result<Ordering, BvhError>)
        ensures
            r == compared(
                a.box_spec(Scalar { bits: 0 }, Scalar { bits: 0 }),
                b.box_spec(Scalar { bits: 0 }, Scalar { bits: 0 }),
                0,
            ),
    {
        Self::box_compare(a, b, 0)
    }

    pub fn box_y_compare<H: Hittable>(a: &H, b: &H) -> (r: Result<Ordering, BvhError>)
        ensures
            r == compared(
                a.box_spec(Scalar { bits: 0 }, Scalar { bits: 0 }),
                b.box_spec(Scalar { bits: 0 }, Scalar { bits: 0 }),
                1,
            ),
    {
        Self::box_compare(a, b, 1)
    }

    pub fn box_z_compare<H: Hittable>(a: &H, b: &H) -> (r: Result<Ordering, BvhError>)
        ensures
            r == compared(
                a.box_spec(Scalar { bits: 0 }, Scalar { bits: 0 }),
                b.box_spec(Scalar { bits: 0 }, Scalar { bits: 0 }),
                2,
            ),
    {
        Self::box_compare(a, b, 2)
    }
}

/// Where a ray crosses the two planes that bound a box on one axis: the ray
/// parameters `t0` at the minimum plane and `t1` at the maximum plane, and
/// `inv_d`, the reciprocal of the ray direction on that axis.
#[derive(Clone, Copy, Debug, PartialEq, Eq, Structural)]
pub struct Slab {
    pub inv_d: Scalar,
    pub t0: Scalar,
    pub t1: Scalar,
}

impl Slab {
    /// The parameter at which the ray enters the slab: the two crossings
    /// change places where the ray runs against the axis.
    pub open spec fn entry(self) -> Scalar {
        if self.inv_d.less(Scalar { bits: 0 }) {
            self.t1
        } else {
            self.t0
        }
    }

    /// The parameter at which the ray leaves the slab.
    pub open spec fn exit(self) -> Scalar {
        if self.inv_d.less(Scalar { bits: 0 }) {
            self.t0
        } else {
            self.t1
        }
    }

    /// The lower end of the window after this slab: raised to the entry
    /// where the entry lies above it.
    pub open spec fn raised(self, t_min: Scalar) -> Scalar {
        if t_min.less(self.entry()) {
            self.entry()
        } else {
            t_min
        }
    }

    /// The upper end of the window after this slab: lowered to the exit
    /// where the exit lies below it.
    pub open spec fn lowered(self, t_max: Scalar) -> Scalar {
        if self.exit().less(t_max) {
            self.exit()
        } else {
            t_max
        }
    }

    /// Whether the window is empty once this slab has cut it.
    pub open spec fn closes(self, t_min: Scalar, t_max: Scalar) -> bool {
        self.lowered(t_max).less_eq(self.raised(t_min))
    }

    /// No part of the crossing is a NaN.
    pub open spec fn numeric(self) -> bool {
        !self.inv_d.nan() && !self.t0.nan() && !self.t1.nan()
    }

    pub fn new(inv_d: Scalar, t0: Scalar, t1: Scalar) -> (r: Slab)
        ensures
            r == (Slab { inv_d, t0, t1 }),
    {
        Slab { inv_d, t0, t1 }
    }
}

/// The slab test: the window from `t_min` to `t_max` is cut by the three
/// slabs in turn, x first, and the ray hits the box when no cut leaves the
/// window empty.
pub open spec fn slabs_hit(x: Slab, y: Slab, z: Slab, t_min: Scalar, t_max: Scalar) -> bool {
    let min1 = x.raised(t_min);
    let max1 = x.lowered(t_max);
    let min2 = y.raised(min1);
    let max2 = y.lowered(max1);
    &&& !x.closes(t_min, t_max)
    &&& !y.closes(min1, max1)
    &&& !z.closes(min2, max2)
}

/// Cuts the window by one slab; `None` when nothing is left of it.
fn cut(slab: &Slab, t_min: Scalar, t_max: Scalar) -> (r: Option<(Scalar, Scalar)>)
    ensures
        r is None <==> slab.closes(t_min, t_max),
        r is Some ==> r->0 == (slab.raised(t_min), slab.lowered(t_max)),
{
    let swap = slab.inv_d.lt(Scalar::zero());
    let t0 = if swap { slab.t1 } else { slab.t0 };
    let t1 = if swap { slab.t0 } else { slab.t1 };
    let lo = if t0.gt(t_min) { t0 } else { t_min };
    let hi = if t1.lt(t_max) { t1 } else { t_max };
    if hi.le(lo) {
        None
    } else {
        Some((lo, hi))
    }
}

impl AABB {
    /// Decides whether a ray meets a box inside the window from `t_min` to
    /// `t_max`, from the ray's crossings of the box's three slabs.
    pub fn hit(x: &Slab, y: &Slab, z: &Slab, t_min: Scalar, t_max: Scalar) -> (r: bool)
        ensures
            r == slabs_hit(*x, *y, *z, t_min, t_max),
    {
        match cut(x, t_min, t_max) {
            None => false,
            Some((min1, max1)) => match cut(y, min1, max1) {
                None => false,
                Some((min2, max2)) => cut(z, min2, max2).is_some(),
            },
        }
    }
}

/// A ray that is strictly inside all three slabs at one parameter `t` of the
/// window hits the box.
pub proof fn lemma_ray_through_interior_hits(
    x: Slab,
    y: Slab,
    z: Slab,
    t_min: Scalar,
    t_max: Scalar,
    t: Scalar,
)
    requires
        x.numeric(),
        y.numeric(),
        z.numeric(),
        t_min.less(t) && t.less(t_max),
        x.entry().less(t) && t.less(x.exit()),
        y.entry().less(t) && t.less(y.exit()),
        z.entry().less(t) && t.less(z.exit()),
    ensures
        slabs_hit(x, y, z, t_min, t_max),
{
}

/// A ray that hits the box has a window left that is not empty: after all
/// three cuts its lower end is below its upper end, every slab is entered
/// before that lower end is passed and left after that upper end.
pub proof fn lemma_hit_leaves_interval(x: Slab, y: Slab, z: Slab, t_min: Scalar, t_max: Scalar)
    requires
        x.numeric(),
        y.numeric(),
        z.numeric(),
        !t_min.nan(),
        !t_max.nan(),
        slabs_hit(x, y, z, t_min, t_max),
    ensures
        ({
            let lo = z.raised(y.raised(x.raised(t_min)));
            let hi = z.lowered(y.lowered(x.lowered(t_max)));
            &&& lo.less(hi)
            &&& t_min.less_eq(lo) && hi.less_eq(t_max)
            &&& x.entry().less_eq(lo) && hi.less_eq(x.exit())
            &&& y.entry().less_eq(lo) && hi.less_eq(y.exit())
            &&& z.entry().less_eq(lo) && hi.less_eq(z.exit())
        }),
{
}

/// A ray that is outside one slab for the whole window misses the box: the
/// slab is left before the window opens, entered after it closes, or never
/// entered at all.
pub proof fn lemma_ray_outside_a_slab_misses(
    x: Slab,
    y: Slab,
    z: Slab,
    t_min: Scalar,
    t_max: Scalar,
    axis: int,
)
    requires
        !t_min.nan(),
        !t_max.nan(),
        0 <= axis < 3,
        ({
            let s = if axis == 0 { x } else if axis == 1 { y } else { z };
            s.exit().less_eq(t_min) || t_max.less_eq(s.entry()) || s.exit().less_eq(s.entry())
        }),
    ensures
        !slabs_hit(x, y, z, t_min, t_max),
{
}

/// The box spanned by two corners does not depend on which corner is given
/// first.
pub proof fn lemma_spanning_commutes(a: Point3, b: Point3)
    ensures
        AABB::spanning(a, b) == AABB::spanning(b, a),
{
    lemma_min_max_commute(a.x, b.x);
    lemma_min_max_commute(a.y, b.y);
    lemma_min_max_commute(a.z, b.z);
}

/// The box spanned by two corners without a NaN has its minimum below its
/// maximum on every axis.
pub proof fn lemma_spanning_ordered(a: Point3, b: Point3)
    requires
        a.numeric(),
        b.numeric(),
    ensures
        AABB::spanning(a, b).ordered(),
{
    lemma_min_max_bounds(a.x, b.x);
    lemma_min_max_bounds(a.y, b.y);
    lemma_min_max_bounds(a.z, b.z);
}

/// The union of two boxes does not depend on their order.
pub proof fn lemma_union_commutes(a: AABB, b: AABB)
    ensures
        a.union_of(b) == b.union_of(a),
{
    lemma_min_max_commute(a.minimum.x, b.minimum.x);
    lemma_min_max_commute(a.minimum.y, b.minimum.y);
    lemma_min_max_commute(a.minimum.z, b.minimum.z);
    lemma_min_max_commute(a.maximum.x, b.maximum.x);
    lemma_min_max_commute(a.maximum.y, b.maximum.y);
    lemma_min_max_commute(a.maximum.z, b.maximum.z);
}

/// The union of two ordered boxes is ordered and encloses both.
pub proof fn lemma_union_encloses(a: AABB, b: AABB)
    requires
        a.ordered(),
        b.ordered(),
    ensures
        a.union_of(b).ordered(),
        a.union_of(b).encloses(a),
        a.union_of(b).encloses(b),
{
    lemma_min_max_bounds(a.minimum.x, b.minimum.x);
    lemma_min_max_bounds(a.minimum.y, b.minimum.y);
    lemma_min_max_bounds(a.minimum.z, b.minimum.z);
    lemma_min_max_bounds(a.maximum.x, b.maximum.x);
    lemma_min_max_bounds(a.maximum.y, b.maximum.y);
    lemma_min_max_bounds(a.maximum.z, b.maximum.z);
}

/// A box that encloses a second box encloses every box inside the second.
pub proof fn lemma_encloses_is_transitive(a: AABB, b: AABB, c: AABB)
    requires
        a.encloses(b),
        b.encloses(c),
    ensures
        a.encloses(c),
{
}

/// A box united with itself is the box, and a union of three boxes does not
/// depend on how they are grouped.
pub proof fn lemma_union_idempotent_associative(a: AABB, b: AABB, c: AABB)
    ensures
        a.union_of(a) == a,
        a.union_of(b).union_of(c) == a.union_of(b.union_of(c)),
{
}

} // verus!
