//! What a ray can hit: the surface abstraction, the record of one
//! intersection and the list of surfaces.
use crate::aabb::AABB;
use crate::ray::Ray;
use crate::scalar::Scalar;
use crate::vec3::{Point3, Vec3};
use vstd::prelude::*;

verus! {

/// What one intersection query found. `material` is the place of the struck
/// surface's material in the scene's table of materials.
#[derive(Clone, Copy, Debug, PartialEq, Eq, Structural)]
pub struct HitRecord {
    pub point: Point3,
    pub normal: Vec3,
    pub t: Scalar,
    pub u: Scalar,
    pub v: Scalar,
    pub front_face: bool,
    pub material: Option<usize>,
}

impl HitRecord {
    /// The record before anything was hit: all zero, no material.
    pub open spec fn blank() -> HitRecord {
        HitRecord {
            point: Vec3::zero_vector(),
            normal: Vec3::zero_vector(),
            t: Scalar { bits: 0 },
            u: Scalar { bits: 0 },
            v: Scalar { bits: 0 },
            front_face: false,
            material: None,
        }
    }

    /// Whether the parameter of the hit lies in the window from `t_min` to
    /// `t_max`, both ends included.
    pub open spec fn within(self, t_min: Scalar, t_max: Scalar) -> bool {
        t_min.less_eq(self.t) && self.t.less_eq(t_max)
    }

    pub fn empty() -> (r: HitRecord)
        ensures
            r == HitRecord::blank(),
    {
        HitRecord {
            point: Vec3::new(None, None, None),
            normal: Vec3::new(None, None, None),
            t: Scalar::zero(),
            u: Scalar::zero(),
            v: Scalar::zero(),
            front_face: false,
            material: None,
        }
    }

    /// The record of a hit at the ray parameter `t`, with the normal
    /// oriented against the incoming ray: `facing` is the dot product of the
    /// ray's direction with `outward_normal`.
    pub fn new(
        t: Scalar,
        point: Point3,
        outward_normal: &Vec3,
        facing: Scalar,
        u: Scalar,
        v: Scalar,
        material: Option<usize>,
    ) -> (r: HitRecord)
        ensures
            r == (HitRecord {
                point,
                normal: if facing.less(Scalar { bits: 0 }) {
                    *outward_normal
                } else {
                    outward_normal.negated()
                },
                t,
                u,
                v,
                front_face: facing.less(Scalar { bits: 0 }),
                material,
            }),
    {
        let mut rec = HitRecord::empty();
        rec.t = t;
        rec.point = point;
        rec.u = u;
        rec.v = v;
        rec.material = material;
        rec.set_face_normal(facing, outward_normal);
        rec
    }

    /// Orients the normal against the incoming ray. `facing` is the dot
    /// product of the ray's direction with the outward normal: where it is
    /// negative the ray comes from outside and the outward normal is kept,
    /// otherwise the normal is turned round.
    pub fn set_face_normal(&mut self, facing: Scalar, outward_normal: &Vec3)
        ensures
            final(self).front_face == facing.less(Scalar { bits: 0 }),
            final(self).normal == (if facing.less(Scalar { bits: 0 }) {
                *outward_normal
            } else {
                outward_normal.negated()
            }),
            final(self).point == old(self).point,
            final(self).t == old(self).t,
            final(self).u == old(self).u,
            final(self).v == old(self).v,
            final(self).material == old(self).material,
    {
        self.front_face = facing.lt(Scalar::zero());
        self.normal = if self.front_face {
            *outward_normal
        } else {
            outward_normal.neg()
        };
    }
}

/// A surface that a ray can be tested against.
pub trait Hittable {
    /// The answer of `hit`, which depends on nothing but its arguments.
    spec fn hit_spec(&self, ray: Ray, t_min: Scalar, t_max: Scalar) -> Option<HitRecord>;

    /// The answer of `bounding_box`.
    spec fn box_spec(&self, time0: Scalar, time1: Scalar) -> Option<AABB>;

    /// The intersection of the ray with the surface inside the window from
    /// `t_min` to `t_max`, if there is one. An intersection outside the
    /// window is never reported.
    fn hit(&self, ray: &Ray, t_min: Scalar, t_max: Scalar) -> (r: Option<HitRecord>)
        ensures
            r == self.hit_spec(*ray, t_min, t_max),
            r is Some ==> (r->0).within(t_min, t_max),
    ;

    /// A box around the surface for the whole time from `time0` to `time1`.
    fn bounding_box(&self, time0: Scalar, time1: Scalar) -> (r: Option<AABB>)
        ensures
            r == self.box_spec(time0, time1),
    ;
}

/// Which of the two places where a ray crosses a sphere counts as the hit.
/// With a negative discriminant the ray passes the sphere by. Otherwise the
/// nearer crossing counts where it lies in the window from `t_min` to
/// `t_max`, else the farther one where that lies in the window.
pub open spec fn chosen_root(
    discriminant: Scalar,
    near_root: Scalar,
    far_root: Scalar,
    t_min: Scalar,
    t_max: Scalar,
) -> Option<Scalar> {
    if discriminant.less(Scalar { bits: 0 }) {
        None
    } else if t_min.less_eq(near_root) && near_root.less_eq(t_max) {
        Some(near_root)
    } else if t_min.less_eq(far_root) && far_root.less_eq(t_max) {
        Some(far_root)
    } else {
        None
    }
}

/// A sphere at rest.
#[derive(Clone, Copy, Debug, PartialEq, Eq, Structural)]
pub struct Sphere {
    pub center: Point3,
    pub radius: Scalar,
    pub material: usize,
}

impl Sphere {
    pub fn new(center: Point3, radius: Scalar, material: usize) -> (r: Sphere)
        ensures
            r == (Sphere { center, radius, material }),
    {
        Sphere { center, radius, material }
    }

    /// Picks the ray parameter of the hit from the two solutions of the
    /// sphere equation, `near_root` the smaller one.
    pub fn root(
        discriminant: Scalar,
        near_root: Scalar,
        far_root: Scalar,
        t_min: Scalar,
        t_max: Scalar,
    ) -> (r: Option<Scalar>)
        ensures
            r == chosen_root(discriminant, near_root, far_root, t_min, t_max),
            r is Some ==> t_min.less_eq(r->0) && (r->0).less_eq(t_max),
    {
        if discriminant.lt(Scalar::zero()) {
            return None;
        }
        let mut root = near_root;
        if !(t_min.le(root) && root.le(t_max)) {
            root = far_root;
            if !(t_min.le(root) && root.le(t_max)) {
                return None;
            }
        }
        Some(root)
    }
}

/// The hit that a scan of `objects` from first to last ends with. Each
/// surface is tested in the window that the hits before it have left: from
/// `t_min` to the parameter of the last hit found, or to `t_max` while there
/// is none. A later hit replaces an earlier one.
pub open spec fn closest_hit<H: Hittable>(
    objects: Seq<H>,
    ray: Ray,
    t_min: Scalar,
    t_max: Scalar,
) -> Option<HitRecord>
    decreases objects.len(),
{
    if objects.len() == 0 {
        None
    } else {
        let before = closest_hit(objects.drop_last(), ray, t_min, t_max);
        let limit = if before is Some { (before->0).t } else { t_max };
        let here = objects.last().hit_spec(ray, t_min, limit);
        if here is Some {
            here
        } else {
            before
        }
    }
}

/// The union of the boxes of all `objects`; none where there is no object or
/// where one of them has no box.
pub open spec fn union_of_boxes<H: Hittable>(
    objects: Seq<H>,
    time0: Scalar,
    time1: Scalar,
) -> Option<AABB>
    decreases objects.len(),
{
    if objects.len() == 0 {
        None
    } else {
        let last = objects.last().box_spec(time0, time1);
        if objects.len() == 1 {
            last
        } else {
            let before = union_of_boxes(objects.drop_last(), time0, time1);
            if before is Some && last is Some {
                Some((before->0).union_of(last->0))
            } else {
                None
            }
        }
    }
}

/// Surfaces in the order in which they were added.
pub struct HittableList<H> {
    pub objects: Vec<H>,
}

impl<H: Hittable> HittableList<H> {
    /// A list of one surface, or an empty list.
    pub fn new(hittable: Option<H>) -> (r: HittableList<H>)
        ensures
            hittable is Some ==> r.objects@ == seq![hittable->0],
            hittable is None ==> r.objects@ == Seq::<H>::empty(),
    {
        let mut new_list = HittableList { objects: Vec::new() };
        match hittable {
            None => {},
            Some(hittable) => {
                new_list.add(hittable);
            },
        }
        new_list
    }

    /// Puts a surface at the end of the list.
    pub fn add(&mut self, hittable: H)
        ensures
            final(self).objects@ == old(self).objects@.push(hittable),
    {
        self.objects.push(hittable)
    }

    /// Takes every surface out of the list.
    pub fn clear(&mut self)
        ensures
            final(self).objects@ == Seq::<H>::empty(),
    {
        self.objects.clear();
    }
}

impl<H: Hittable> Hittable for HittableList<H> {
    open spec fn hit_spec(&self, ray: Ray, t_min: Scalar, t_max: Scalar) -> Option<HitRecord> {
        closest_hit(self.objects@, ray, t_min, t_max)
    }

    open spec fn box_spec(&self, time0: Scalar, time1: Scalar) -> Option<AABB> {
        union_of_boxes(self.objects@, time0, time1)
    }

    /// Scans the list and keeps the hit with the smallest parameter: every
    /// hit found narrows the window for the surfaces after it.
    fn hit(&self, ray: &Ray, t_min: Scalar, t_max: Scalar) -> (r: Option<HitRecord>) {
        let mut best: Option<HitRecord> = None;
        let mut closest_so_far = t_max;
        let mut i: usize = 0;
        while i < self.objects.len()
            invariant
                i <= self.objects.len(),
                best == closest_hit(self.objects@.subrange(0, i as int), *ray, t_min, t_max),
                closest_so_far == (if best is Some { (best->0).t } else { t_max }),
                best is Some ==> (best->0).within(t_min, t_max),
            decreases self.objects.len() - i,
        {
            let here = self.objects[i].hit(ray, t_min, closest_so_far);
            proof {
                let upto = self.objects@.subrange(0, i as int + 1);
                assert(upto.drop_last() == self.objects@.subrange(0, i as int));
                assert(upto.last() == self.objects@[i as int]);
            }
            match here {
                Some(rec) => {
                    closest_so_far = rec.t;
                    best = Some(rec);
                },
                None => {},
            }
            i += 1;
        }
        proof {
            assert(self.objects@.subrange(0, i as int) == self.objects@);
        }
        best
    }

    /// The union of the boxes of all surfaces in the list.
    fn bounding_box(&self, time0: Scalar, time1: Scalar) -> (r: Option<AABB>) {
        if self.objects.len() == 0 {
            return None;
        }
        let mut output_box: Option<AABB> = None;
        let mut i: usize = 0;
        while i < self.objects.len()
            invariant
                i <= self.objects.len(),
                i > 0 ==> output_box is Some,
                output_box == union_of_boxes(self.objects@.subrange(0, i as int), time0, time1),
            decreases self.objects.len() - i,
        {
            proof {
                let upto = self.objects@.subrange(0, i as int + 1);
                assert(upto.drop_last() == self.objects@.subrange(0, i as int));
                assert(upto.last() == self.objects@[i as int]);
            }
            match self.objects[i].bounding_box(time0, time1) {
                None => {
                    proof {
                        lemma_missing_box_spoils_union(self.objects@, i as int, time0, time1);
                    }
                    return None;
                },
                Some(temp_box) => {
                    output_box = match output_box {
                        None => Some(temp_box),
                        Some(so_far) => Some(AABB::surrounding_box(so_far, temp_box)),
                    };
                },
            }
            i += 1;
        }
        proof {
            assert(self.objects@.subrange(0, i as int) == self.objects@);
        }
        output_box
    }
}

/// A list in which one surface has no box has no box itself.
pub proof fn lemma_missing_box_spoils_union<H: Hittable>(
    objects: Seq<H>,
    i: int,
    time0: Scalar,
    time1: Scalar,
)
    requires
        0 <= i < objects.len(),
        objects[i].box_spec(time0, time1) is None,
    ensures
        union_of_boxes(objects, time0, time1) is None,
    decreases objects.len(),
{
    if i < objects.len() - 1 {
        lemma_missing_box_spoils_union(objects.drop_last(), i, time0, time1);
    }
}

/// What a scan of a list reports lies in the window it was asked for, and no
/// surface of the list is hit when the scan reports nothing.
pub proof fn lemma_closest_hit_in_window<H: Hittable>(
    objects: Seq<H>,
    ray: Ray,
    t_min: Scalar,
    t_max: Scalar,
)
    requires
        forall|i: int, lo: Scalar, hi: Scalar|
            0 <= i < objects.len() && (#[trigger] objects[i].hit_spec(ray, lo, hi)) is Some
                ==> (objects[i].hit_spec(ray, lo, hi)->0).within(lo, hi),
    ensures
        closest_hit(objects, ray, t_min, t_max) is Some ==> (closest_hit(
            objects,
            ray,
            t_min,
            t_max,
        )->0).within(t_min, t_max),
        closest_hit(objects, ray, t_min, t_max) is None ==> forall|i: int|
            0 <= i < objects.len() ==> (#[trigger] objects[i].hit_spec(ray, t_min, t_max)) is None,
    decreases objects.len(),
{
    if objects.len() > 0 {
        let front = objects.drop_last();
        assert forall|i: int, lo: Scalar, hi: Scalar|
            0 <= i < front.len() && (#[trigger] front[i].hit_spec(ray, lo, hi)) is Some implies (
        front[i].hit_spec(ray, lo, hi)->0).within(lo, hi) by {
            assert(front[i] == objects[i]);
        }
        lemma_closest_hit_in_window(front, ray, t_min, t_max);
        let before = closest_hit(front, ray, t_min, t_max);
        if closest_hit(objects, ray, t_min, t_max) is None {
            assert forall|i: int| 0 <= i < objects.len() implies (#[trigger] objects[i].hit_spec(
                ray,
                t_min,
                t_max,
            )) is None by {
                if i < front.len() {
                    assert(front[i] == objects[i]);
                }
            }
        }
    }
}

} // verus!
