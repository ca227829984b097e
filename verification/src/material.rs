//! Materials: how a surface sends an incoming ray on, and what it emits.
use crate::hittable::HitRecord;
use crate::ray::Ray;
use crate::scalar::{Scalar, ONE_BITS};
use crate::texture::{SolidColor, Texture};
use crate::vec3::{Color, Point3, Vec3};
use rand::rngs::StdRng;
use vstd::prelude::*;

verus! {

/// What a surface is made of.
pub trait Material {
    /// The answer of `emitted`, which depends on nothing but its arguments.
    spec fn emitted_spec(&self, u: Scalar, v: Scalar, p: Point3) -> Color;

    /// Whether `outcome` is among the answers that `scatter` may give for
    /// a ray and a hit. There may be many: the answer can depend on chance.
    spec fn scatter_spec(&self, ray_input: Ray, hit_rec: HitRecord, outcome: Option<(Color, Ray)>) -> bool;

    /// Decides what becomes of a ray that hit the surface: the attenuation
    /// and the scattered ray, or nothing where the ray is absorbed. The
    /// decision may draw random numbers.
    fn scatter(&self, ray_input: &Ray, hit_rec: &HitRecord, rng: &mut StdRng) -> (r: Option<
        (Color, Ray),
    >)
        ensures
            self.scatter_spec(*ray_input, *hit_rec, r),
    ;

    /// The light that the surface gives off at a point.
    fn emitted(&self, u: Scalar, v: Scalar, p: &Point3) -> (r: Color)
        ensures
            r == self.emitted_spec(u, v, *p),
    ;
}

/// Whether every component of a colour is a number from zero to one.
pub open spec fn in_unit_range(c: Color) -> bool {
    &&& (Scalar { bits: 0 }).less_eq(c.x) && c.x.less_eq(Scalar { bits: ONE_BITS })
    &&& (Scalar { bits: 0 }).less_eq(c.y) && c.y.less_eq(Scalar { bits: ONE_BITS })
    &&& (Scalar { bits: 0 }).less_eq(c.z) && c.z.less_eq(Scalar { bits: ONE_BITS })
}

/// The colour with all components one.
pub open spec fn white() -> Color {
    Vec3 { x: Scalar { bits: ONE_BITS }, y: Scalar { bits: ONE_BITS }, z: Scalar { bits: ONE_BITS } }
}

/// A matte surface.
pub struct Lambertian<T> {
    pub albedo: T,
}

impl Lambertian<SolidColor> {
    /// The matte surface of one colour.
    pub fn from(albedo: &Color) -> (r: Lambertian<SolidColor>)
        ensures
            r.albedo.color_value == *albedo,
    {
        Lambertian { albedo: SolidColor::new(Some(*albedo)) }
    }
}

impl<T: Texture> Lambertian<T> {
    pub fn new(albedo: T) -> (r: Lambertian<T>)
        ensures
            r.albedo == albedo,
    {
        Lambertian { albedo }
    }

    /// Scatters a ray in the direction `scatter_direction`, the sum of the
    /// normal and a random unit vector. Where that sum is nearly zero the
    /// ray leaves along the normal. The attenuation is the colour of the
    /// texture where the ray hit.
    pub fn scatter(&self, ray_input: &Ray, hit_rec: &HitRecord, scatter_direction: Vec3) -> (r: (
        Color,
        Ray,
    ))
        ensures
            r.0 == self.albedo.value_spec(hit_rec.u, hit_rec.v, hit_rec.point),
            r.1.orig == hit_rec.point,
            r.1.dir == (if scatter_direction.tiny() {
                hit_rec.normal
            } else {
                scatter_direction
            }),
            r.1.time == ray_input.time,
            in_unit_range(self.albedo.value_spec(hit_rec.u, hit_rec.v, hit_rec.point))
                ==> in_unit_range(r.0),
    {
        let direction = if scatter_direction.near_zero() {
            hit_rec.normal
        } else {
            scatter_direction
        };
        let scattered = Ray::new(Some(hit_rec.point), Some(direction), Some(ray_input.time()));
        let attenuation = self.albedo.value(hit_rec.u, hit_rec.v, &hit_rec.point);
        (attenuation, scattered)
    }
}

/// A mirror, the rougher the larger its fuzz.
#[derive(Clone, Copy, Debug, PartialEq, Eq, Structural)]
pub struct Metal {
    pub albedo: Color,
    pub fuzz: Scalar,
}

/// The fuzz of a mirror: the number asked for, but no less than zero and
/// no more than one, and one where no number was given.
pub open spec fn limited_fuzz(fuzz: Scalar) -> Scalar {
    if fuzz.less(Scalar { bits: ONE_BITS }) {
        if fuzz.less(Scalar { bits: 0 }) {
            Scalar { bits: 0 }
        } else {
            fuzz
        }
    } else {
        Scalar { bits: ONE_BITS }
    }
}

impl Metal {
    pub fn new(albedo: Color, fuzz: Scalar) -> (r: Metal)
        ensures
            r.albedo == albedo,
            r.fuzz == limited_fuzz(fuzz),
            (Scalar { bits: 0 }).less_eq(r.fuzz) && r.fuzz.less_eq(Scalar { bits: ONE_BITS }),
    {
        Metal {
            albedo,
            fuzz: if fuzz.lt(Scalar::one()) {
                if fuzz.lt(Scalar::zero()) {
                    Scalar::zero()
                } else {
                    fuzz
                }
            } else {
                Scalar::one()
            },
        }
    }

    /// Scatters a ray in `direction`, the mirrored direction blurred by the
    /// fuzz. `facing` is the dot product of that direction with the normal:
    /// the ray is scattered where it is positive and absorbed everywhere
    /// else. The attenuation is the albedo.
    pub fn scatter(
        &self,
        ray_input: &Ray,
        hit_rec: &HitRecord,
        direction: Vec3,
        facing: Scalar,
    ) -> (r: Option<(Color, Ray)>)
        ensures
            r is Some <==> (Scalar { bits: 0 }).less(facing),
            r is Some ==> (r->0).0 == self.albedo && (r->0).1 == (Ray {
                orig: hit_rec.point,
                dir: direction,
                time: ray_input.time,
            }),
            r is Some && in_unit_range(self.albedo) ==> in_unit_range((r->0).0),
    {
        if facing.gt(Scalar::zero()) {
            let scattered = Ray::new(Some(hit_rec.point), Some(direction), Some(ray_input.time()));
            Some((self.albedo, scattered))
        } else {
            None
        }
    }
}

/// Clear matter that bends light, such as glass.
#[derive(Clone, Copy, Debug, PartialEq, Eq, Structural)]
pub struct Dielectric {
    pub refraction_index: Scalar,
}

impl Dielectric {
    pub fn new(r_in: Scalar) -> (r: Dielectric)
        ensures
            r.refraction_index == r_in,
    {
        Dielectric { refraction_index: r_in }
    }

    /// The ratio of the refraction indices that a ray meets: `inverse`, one
    /// over the index of the matter, for a ray that enters from outside, and
    /// the index itself for a ray that leaves.
    pub fn refraction_ratio(&self, front_face: bool, inverse: Scalar) -> (r: Scalar)
        ensures
            r == (if front_face {
                inverse
            } else {
                self.refraction_index
            }),
    {
        if front_face {
            inverse
        } else {
            self.refraction_index
        }
    }

    /// Decides between mirroring and bending. `bend` is the refraction ratio
    /// times the sine of the angle of incidence: above one no bent ray
    /// exists. `reflectance` is the share of light that is mirrored at this
    /// angle and `draw` a random number from zero to one: the ray is
    /// mirrored where the share exceeds the draw.
    pub fn reflects(bend: Scalar, reflectance: Scalar, draw: Scalar) -> (r: bool)
        ensures
            r == ((Scalar { bits: ONE_BITS }).less(bend) || draw.less(reflectance)),
    {
        bend.gt(Scalar::one()) || reflectance.gt(draw)
    }

    /// Scatters a ray on clear matter: along `reflected`, the mirrored
    /// direction, where `reflects` says so for `bend`, `reflectance` and
    /// `draw`, and along `refracted`, the bent direction, everywhere else.
    /// Nothing is taken from the light: the attenuation is white.
    pub fn scatter_decided(
        &self,
        ray_input: &Ray,
        hit_rec: &HitRecord,
        bend: Scalar,
        reflectance: Scalar,
        draw: Scalar,
        reflected: Vec3,
        refracted: Vec3,
    ) -> (r: (Color, Ray))
        ensures
            r.0 == white(),
            r.1 == (Ray {
                orig: hit_rec.point,
                dir: if (Scalar { bits: ONE_BITS }).less(bend) || draw.less(reflectance) {
                    reflected
                } else {
                    refracted
                },
                time: ray_input.time,
            }),
    {
        let direction = if Dielectric::reflects(bend, reflectance, draw) {
            reflected
        } else {
            refracted
        };
        self.scatter(ray_input, hit_rec, direction)
    }

    /// Scatters a ray in `direction`, mirrored or bent. Nothing is taken
    /// from the light: the attenuation is white.
    pub fn scatter(&self, ray_input: &Ray, hit_rec: &HitRecord, direction: Vec3) -> (r: (
        Color,
        Ray,
    ))
        ensures
            r.0 == white(),
            r.1 == (Ray { orig: hit_rec.point, dir: direction, time: ray_input.time }),
    {
        let attenuation = Vec3::new(Some(Scalar::one()), Some(Scalar::one()), Some(Scalar::one()));
        let scattered = Ray::new(Some(hit_rec.point), Some(direction), Some(ray_input.time()));
        (attenuation, scattered)
    }
}

/// A surface that gives off light and scatters none.
pub struct DiffuseLight<T> {
    pub emit: T,
}

impl DiffuseLight<SolidColor> {
    /// The light of one colour.
    pub fn from(color: Color) -> (r: DiffuseLight<SolidColor>)
        ensures
            r.emit.color_value == color,
    {
        DiffuseLight { emit: SolidColor::new(Some(color)) }
    }
}

impl<T: Texture> DiffuseLight<T> {
    pub fn new(emit: T) -> (r: DiffuseLight<T>)
        ensures
            r.emit == emit,
    {
        DiffuseLight { emit }
    }
}

impl<T: Texture> Material for DiffuseLight<T> {
    open spec fn emitted_spec(&self, u: Scalar, v: Scalar, p: Point3) -> Color {
        self.emit.value_spec(u, v, p)
    }

    /// A light absorbs every ray that hits it.
    open spec fn scatter_spec(
        &self,
        ray_input: Ray,
        hit_rec: HitRecord,
        outcome: Option<(Color, Ray)>,
    ) -> bool {
        outcome is None
    }

    fn scatter(&self, ray_input: &Ray, hit_rec: &HitRecord, rng: &mut StdRng) -> (r: Option<
        (Color, Ray),
    >) {
        None
    }

    fn emitted(&self, u: Scalar, v: Scalar, p: &Point3) -> (r: Color) {
        self.emit.value(u, v, p)
    }
}

} // verus!
