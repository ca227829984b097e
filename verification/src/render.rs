//! Light transport along one path, and the bytes of a pixel.
use crate::hittable::{HitRecord, Hittable};
use crate::material::Material;
use crate::ray::Ray;
use crate::rtweekend::{clamp, clamped};
use crate::scalar::{lemma_floor_is_monotone, lemma_floor_of_fraction_bits, Scalar, INFINITY_BITS};
use crate::vec3::{Color, Vec3};
use rand::rngs::StdRng;
use vstd::arithmetic::power2::pow2;
use vstd::prelude::*;

verus! {

/// The bits of 0.001, where the window of every query opens: a ray does
/// not hit the surface that it has just left.
pub const T_MIN_BITS: u32 = 0x3a83_126f;

/// The bits of 0.999, the largest value of a channel.
pub const CHANNEL_MAX_BITS: u32 = 0x3f7f_be77;

/// One bounce of a path: what the surface gave off, what it took from the
/// light that came in, and the ray on which the path went on.
#[derive(Clone, Copy, Debug, PartialEq, Eq, Structural)]
pub struct Bounce {
    pub emitted: Color,
    pub attenuation: Color,
    pub scattered: Ray,
}

/// How a path ended.
#[derive(Clone, Copy, Debug, PartialEq, Eq, Structural)]
pub enum PathEnd {
    /// No bounce was left to spend.
    Exhausted,
    /// The last ray hit nothing.
    Missed,
    /// The last surface scattered no ray.
    Absorbed,
}

/// The light that comes back along a path, bounce by bounce. With the
/// bounces `b0`, `b1`, ... and the colour `last` where the path ended, the
/// colour of the path is
/// `b0.emitted + b0.attenuation * (b1.emitted + b1.attenuation * (... last))`.
pub struct Radiance {
    pub bounces: Vec<Bounce>,
    pub last: Color,
    pub end: PathEnd,
}

/// What the material struck in `rec` gives off; nothing where the record
/// names no material of the table.
pub open spec fn emitted_by<M: Material>(materials: Seq<M>, rec: HitRecord) -> Color {
    if rec.material is Some && rec.material->0 < materials.len() {
        materials[rec.material->0 as int].emitted_spec(rec.u, rec.v, rec.point)
    } else {
        Vec3::zero_vector()
    }
}

/// Whether the material struck in `rec` may answer the ray with `outcome`.
/// A record that names no material of the table stands for a surface that
/// absorbs every ray.
pub open spec fn scattered_by<M: Material>(
    materials: Seq<M>,
    ray: Ray,
    rec: HitRecord,
    outcome: Option<(Color, Ray)>,
) -> bool {
    if rec.material is Some && rec.material->0 < materials.len() {
        materials[rec.material->0 as int].scatter_spec(ray, rec, outcome)
    } else {
        outcome is None
    }
}

/// Whether `bounces` and `last` are a path of `ray` through `world` with
/// `depth` bounces to spend. A path without a bounce left ends in black. A
/// ray that hits nothing ends in the background. A ray that hits a surface
/// which absorbs it ends in what the surface gives off. A ray that is
/// scattered goes on with the scattered ray and one bounce less to spend.
pub open spec fn traced<H: Hittable, M: Material>(
    world: H,
    materials: Seq<M>,
    background: Color,
    depth: int,
    ray: Ray,
    bounces: Seq<Bounce>,
    last: Color,
    end: PathEnd,
) -> bool
    decreases bounces.len(),
{
    if depth <= 0 {
        bounces.len() == 0 && last == Vec3::zero_vector() && end == PathEnd::Exhausted
    } else {
        let found = world.hit_spec(ray, Scalar { bits: T_MIN_BITS }, Scalar { bits: INFINITY_BITS });
        if found is None {
            bounces.len() == 0 && last == background && end == PathEnd::Missed
        } else if bounces.len() == 0 {
            &&& last == emitted_by(materials, found->0)
            &&& end == PathEnd::Absorbed
            &&& scattered_by(materials, ray, found->0, None)
        } else {
            &&& bounces[0].emitted == emitted_by(materials, found->0)
            &&& scattered_by(
                materials,
                ray,
                found->0,
                Some((bounces[0].attenuation, bounces[0].scattered)),
            )
            &&& traced(
                world,
                materials,
                background,
                depth - 1,
                bounces[0].scattered,
                bounces.drop_first(),
                last,
                end,
            )
        }
    }
}

/// Follows a ray through the scene for at most `depth` bounces. The ray is
/// tested against `world` from 0.001 to infinity. A hit record names its
/// material by its place in `materials`; a record that names none is a
/// surface that neither shines nor scatters.
pub fn ray_color<H: Hittable, M: Material>(
    ray: Ray,
    background: &Color,
    world: &H,
    materials: &Vec<M>,
    depth: i32,
    rng: &mut StdRng,
) -> (r: Radiance)
    ensures
        traced(*world, materials@, *background, depth as int, ray, r.bounces@, r.last, r.end),
        r.bounces.len() <= (if depth > 0 { depth as int } else { 0 }),
    decreases depth,
{
    if depth <= 0 {
        return Radiance {
            bounces: Vec::new(),
            last: Vec3::new(None, None, None),
            end: PathEnd::Exhausted,
        };
    }
    let found = world.hit(&ray, Scalar::from_bits(T_MIN_BITS), Scalar::infinity());
    let hit_rec = match found {
        None => {
            return Radiance { bounces: Vec::new(), last: *background, end: PathEnd::Missed };
        },
        Some(rec) => rec,
    };
    let place = match hit_rec.material {
        None => {
            return Radiance {
                bounces: Vec::new(),
                last: Vec3::new(None, None, None),
                end: PathEnd::Absorbed,
            };
        },
        Some(place) => place,
    };
    if place >= materials.len() {
        return Radiance {
            bounces: Vec::new(),
            last: Vec3::new(None, None, None),
            end: PathEnd::Absorbed,
        };
    }
    let emitted = materials[place].emitted(hit_rec.u, hit_rec.v, &hit_rec.point);
    match materials[place].scatter(&ray, &hit_rec, rng) {
        None => Radiance { bounces: Vec::new(), last: emitted, end: PathEnd::Absorbed },
        Some((attenuation, scattered)) => {
            let mut rest = ray_color(scattered, background, world, materials, depth - 1, rng);
            let ghost tail = rest.bounces@;
            rest.bounces.insert(0, Bounce { emitted, attenuation, scattered });
            proof {
                assert(rest.bounces@.drop_first() == tail);
            }
            rest
        },
    }
}

/// A ray that hits nothing brings back the background and nothing else.
pub proof fn lemma_miss_is_background<H: Hittable, M: Material>(
    world: H,
    materials: Seq<M>,
    background: Color,
    depth: int,
    ray: Ray,
    bounces: Seq<Bounce>,
    last: Color,
    end: PathEnd,
)
    requires
        depth > 0,
        world.hit_spec(ray, Scalar { bits: T_MIN_BITS }, Scalar { bits: INFINITY_BITS }) is None,
        traced(world, materials, background, depth, ray, bounces, last, end),
    ensures
        bounces.len() == 0,
        last == background,
        end == PathEnd::Missed,
{
}

/// A path has no more bounces than it was given to spend, and a path that
/// spent them all ends in black.
pub proof fn lemma_path_is_bounded<H: Hittable, M: Material>(
    world: H,
    materials: Seq<M>,
    background: Color,
    depth: int,
    ray: Ray,
    bounces: Seq<Bounce>,
    last: Color,
    end: PathEnd,
)
    requires
        traced(world, materials, background, depth, ray, bounces, last, end),
    ensures
        bounces.len() <= (if depth > 0 { depth } else { 0 }),
        depth >= 0 && bounces.len() == depth ==> last == Vec3::zero_vector() && end
            == PathEnd::Exhausted,
        end == PathEnd::Exhausted ==> last == Vec3::zero_vector(),
        end == PathEnd::Missed ==> last == background,
    decreases bounces.len(),
{
    if depth > 0 && bounces.len() > 0 {
        lemma_path_is_bounded(
            world,
            materials,
            background,
            depth - 1,
            bounces[0].scattered,
            bounces.drop_first(),
            last,
            end,
        );
    }
}

/// The value of a colour channel as a byte: the channel is clamped to the
/// interval from 0 to 0.999 and multiplied by 256, and the whole part is
/// taken. A channel that is not a number gives 0.
pub open spec fn byte_of_channel(x: Scalar) -> int {
    let c = clamped(x, Scalar { bits: 0 }, Scalar { bits: CHANNEL_MAX_BITS });
    if c.nan() {
        0
    } else {
        c.floor_of_multiple(8)
    }
}

/// Turns a colour channel into the number that is written to the picture.
pub fn channel_byte(x: Scalar) -> (r: i32)
    ensures
        r == byte_of_channel(x),
        0 <= r <= 255,
{
    let c = clamp(x, Scalar::zero(), Scalar::from_bits(CHANNEL_MAX_BITS));
    proof {
        if !c.nan() {
            let top = Scalar { bits: CHANNEL_MAX_BITS };
            let bottom = Scalar { bits: 0 };
            lemma_floor_is_monotone(bottom, c, 8);
            lemma_floor_is_monotone(c, top, 8);
            lemma_floor_of_fraction_bits(top, 8);
            vstd::arithmetic::power2::lemma2_to64();
            assert(top.exponent_field() == 126 && top.fraction_field() == 0x7f_be77);
            assert(bottom.scaled() == 0);
            assert(bottom.floor_of_multiple(8) == 0) by {
                vstd::arithmetic::power2::lemma_pow2_pos(149);
                assert(0int * pow2(8) == 0);
                vstd::arithmetic::div_mod::lemma_div_basics(pow2(149) as int);
            }
            assert(top.floor_of_multiple(8) == 0xff_be77int / (pow2(16) as int));
        }
    }
    c.floor_of_multiple_to_i32(8)
}

} // verus!
