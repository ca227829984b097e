use rand::rngs::StdRng;
use rand::SeedableRng;
use raytracer::hittable::HitRecord;
use raytracer::material::{Dielectric, DiffuseLight, Lambertian, Material, Metal};
use raytracer::ray::Ray;
use raytracer::scalar::Scalar;
use raytracer::texture::{CheckerTexture, SolidColor};
use raytracer::vec3::Vec3;

fn s(x: f32) -> Scalar {
    Scalar::from_bits(x.to_bits())
}

fn f(x: Scalar) -> f32 {
    f32::from_bits(x.to_bits())
}

fn v(x: f32, y: f32, z: f32) -> Vec3 {
    Vec3::new(Some(s(x)), Some(s(y)), Some(s(z)))
}

fn record() -> HitRecord {
    HitRecord::new(s(2.0), v(1.0, 2.0, 3.0), &v(0.0, 1.0, 0.0), s(-1.0), s(0.1), s(0.2), Some(0))
}

fn incoming() -> Ray {
    Ray::new(Some(v(1.0, 4.0, 3.0)), Some(v(0.0, -1.0, 0.0)), Some(s(0.25)))
}

fn in_unit_range(c: Vec3) -> bool {
    [c.x(), c.y(), c.z()].iter().all(|x| f(*x) >= 0.0 && f(*x) <= 1.0)
}

#[test]
fn lambertian_scatters_in_the_direction_given() {
    let m = Lambertian::from(&v(0.7, 0.3, 0.3));
    let (attenuation, scattered) = m.scatter(&incoming(), &record(), v(0.5, 1.5, -0.5));
    assert_eq!(attenuation, v(0.7, 0.3, 0.3));
    assert_eq!(scattered.origin(), v(1.0, 2.0, 3.0));
    assert_eq!(scattered.direction(), v(0.5, 1.5, -0.5));
    assert_eq!(f(scattered.time()), 0.25);
}

#[test]
fn lambertian_falls_back_to_the_normal() {
    let m = Lambertian::from(&v(0.7, 0.3, 0.3));
    let (_, scattered) = m.scatter(&incoming(), &record(), v(1.0e-9, -1.0e-9, 0.0));
    assert_eq!(scattered.direction(), v(0.0, 1.0, 0.0));
    let (_, kept) = m.scatter(&incoming(), &record(), v(1.0e-9, 1.0e-7, 0.0));
    assert_eq!(kept.direction(), v(1.0e-9, 1.0e-7, 0.0));
}

#[test]
fn lambertian_takes_its_colour_from_the_texture() {
    let m = Lambertian::new(SolidColor::from(s(0.1), s(0.2), s(0.3)));
    let (attenuation, _) = m.scatter(&incoming(), &record(), v(0.0, 1.0, 0.0));
    assert_eq!(attenuation, v(0.1, 0.2, 0.3));
    assert!(in_unit_range(attenuation));
}

#[test]
fn lambertian_over_a_checker_is_a_material_of_the_odd_or_even_colour() {
    let checker = CheckerTexture::from(v(0.2, 0.3, 0.1), v(0.9, 0.9, 0.9));
    let rec = record();
    assert_eq!(checker.value(s(-1.0), rec.u, rec.v, &rec.point), v(0.9, 0.9, 0.9));
}

#[test]
fn metal_fuzz_is_limited_to_one() {
    assert_eq!(f(Metal::new(v(0.8, 0.8, 0.8), s(0.3)).fuzz), 0.3);
    assert_eq!(f(Metal::new(v(0.8, 0.8, 0.8), s(1.0)).fuzz), 1.0);
    assert_eq!(f(Metal::new(v(0.8, 0.8, 0.8), s(7.0)).fuzz), 1.0);
    assert_eq!(f(Metal::new(v(0.8, 0.8, 0.8), s(f32::INFINITY)).fuzz), 1.0);
    assert_eq!(f(Metal::new(v(0.8, 0.8, 0.8), s(f32::NAN)).fuzz), 1.0);
    assert_eq!(f(Metal::new(v(0.8, 0.8, 0.8), s(0.0)).fuzz), 0.0);
}

#[test]
fn metal_fuzz_is_not_negative() {
    assert_eq!(f(Metal::new(v(0.8, 0.8, 0.8), s(-0.5)).fuzz), 0.0);
    assert_eq!(f(Metal::new(v(0.8, 0.8, 0.8), s(f32::NEG_INFINITY)).fuzz), 0.0);
}

#[test]
fn metal_scatters_on_the_side_of_the_normal() {
    let m = Metal::new(v(0.8, 0.6, 0.2), s(0.0));
    let (attenuation, scattered) = m.scatter(&incoming(), &record(), v(0.0, 1.0, 0.0), s(1.0)).unwrap();
    assert_eq!(attenuation, v(0.8, 0.6, 0.2));
    assert!(in_unit_range(attenuation));
    assert_eq!(scattered.origin(), v(1.0, 2.0, 3.0));
    assert_eq!(scattered.direction(), v(0.0, 1.0, 0.0));
    assert_eq!(f(scattered.time()), 0.25);
}

#[test]
fn metal_absorbs_what_goes_into_the_surface() {
    let m = Metal::new(v(0.8, 0.6, 0.2), s(1.0));
    assert!(m.scatter(&incoming(), &record(), v(0.0, -1.0, 0.0), s(-1.0)).is_none());
    assert!(m.scatter(&incoming(), &record(), v(1.0, 0.0, 0.0), s(0.0)).is_none());
    assert!(m.scatter(&incoming(), &record(), v(1.0, 0.0, 0.0), s(f32::NAN)).is_none());
    assert!(m.scatter(&incoming(), &record(), v(1.0, 1.0e-30, 0.0), s(1.0e-30)).is_some());
}

#[test]
fn dielectric_takes_nothing_from_the_light() {
    let m = Dielectric::new(s(1.5));
    assert_eq!(f(m.refraction_index), 1.5);
    let (attenuation, scattered) = m.scatter(&incoming(), &record(), v(0.0, -1.0, 0.0));
    assert_eq!(attenuation, v(1.0, 1.0, 1.0));
    assert_eq!(scattered.origin(), v(1.0, 2.0, 3.0));
    assert_eq!(scattered.direction(), v(0.0, -1.0, 0.0));
    assert_eq!(f(scattered.time()), 0.25);
}

#[test]
fn dielectric_reflects_where_it_cannot_refract() {
    assert!(Dielectric::reflects(s(1.2), s(0.0), s(0.99)));
    assert!(!Dielectric::reflects(s(1.0), s(0.0), s(0.5)));
    assert!(!Dielectric::reflects(s(0.3), s(0.0), s(0.0)));
}

#[test]
fn dielectric_reflects_where_the_reflectance_exceeds_the_draw() {
    assert!(Dielectric::reflects(s(0.3), s(0.6), s(0.5)));
    assert!(!Dielectric::reflects(s(0.3), s(0.5), s(0.5)));
    assert!(!Dielectric::reflects(s(0.3), s(0.4), s(0.5)));
    assert!(!Dielectric::reflects(s(f32::NAN), s(f32::NAN), s(0.5)));
}

#[test]
fn light_emits_and_does_not_scatter() {
    let m = DiffuseLight::from(v(4.0, 4.0, 4.0));
    let mut rng = StdRng::seed_from_u64(1);
    assert!(Material::scatter(&m, &incoming(), &record(), &mut rng).is_none());
    assert_eq!(m.emitted(s(0.3), s(0.4), &v(9.0, 9.0, 9.0)), v(4.0, 4.0, 4.0));
}

#[test]
fn light_over_a_texture_emits_the_texture() {
    let m = DiffuseLight::new(SolidColor::from(s(15.0), s(14.0), s(13.0)));
    assert_eq!(m.emitted(s(0.0), s(0.0), &v(0.0, 0.0, 0.0)), v(15.0, 14.0, 13.0));
}

#[test]
fn dielectric_ratio_depends_on_the_side() {
    let m = Dielectric::new(s(1.5));
    assert_eq!(f(m.refraction_ratio(true, s(1.0 / 1.5))), 1.0 / 1.5);
    assert_eq!(f(m.refraction_ratio(false, s(1.0 / 1.5))), 1.5);
}

#[test]
fn dielectric_takes_the_direction_that_the_decision_selects() {
    let m = Dielectric::new(s(1.5));
    let reflected = v(0.0, 1.0, 0.0);
    let refracted = v(0.0, -1.0, 0.25);
    let cases = [
        (1.2f32, 0.0f32, 0.99f32, true),
        (1.0, 0.0, 0.5, false),
        (0.3, 0.6, 0.5, true),
        (0.3, 0.5, 0.5, false),
        (0.3, 0.4, 0.5, false),
        (f32::NAN, f32::NAN, 0.5, false),
        (1.000_000_1, 0.0, 0.999, true),
    ];
    for &(bend, reflectance, draw, mirrors) in cases.iter() {
        let (attenuation, scattered) = m.scatter_decided(
            &incoming(),
            &record(),
            s(bend),
            s(reflectance),
            s(draw),
            reflected,
            refracted,
        );
        assert_eq!(attenuation, v(1.0, 1.0, 1.0));
        assert_eq!(scattered.origin(), v(1.0, 2.0, 3.0));
        assert_eq!(f(scattered.time()), 0.25);
        assert_eq!(scattered.direction(), if mirrors { reflected } else { refracted });
        assert_eq!(Dielectric::reflects(s(bend), s(reflectance), s(draw)), mirrors);
    }
}
