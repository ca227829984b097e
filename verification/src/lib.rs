//! The core of an offline path tracer.
//!
//! A path tracer follows rays of light backwards from the camera into a
//! scene. This crate holds the parts of one that can be decided without
//! rounding: the order of numbers, bounding boxes, the bounding volume
//! hierarchy over the surfaces of a scene, the scan of a list of surfaces for
//! the nearest hit, the decisions of the surfaces, materials and textures,
//! the lattice of gradient noise, and the walk of one path through the scene.
//!
//! Numbers are IEEE 754 binary32 values held as their bit patterns
//! ([`scalar::Scalar`]). Sums, products, quotients, roots and the like are
//! rounded, and no function of this crate computes one: where a decision
//! needs such a result, the function that decides takes it as an argument.
//! Surfaces, materials and textures are traits ([`hittable::Hittable`],
//! [`material::Material`], [`texture::Texture`]) that a renderer implements
//! with its own arithmetic; the list, the hierarchy and the path are written
//! against the traits.
//!
//! Random numbers come from a seeded generator of the `rand` crate that the
//! caller passes in, so that a picture can be rendered again bit for bit.
pub mod aabb;
pub mod aarect;
pub mod agreement;
pub mod block;
pub mod bvh;
pub mod hittable;
pub mod material;
pub mod moving_sphere;
pub mod perlin;
pub mod ray;
pub mod render;
pub mod rtweekend;
pub mod scalar;
pub mod texture;
pub mod vec3;
