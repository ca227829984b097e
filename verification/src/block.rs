//! A box with faces parallel to the coordinate planes.
use crate::aabb::AABB;
use crate::aarect::{XYRect, XZRect, YZRect};
use crate::scalar::Scalar;
use crate::vec3::Point3;
use vstd::prelude::*;

verus! {

/// One face of a block.
#[derive(Clone, Copy, Debug, PartialEq, Eq, Structural)]
pub enum Side {
    XY(XYRect),
    XZ(XZRect),
    YZ(YZRect),
}

/// A block between two opposite corners, made of six rectangles that share
/// one material.
pub struct Block {
    pub box_min: Point3,
    pub box_max: Point3,
    pub sides: Vec<Side>,
}

/// The six faces of the block between `near` and `far`: back and front, top
/// and bottom, right and left.
pub open spec fn faces(near: Point3, far: Point3, material: usize) -> Seq<Side> {
    let m = Some(material);
    seq![
        Side::XY(XYRect { material: m, x0: near.x, x1: far.x, y0: near.y, y1: far.y, k: far.z }),
        Side::XY(XYRect { material: m, x0: near.x, x1: far.x, y0: near.y, y1: far.y, k: near.z }),
        Side::XZ(XZRect { material: m, x0: near.x, x1: far.x, z0: near.z, z1: far.z, k: far.y }),
        Side::XZ(XZRect { material: m, x0: near.x, x1: far.x, z0: near.z, z1: far.z, k: near.y }),
        Side::YZ(YZRect { material: m, y0: near.y, y1: far.y, z0: near.z, z1: far.z, k: far.x }),
        Side::YZ(YZRect { material: m, y0: near.y, y1: far.y, z0: near.z, z1: far.z, k: near.x }),
    ]
}

impl Block {
    /// The block between the corners `point0` and `point1`.
    pub fn new(point0: &Point3, point1: &Point3, material: usize) -> (r: Block)
        ensures
            r.box_min == *point0,
            r.box_max == *point1,
            r.sides@ == faces(*point0, *point1, material),
    {
        let box_min = *point0;
        let box_max = *point1;
        let mut sides: Vec<Side> = Vec::new();
        sides.push(
            Side::XY(
                XYRect::new(
                    point0.x(),
                    point1.x(),
                    point0.y(),
                    point1.y(),
                    point1.z(),
                    Some(material),
                ),
            ),
        );
        sides.push(
            Side::XY(
                XYRect::new(
                    point0.x(),
                    point1.x(),
                    point0.y(),
                    point1.y(),
                    point0.z(),
                    Some(material),
                ),
            ),
        );
        sides.push(
            Side::XZ(
                XZRect::new(
                    point0.x(),
                    point1.x(),
                    point0.z(),
                    point1.z(),
                    point1.y(),
                    Some(material),
                ),
            ),
        );
        sides.push(
            Side::XZ(
                XZRect::new(
                    point0.x(),
                    point1.x(),
                    point0.z(),
                    point1.z(),
                    point0.y(),
                    Some(material),
                ),
            ),
        );
        sides.push(
            Side::YZ(
                YZRect::new(
                    point0.y(),
                    point1.y(),
                    point0.z(),
                    point1.z(),
                    point1.x(),
                    Some(material),
                ),
            ),
        );
        sides.push(
            Side::YZ(
                YZRect::new(
                    point0.y(),
                    point1.y(),
                    point0.z(),
                    point1.z(),
                    point0.x(),
                    Some(material),
                ),
            ),
        );
        proof {
            assert(sides@ =~= faces(*point0, *point1, material));
        }
        Block { box_min, box_max, sides }
    }

    /// The box from corner to corner, its minimum and maximum put in order
    /// on every axis.
    pub fn bounding_box(&self, time0: Scalar, time1: Scalar) -> (r: Option<AABB>)
        ensures
            r == Some(AABB::spanning(self.box_min, self.box_max)),
    {
        Some(AABB::new(self.box_min, self.box_max))
    }
}

} // verus!
