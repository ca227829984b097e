use rand::rngs::StdRng;
use rand::Rng;
use rand::SeedableRng;
use raytracer::aabb::{Slab, AABB};
use raytracer::bvh::{BvhChild, BvhError, BvhNode};
use raytracer::hittable::{HitRecord, Hittable, HittableList, Sphere};
use raytracer::ray::Ray;
use raytracer::scalar::Scalar;
use raytracer::vec3::Vec3;

fn s(x: f32) -> Scalar {
    Scalar::from_bits(x.to_bits())
}

fn f(x: Scalar) -> f32 {
    f32::from_bits(x.to_bits())
}

fn v(x: f32, y: f32, z: f32) -> Vec3 {
    Vec3::new(Some(s(x)), Some(s(y)), Some(s(z)))
}

fn arr(p: Vec3) -> [f32; 3] {
    [f(p.x()), f(p.y()), f(p.z())]
}

fn dot(a: [f32; 3], b: [f32; 3]) -> f32 {
    a[0] * b[0] + a[1] * b[1] + a[2] * b[2]
}

/// A sphere with the arithmetic of its crossings done here.
struct Ball {
    shape: Sphere,
    boxed: bool,
}

fn ball(center: [f32; 3], radius: f32, material: usize) -> Ball {
    Ball { shape: Sphere::new(v(center[0], center[1], center[2]), s(radius), material), boxed: true }
}

impl Hittable for Ball {
    fn hit_spec(&self, ray: Ray, t_min: Scalar, t_max: Scalar) -> Option<HitRecord> {
        self.hit(&ray, t_min, t_max)
    }

    fn box_spec(&self, time0: Scalar, time1: Scalar) -> Option<AABB> {
        self.bounding_box(time0, time1)
    }

    fn hit(&self, ray: &Ray, t_min: Scalar, t_max: Scalar) -> Option<HitRecord> {
        let center = arr(self.shape.center);
        let radius = f(self.shape.radius);
        let o = arr(ray.origin());
        let d = arr(ray.direction());
        let oc = [o[0] - center[0], o[1] - center[1], o[2] - center[2]];
        let a = dot(d, d);
        let half_b = dot(oc, d);
        let c = dot(oc, oc) - radius * radius;
        let discriminant = half_b * half_b - a * c;
        let sqrtd = discriminant.sqrt();
        let near = (-half_b - sqrtd) / a;
        let far = (-half_b + sqrtd) / a;
        let root = f(Sphere::root(s(discriminant), s(near), s(far), t_min, t_max)?);
        let p = [o[0] + root * d[0], o[1] + root * d[1], o[2] + root * d[2]];
        let n = [
            (p[0] - center[0]) / radius,
            (p[1] - center[1]) / radius,
            (p[2] - center[2]) / radius,
        ];
        Some(HitRecord::new(
            s(root),
            v(p[0], p[1], p[2]),
            &v(n[0], n[1], n[2]),
            s(dot(d, n)),
            s(0.0),
            s(0.0),
            Some(self.shape.material),
        ))
    }

    fn bounding_box(&self, _time0: Scalar, _time1: Scalar) -> Option<AABB> {
        if !self.boxed {
            return None;
        }
        let c = arr(self.shape.center);
        let r = f(self.shape.radius);
        Some(AABB::new(v(c[0] - r, c[1] - r, c[2] - r), v(c[0] + r, c[1] + r, c[2] + r)))
    }
}

/// The slab test on a box and a ray, with the arithmetic done here.
fn box_hit(b: &AABB, ray: &Ray, t_min: Scalar, t_max: Scalar) -> bool {
    let lo = arr(*b.min());
    let hi = arr(*b.max());
    let o = arr(ray.origin());
    let d = arr(ray.direction());
    let mut slabs = Vec::new();
    for a in 0..3 {
        let inv_d = 1.0 / d[a];
        slabs.push(Slab::new(s(inv_d), s((lo[a] - o[a]) * inv_d), s((hi[a] - o[a]) * inv_d)));
    }
    AABB::hit(&slabs[0], &slabs[1], &slabs[2], t_min, t_max)
}

fn ray(origin: [f32; 3], direction: [f32; 3]) -> Ray {
    Ray::new(
        Some(v(origin[0], origin[1], origin[2])),
        Some(v(direction[0], direction[1], direction[2])),
        None,
    )
}

fn scene(count: usize, seed: u64) -> Vec<Ball> {
    let mut rng = StdRng::seed_from_u64(seed);
    let mut balls = Vec::new();
    for i in 0..count {
        let center = [
            rng.gen_range(-10.0f32..10.0),
            rng.gen_range(-10.0f32..10.0),
            rng.gen_range(-10.0f32..10.0),
        ];
        balls.push(ball(center, rng.gen_range(0.2f32..1.5), i));
    }
    balls
}

fn leaves_of_child(child: &BvhChild, out: &mut Vec<usize>) {
    match child {
        BvhChild::Object(i) => out.push(*i),
        BvhChild::Node(n) => leaves_of(n, out),
    }
}

fn leaves_of(node: &BvhNode, out: &mut Vec<usize>) {
    match (&node.left, &node.right) {
        (BvhChild::Object(i), BvhChild::Object(j)) if i == j => out.push(*i),
        _ => {
            leaves_of_child(&node.left, out);
            leaves_of_child(&node.right, out);
        }
    }
}

fn box_of_child(child: &BvhChild, balls: &Vec<Ball>) -> AABB {
    match child {
        BvhChild::Object(i) => balls[*i].bounding_box(s(0.0), s(1.0)).unwrap(),
        BvhChild::Node(n) => n.bbox,
    }
}

/// Checks one node and everything below it; returns the number of leaves.
fn check_node(node: &BvhNode, balls: &Vec<Ball>) -> usize {
    let left_box = box_of_child(&node.left, balls);
    let right_box = box_of_child(&node.right, balls);
    assert_eq!(node.bbox, AABB::surrounding_box(left_box, right_box));
    let mut left = Vec::new();
    let mut right = Vec::new();
    leaves_of_child(&node.left, &mut left);
    leaves_of_child(&node.right, &mut right);
    let mut some_axis = false;
    for axis in 0..3 {
        let mut fine = true;
        for &i in left.iter() {
            for &j in right.iter() {
                let a = balls[i].bounding_box(s(0.0), s(0.0)).unwrap().minimum.axis(axis);
                let b = balls[j].bounding_box(s(0.0), s(0.0)).unwrap().minimum.axis(axis);
                if f(a) > f(b) {
                    fine = false;
                }
            }
        }
        some_axis = some_axis || fine;
    }
    assert!(some_axis);
    match (&node.left, &node.right) {
        (BvhChild::Object(i), BvhChild::Object(j)) => {
            if i == j {
                1
            } else {
                2
            }
        }
        (BvhChild::Node(l), BvhChild::Node(r)) => {
            let nl = check_node(l, balls);
            let nr = check_node(r, balls);
            assert!(nl + nr >= 3);
            assert_eq!(nl, (nl + nr) / 2);
            nl + nr
        }
        _ => panic!("a node holds a surface beside a node"),
    }
}

#[test]
fn hierarchy_of_one_surface_holds_it_in_both_slots() {
    let balls = vec![ball([0.0, 0.0, -1.0], 0.5, 0)];
    let mut rng = StdRng::seed_from_u64(1);
    let node = BvhNode::new(&balls, 0, 1, s(0.0), s(1.0), &mut rng).unwrap();
    assert!(matches!(node.left, BvhChild::Object(0)));
    assert!(matches!(node.right, BvhChild::Object(0)));
    assert_eq!(node.bbox, AABB::new(v(-0.5, -0.5, -1.5), v(0.5, 0.5, -0.5)));
    assert_eq!(node.bounding_box(s(0.0), s(1.0)), Some(node.bbox));
}

#[test]
fn hierarchy_of_two_surfaces_puts_the_smaller_on_the_left() {
    let balls = vec![ball([5.0, 5.0, 5.0], 1.0, 0), ball([-5.0, -5.0, -5.0], 1.0, 1)];
    for seed in 0..20 {
        let mut rng = StdRng::seed_from_u64(seed);
        let node = BvhNode::new(&balls, 0, 2, s(0.0), s(1.0), &mut rng).unwrap();
        assert!(matches!(node.left, BvhChild::Object(1)));
        assert!(matches!(node.right, BvhChild::Object(0)));
        assert_eq!(node.bbox, AABB::new(v(-6.0, -6.0, -6.0), v(6.0, 6.0, 6.0)));
    }
}

#[test]
fn hierarchy_of_two_equal_surfaces_changes_their_places() {
    let balls = vec![ball([1.0, 1.0, 1.0], 1.0, 0), ball([1.0, 1.0, 1.0], 1.0, 1)];
    let mut rng = StdRng::seed_from_u64(3);
    let node = BvhNode::new(&balls, 0, 2, s(0.0), s(1.0), &mut rng).unwrap();
    assert!(matches!(node.left, BvhChild::Object(1)));
    assert!(matches!(node.right, BvhChild::Object(0)));
}

#[test]
fn hierarchy_holds_every_surface_of_the_span_once() {
    for count in 1..40usize {
        let balls = scene(count, count as u64);
        let mut rng = StdRng::seed_from_u64(1000 + count as u64);
        let node = BvhNode::new(&balls, 0, count, s(0.0), s(1.0), &mut rng).unwrap();
        let mut leaves = Vec::new();
        leaves_of(&node, &mut leaves);
        leaves.sort();
        let want: Vec<usize> = (0..count).collect();
        assert_eq!(leaves, want);
        assert_eq!(check_node(&node, &balls), count);
    }
}

#[test]
fn hierarchy_over_a_part_of_the_list() {
    let balls = scene(12, 5);
    let mut rng = StdRng::seed_from_u64(8);
    let node = BvhNode::new(&balls, 3, 9, s(0.0), s(1.0), &mut rng).unwrap();
    let mut leaves = Vec::new();
    leaves_of(&node, &mut leaves);
    leaves.sort();
    assert_eq!(leaves, vec![3, 4, 5, 6, 7, 8]);
    assert_eq!(check_node(&node, &balls), 6);
}

#[test]
fn hierarchy_from_a_list_covers_the_list() {
    let mut list = HittableList::new(None);
    for b in scene(7, 11) {
        list.add(b);
    }
    let mut rng = StdRng::seed_from_u64(2);
    let node = BvhNode::from(&list, s(0.0), s(1.0), &mut rng).unwrap();
    let mut leaves = Vec::new();
    leaves_of(&node, &mut leaves);
    leaves.sort();
    assert_eq!(leaves, vec![0, 1, 2, 3, 4, 5, 6]);
}

#[test]
fn hierarchy_box_is_the_union_of_all_boxes() {
    let balls = scene(9, 21);
    let mut rng = StdRng::seed_from_u64(4);
    let node = BvhNode::new(&balls, 0, 9, s(0.0), s(1.0), &mut rng).unwrap();
    let mut all = balls[0].bounding_box(s(0.0), s(1.0)).unwrap();
    for b in balls.iter() {
        all = AABB::surrounding_box(all, b.bounding_box(s(0.0), s(1.0)).unwrap());
    }
    assert_eq!(node.bbox, all);
}

#[test]
fn empty_span_is_refused() {
    let balls = scene(3, 1);
    let mut rng = StdRng::seed_from_u64(1);
    assert_eq!(BvhNode::new(&balls, 2, 2, s(0.0), s(1.0), &mut rng).err(), Some(BvhError::EmptySpan));
    assert_eq!(BvhNode::new(&balls, 3, 1, s(0.0), s(1.0), &mut rng).err(), Some(BvhError::EmptySpan));
    let none: Vec<Ball> = Vec::new();
    assert_eq!(BvhNode::new(&none, 0, 0, s(0.0), s(1.0), &mut rng).err(), Some(BvhError::EmptySpan));
    let list: HittableList<Ball> = HittableList::new(None);
    assert_eq!(BvhNode::from(&list, s(0.0), s(1.0), &mut rng).err(), Some(BvhError::EmptySpan));
}

#[test]
fn span_behind_the_list_is_refused() {
    let balls = scene(3, 1);
    let mut rng = StdRng::seed_from_u64(1);
    assert_eq!(
        BvhNode::new(&balls, 0, 4, s(0.0), s(1.0), &mut rng).err(),
        Some(BvhError::SpanOutOfRange)
    );
    assert_eq!(
        BvhNode::new(&balls, 7, 5, s(0.0), s(1.0), &mut rng).err(),
        Some(BvhError::SpanOutOfRange)
    );
}

#[test]
fn surface_without_a_box_is_refused() {
    let mut balls = scene(5, 1);
    balls[3].boxed = false;
    let mut rng = StdRng::seed_from_u64(1);
    assert_eq!(
        BvhNode::new(&balls, 0, 5, s(0.0), s(1.0), &mut rng).err(),
        Some(BvhError::NoBoundingBox)
    );
    assert_eq!(
        BvhNode::new(&balls, 3, 4, s(0.0), s(1.0), &mut rng).err(),
        Some(BvhError::NoBoundingBox)
    );
    assert!(BvhNode::new(&balls, 0, 3, s(0.0), s(1.0), &mut rng).is_ok());
    assert!(BvhNode::new(&balls, 4, 5, s(0.0), s(1.0), &mut rng).is_ok());
}

#[test]
fn same_seed_builds_the_same_hierarchy() {
    let balls = scene(30, 77);
    let mut a = StdRng::seed_from_u64(5);
    let mut b = StdRng::seed_from_u64(5);
    let first = BvhNode::new(&balls, 0, 30, s(0.0), s(1.0), &mut a).unwrap();
    let second = BvhNode::new(&balls, 0, 30, s(0.0), s(1.0), &mut b).unwrap();
    assert_eq!(format!("{:?}", first), format!("{:?}", second));
    let mut xs = Vec::new();
    let mut ys = Vec::new();
    leaves_of(&first, &mut xs);
    leaves_of(&second, &mut ys);
    assert_eq!(xs, ys);
}

#[test]
fn hierarchy_and_list_agree_on_a_thousand_rays() {
    let balls = scene(60, 2024);
    let mut list = HittableList::new(None);
    for b in scene(60, 2024) {
        list.add(b);
    }
    let mut rng = StdRng::seed_from_u64(9);
    let node = BvhNode::new(&balls, 0, 60, s(0.0), s(1.0), &mut rng).unwrap();
    let mut hits = 0;
    for _ in 0..1000 {
        let origin = [
            rng.gen_range(-15.0f32..15.0),
            rng.gen_range(-15.0f32..15.0),
            rng.gen_range(-15.0f32..15.0),
        ];
        let direction = [
            rng.gen_range(-1.0f32..1.0),
            rng.gen_range(-1.0f32..1.0),
            rng.gen_range(-1.0f32..1.0),
        ];
        let r = ray(origin, direction);
        let in_list = list.hit(&r, s(0.001), Scalar::infinity());
        let in_tree = node.hit(&balls, &r, s(0.001), Scalar::infinity(), &|b: &AABB, lo: Scalar, hi: Scalar| {
            box_hit(b, &r, lo, hi)
        });
        assert_eq!(in_list.is_some(), in_tree.is_some());
        if let (Some(a), Some(b)) = (in_list, in_tree) {
            hits += 1;
            assert!((f(a.t) - f(b.t)).abs() <= 1.0e-4 * f(a.t).abs().max(1.0));
            let na = arr(a.normal);
            let nb = arr(b.normal);
            for k in 0..3 {
                assert!((na[k] - nb[k]).abs() <= 1.0e-3);
            }
        }
    }
    assert!(hits > 50);
}

#[test]
fn hierarchy_without_pruning_finds_what_the_list_finds() {
    let balls = scene(25, 31);
    let mut list = HittableList::new(None);
    for b in scene(25, 31) {
        list.add(b);
    }
    let mut rng = StdRng::seed_from_u64(12);
    let node = BvhNode::new(&balls, 0, 25, s(0.0), s(1.0), &mut rng).unwrap();
    for _ in 0..200 {
        let r = ray(
            [rng.gen_range(-15.0f32..15.0), rng.gen_range(-15.0f32..15.0), -20.0],
            [rng.gen_range(-0.5f32..0.5), rng.gen_range(-0.5f32..0.5), 1.0],
        );
        let in_list = list.hit(&r, s(0.001), Scalar::infinity());
        let in_tree =
            node.hit(&balls, &r, s(0.001), Scalar::infinity(), &|_b: &AABB, _lo: Scalar, _hi: Scalar| true);
        assert_eq!(in_list.map(|h| h.t), in_tree.map(|h| h.t));
    }
}

#[test]
fn hierarchy_that_is_never_crossed_reports_nothing() {
    let balls = scene(5, 31);
    let mut rng = StdRng::seed_from_u64(12);
    let node = BvhNode::new(&balls, 0, 5, s(0.0), s(1.0), &mut rng).unwrap();
    let toward = arr(balls[0].shape.center);
    let r = ray([0.0, 0.0, 0.0], toward);
    let hit = node.hit(&balls, &r, s(0.001), Scalar::infinity(), &|_b: &AABB, _lo: Scalar, _hi: Scalar| false);
    assert!(hit.is_none());
}

#[test]
fn hierarchy_asked_with_a_shorter_list_skips_the_missing_places() {
    let balls = scene(4, 3);
    let mut rng = StdRng::seed_from_u64(12);
    let node = BvhNode::new(&balls, 0, 4, s(0.0), s(1.0), &mut rng).unwrap();
    let none: Vec<Ball> = Vec::new();
    let r = ray([0.0, 0.0, 0.0], arr(balls[2].shape.center));
    let hit = node.hit(&none, &r, s(0.001), Scalar::infinity(), &|_b: &AABB, _lo: Scalar, _hi: Scalar| true);
    assert!(hit.is_none());
}

#[test]
fn hierarchy_and_list_report_the_same_record() {
    let balls = scene(40, 515);
    let mut list = HittableList::new(None);
    for b in scene(40, 515) {
        list.add(b);
    }
    let mut rng = StdRng::seed_from_u64(21);
    let node = BvhNode::new(&balls, 0, 40, s(0.0), s(1.0), &mut rng).unwrap();
    let mut hits = 0;
    for _ in 0..500 {
        let r = ray(
            [
                rng.gen_range(-15.0f32..15.0),
                rng.gen_range(-15.0f32..15.0),
                rng.gen_range(-15.0f32..15.0),
            ],
            [
                rng.gen_range(-1.0f32..1.0),
                rng.gen_range(-1.0f32..1.0),
                rng.gen_range(-1.0f32..1.0),
            ],
        );
        let in_list = list.hit(&r, s(0.001), Scalar::infinity());
        let in_tree = node.hit(&balls, &r, s(0.001), Scalar::infinity(), &|b: &AABB, lo: Scalar, hi: Scalar| {
            box_hit(b, &r, lo, hi)
        });
        assert_eq!(in_list, in_tree);
        if in_list.is_some() {
            hits += 1;
        }
    }
    assert!(hits > 20);
}
