//! Why the hierarchy may stand in for the plain list: under two conditions on
//! the surfaces and the boxes, both find a hit on the same rays, and the same
//! nearest ray parameter; and the same record, where no two surfaces are hit
//! at one parameter. The conditions are facts of the arithmetic of the
//! surfaces and of the box test, which whoever implements them has to see to.
//! A list of surfaces that meet the first condition meets it itself.
use crate::aabb::AABB;
use crate::bvh::{
    built, leaves_ordered, lemma_node_box_covers, span_boxes, span_indices, BvhChild, BvhNode,
};
use crate::hittable::{closest_hit, HitRecord, Hittable, HittableList};
use crate::ray::Ray;
use crate::scalar::Scalar;
use vstd::prelude::*;

verus! {

broadcast use vstd::seq_lib::group_to_multiset_ensures;

/// What is left of an answer when the window closes at `upper`: the answer
/// itself where its hit still lies in the window, else nothing.
pub open spec fn narrowed(answer: Option<HitRecord>, upper: Scalar) -> Option<HitRecord> {
    if answer is Some && (answer->0).t.less_eq(upper) {
        answer
    } else {
        None
    }
}

/// Whether a surface answers a ray in step with the window: a hit lies in
/// the window that was asked for, and closing the window earlier changes the
/// answer only by leaving out a hit that is now outside.
pub open spec fn steady<H: Hittable>(surface: H, ray: Ray, t_min: Scalar) -> bool {
    &&& forall|hi: Scalar| (#[trigger] surface.hit_spec(ray, t_min, hi)) is Some ==> (
    surface.hit_spec(ray, t_min, hi)->0).within(t_min, hi)
    &&& forall|hi: Scalar, upper: Scalar|
        #![trigger surface.hit_spec(ray, t_min, hi), surface.hit_spec(ray, t_min, upper)]
        upper.less_eq(hi) ==> surface.hit_spec(ray, t_min, upper) == narrowed(
            surface.hit_spec(ray, t_min, hi),
            upper,
        )
}

/// Whether every surface of a list is steady.
pub open spec fn all_steady<H: Hittable>(objects: Seq<H>, ray: Ray, t_min: Scalar) -> bool {
    forall|i: int| 0 <= i < objects.len() ==> steady(#[trigger] objects[i], ray, t_min)
}

/// Whether `answer` is a nearest hit among the surfaces at the places
/// `members`, in the window from `t_min` to `hi`: it is the hit of one of
/// them, and none of them is hit earlier.
pub open spec fn nearest_among<H: Hittable>(
    objects: Seq<H>,
    members: Seq<usize>,
    ray: Ray,
    t_min: Scalar,
    hi: Scalar,
    answer: Option<HitRecord>,
) -> bool {
    &&& answer is Some ==> exists|k: int|
        0 <= k < members.len() && members[k] < objects.len() && (#[trigger] objects[members[k] as int]).hit_spec(
            ray,
            t_min,
            hi,
        ) == answer
    &&& forall|k: int|
        0 <= k < members.len() && members[k] < objects.len() && (#[trigger] objects[members[k] as int]).hit_spec(
            ray,
            t_min,
            hi,
        ) is Some ==> answer is Some && (answer->0).t.rank() <= (objects[members[k] as int].hit_spec(
            ray,
            t_min,
            hi,
        )->0).t.rank()
}

/// Whether the boxes of a hierarchy are on the safe side for a ray: where
/// the ray misses the box of a node in some window, it hits no surface below
/// that node in that window.
pub open spec fn boxes_hold<H: Hittable>(
    node: BvhNode,
    objects: Seq<H>,
    ray: Ray,
    t_min: Scalar,
    crossed: spec_fn(AABB, Scalar, Scalar) -> bool,
) -> bool
    decreases node,
{
    &&& forall|hi: Scalar, k: int|
        !(#[trigger] crossed(node.bbox, t_min, hi)) && 0 <= k < node.leaves().len()
            && node.leaves()[k] < objects.len() ==> (#[trigger] objects[node.leaves()[k] as int]).hit_spec(
            ray,
            t_min,
            hi,
        ) is None
    &&& match node.left {
        BvhChild::Object(_) => true,
        BvhChild::Node(n) => boxes_hold(*n, objects, ray, t_min, crossed),
    }
    &&& match node.right {
        BvhChild::Object(_) => true,
        BvhChild::Node(n) => boxes_hold(*n, objects, ray, t_min, crossed),
    }
}

/// A scan of a list of steady surfaces ends with a nearest hit among all of
/// them.
pub proof fn lemma_list_finds_nearest<H: Hittable>(
    objects: Seq<H>,
    ray: Ray,
    t_min: Scalar,
    t_max: Scalar,
)
    requires
        all_steady(objects, ray, t_min),
        objects.len() <= usize::MAX,
    ensures
        nearest_among(
            objects,
            span_indices(0, objects.len() as usize),
            ray,
            t_min,
            t_max,
            closest_hit(objects, ray, t_min, t_max),
        ),
    decreases objects.len(),
{
    let members = span_indices(0, objects.len() as usize);
    let answer = closest_hit(objects, ray, t_min, t_max);
    if objects.len() > 0 {
        let front = objects.drop_last();
        let n = front.len() as int;
        assert forall|i: int| 0 <= i < front.len() implies steady(#[trigger] front[i], ray, t_min) by {
            assert(front[i] == objects[i]);
        }
        lemma_list_finds_nearest(front, ray, t_min, t_max);
        let front_members = span_indices(0, front.len() as usize);
        let before = closest_hit(front, ray, t_min, t_max);
        let limit = if before is Some { (before->0).t } else { t_max };
        let last = objects.last();
        assert(steady(objects[n], ray, t_min));
        let wide = last.hit_spec(ray, t_min, t_max);
        let here = last.hit_spec(ray, t_min, limit);
        if before is Some {
            let kb = choose|k: int|
                0 <= k < front_members.len() && front_members[k] < front.len() && (
                #[trigger] front[front_members[k] as int]).hit_spec(ray, t_min, t_max) == before;
            assert(front[front_members[kb] as int] == objects[kb]);
            assert(steady(objects[kb], ray, t_min));
            assert((before->0).within(t_min, t_max));
            assert(here == narrowed(wide, limit));
        }
        if answer is Some {
            if here is Some {
                assert(members[n] == n);
                assert(objects[members[n] as int].hit_spec(ray, t_min, t_max) == answer);
            } else {
                let kb = choose|k: int|
                    0 <= k < front_members.len() && front_members[k] < front.len() && (
                    #[trigger] front[front_members[k] as int]).hit_spec(ray, t_min, t_max)
                        == before;
                assert(front[front_members[kb] as int] == objects[kb]);
                assert(members[kb] == kb);
                assert(objects[members[kb] as int].hit_spec(ray, t_min, t_max) == answer);
            }
        }
        assert forall|k: int|
            0 <= k < members.len() && members[k] < objects.len() && (
            #[trigger] objects[members[k] as int]).hit_spec(ray, t_min, t_max) is Some implies answer
            is Some && (answer->0).t.rank() <= (objects[members[k] as int].hit_spec(
            ray,
            t_min,
            t_max,
        )->0).t.rank() by {
            assert(members[k] == k);
            if k < n {
                assert(front_members[k] == k);
                assert(front[front_members[k] as int] == objects[k]);
                assert(front[front_members[k] as int].hit_spec(ray, t_min, t_max) is Some);
            }
        }
    }
}

/// What a slot of a hierarchy finds is a nearest hit among the surfaces
/// below it.
pub proof fn lemma_child_finds_nearest<H: Hittable>(
    child: BvhChild,
    objects: Seq<H>,
    ray: Ray,
    t_min: Scalar,
    hi: Scalar,
    crossed: spec_fn(AABB, Scalar, Scalar) -> bool,
)
    requires
        all_steady(objects, ray, t_min),
        child is Node ==> boxes_hold(*child->Node_0, objects, ray, t_min, crossed),
    ensures
        nearest_among(
            objects,
            child.leaves(),
            ray,
            t_min,
            hi,
            child.hit_in(objects, ray, t_min, hi, crossed),
        ),
    decreases child,
{
    match child {
        BvhChild::Object(i) => {
            if i < objects.len() {
                assert(child.leaves()[0] == i);
            }
        },
        BvhChild::Node(n) => {
            lemma_hierarchy_finds_nearest(*n, objects, ray, t_min, hi, crossed);
        },
    }
}

/// What a hierarchy with safe boxes over steady surfaces finds is a nearest
/// hit among the surfaces below it.
pub proof fn lemma_hierarchy_finds_nearest<H: Hittable>(
    node: BvhNode,
    objects: Seq<H>,
    ray: Ray,
    t_min: Scalar,
    hi: Scalar,
    crossed: spec_fn(AABB, Scalar, Scalar) -> bool,
)
    requires
        all_steady(objects, ray, t_min),
        boxes_hold(node, objects, ray, t_min, crossed),
    ensures
        nearest_among(
            objects,
            node.leaves(),
            ray,
            t_min,
            hi,
            node.hit_in(objects, ray, t_min, hi, crossed),
        ),
    decreases node,
{
    let answer = node.hit_in(objects, ray, t_min, hi, crossed);
    let leaves = node.leaves();
    if crossed(node.bbox, t_min, hi) {
        let on_left = node.left.hit_in(objects, ray, t_min, hi, crossed);
        let limit = if on_left is Some { (on_left->0).t } else { hi };
        let on_right = node.right.hit_in(objects, ray, t_min, limit, crossed);
        lemma_child_finds_nearest(node.left, objects, ray, t_min, hi, crossed);
        lemma_child_finds_nearest(node.right, objects, ray, t_min, limit, crossed);
        let ll = node.left.leaves();
        let rl = node.right.leaves();
        if on_left is Some {
            let kl = choose|k: int|
                0 <= k < ll.len() && ll[k] < objects.len() && (#[trigger] objects[ll[k] as int]).hit_spec(
                    ray,
                    t_min,
                    hi,
                ) == on_left;
            assert(steady(objects[ll[kl] as int], ray, t_min));
            assert((on_left->0).within(t_min, hi));
        }
        assert(limit.less_eq(hi) || limit == hi);
        // Every leaf of the node is a leaf of one of the two slots.
        assert forall|k: int| 0 <= k < leaves.len() implies (exists|a: int|
            0 <= a < ll.len() && ll[a] == #[trigger] leaves[k]) || (exists|b: int|
            0 <= b < rl.len() && rl[b] == leaves[k]) by {
            if node.degenerate() {
                assert(ll[k] == leaves[k]);
            } else if k < ll.len() {
                assert(ll[k] == leaves[k]);
            } else {
                assert(rl[k - ll.len()] == leaves[k]);
            }
        }
        // Every leaf of a slot is a leaf of the node.
        assert forall|a: int| 0 <= a < ll.len() implies exists|k: int|
            0 <= k < leaves.len() && leaves[k] == #[trigger] ll[a] by {
            assert(leaves[a] == ll[a]);
        }
        assert forall|b: int| 0 <= b < rl.len() implies exists|k: int|
            0 <= k < leaves.len() && leaves[k] == #[trigger] rl[b] by {
            if node.degenerate() {
                assert(leaves[b] == rl[b]);
            } else {
                assert(leaves[ll.len() + b] == rl[b]);
            }
        }
        if answer is Some {
            if on_right is Some {
                let kr = choose|k: int|
                    0 <= k < rl.len() && rl[k] < objects.len() && (#[trigger] objects[rl[k] as int]).hit_spec(
                        ray,
                        t_min,
                        limit,
                    ) == on_right;
                let o = objects[rl[kr] as int];
                assert(steady(o, ray, t_min));
                assert(o.hit_spec(ray, t_min, limit) == narrowed(o.hit_spec(ray, t_min, hi), limit));
                let k = choose|k: int| 0 <= k < leaves.len() && leaves[k] == rl[kr];
                assert(objects[leaves[k] as int].hit_spec(ray, t_min, hi) == answer);
            } else {
                let kl = choose|k: int|
                    0 <= k < ll.len() && ll[k] < objects.len() && (#[trigger] objects[ll[k] as int]).hit_spec(
                        ray,
                        t_min,
                        hi,
                    ) == on_left;
                let k = choose|k: int| 0 <= k < leaves.len() && leaves[k] == ll[kl];
                assert(objects[leaves[k] as int].hit_spec(ray, t_min, hi) == answer);
            }
        }
        assert forall|k: int|
            0 <= k < leaves.len() && leaves[k] < objects.len() && (
            #[trigger] objects[leaves[k] as int]).hit_spec(ray, t_min, hi) is Some implies answer
            is Some && (answer->0).t.rank() <= (objects[leaves[k] as int].hit_spec(
            ray,
            t_min,
            hi,
        )->0).t.rank() by {
            let o = objects[leaves[k] as int];
            let wide = o.hit_spec(ray, t_min, hi);
            assert(steady(o, ray, t_min));
            assert((wide->0).within(t_min, hi));
            if exists|a: int| 0 <= a < ll.len() && ll[a] == leaves[k] {
                let a = choose|a: int| 0 <= a < ll.len() && ll[a] == leaves[k];
                assert(objects[ll[a] as int].hit_spec(ray, t_min, hi) is Some);
                assert(on_left is Some);
                if on_right is Some {
                    assert((on_right->0).within(t_min, limit)) by {
                        let kr = choose|k: int|
                            0 <= k < rl.len() && rl[k] < objects.len() && (
                            #[trigger] objects[rl[k] as int]).hit_spec(ray, t_min, limit)
                                == on_right;
                        assert(steady(objects[rl[kr] as int], ray, t_min));
                    }
                }
            } else {
                let b = choose|b: int| 0 <= b < rl.len() && rl[b] == leaves[k];
                assert(o.hit_spec(ray, t_min, limit) == narrowed(wide, limit));
                if (wide->0).t.less_eq(limit) {
                    assert(objects[rl[b] as int].hit_spec(ray, t_min, limit) is Some);
                } else {
                    assert(on_left is Some);
                    if on_right is Some {
                        assert((on_right->0).within(t_min, limit)) by {
                            let kr = choose|k: int|
                                0 <= k < rl.len() && rl[k] < objects.len() && (
                                #[trigger] objects[rl[k] as int]).hit_spec(ray, t_min, limit)
                                    == on_right;
                            assert(steady(objects[rl[kr] as int], ray, t_min));
                        }
                    }
                }
            }
        }
    } else {
        assert forall|k: int|
            0 <= k < leaves.len() && leaves[k] < objects.len() implies (
        #[trigger] objects[leaves[k] as int]).hit_spec(ray, t_min, hi) is None by {
            assert(!crossed(node.bbox, t_min, hi));
        }
    }
}

/// Whether the box test is in step with the boxes: a ray that meets a box
/// meets every box round it.
pub open spec fn respects_enclosure(
    crossed: spec_fn(AABB, Scalar, Scalar) -> bool,
    t_min: Scalar,
) -> bool {
    forall|outer: AABB, inner: AABB, hi: Scalar|
        outer.encloses(inner) && #[trigger] crossed(inner, t_min, hi) ==> #[trigger] crossed(
            outer,
            t_min,
            hi,
        )
}

/// Whether every surface lies in its box for a ray: the ray hits the
/// surface only in a window in which it meets the box of the surface.
pub open spec fn surfaces_in_boxes<H: Hittable>(
    objects: Seq<H>,
    boxes: Seq<AABB>,
    ray: Ray,
    t_min: Scalar,
    crossed: spec_fn(AABB, Scalar, Scalar) -> bool,
) -> bool {
    forall|i: int, hi: Scalar|
        0 <= i < objects.len() && (#[trigger] objects[i].hit_spec(ray, t_min, hi)) is Some
            ==> crossed(boxes[i], t_min, hi)
}

/// The boxes of a hierarchy are on the safe side where every surface lies in
/// its own box and the box test is in step with the boxes: the cached box of
/// a node encloses the boxes of all surfaces below it.
pub proof fn lemma_boxes_hold<H: Hittable>(
    node: BvhNode,
    objects: Seq<H>,
    keys: Seq<AABB>,
    boxes: Seq<AABB>,
    ray: Ray,
    t_min: Scalar,
    crossed: spec_fn(AABB, Scalar, Scalar) -> bool,
)
    requires
        node.built_over(keys, boxes),
        leaves_ordered(node.leaves(), boxes),
        respects_enclosure(crossed, t_min),
        surfaces_in_boxes(objects, boxes, ray, t_min, crossed),
    ensures
        boxes_hold(node, objects, ray, t_min, crossed),
    decreases node,
{
    let leaves = node.leaves();
    let ll = node.left.leaves();
    let rl = node.right.leaves();
    lemma_node_box_covers(node, keys, boxes);
    assert forall|hi: Scalar, k: int|
        !(#[trigger] crossed(node.bbox, t_min, hi)) && 0 <= k < leaves.len() && leaves[k]
            < objects.len() implies (#[trigger] objects[leaves[k] as int]).hit_spec(
        ray,
        t_min,
        hi,
    ) is None by {
        let place = leaves[k] as int;
        assert(node.bbox.encloses(boxes[place]));
        if objects[place].hit_spec(ray, t_min, hi) is Some {
            assert(crossed(boxes[place], t_min, hi));
            assert(crossed(node.bbox, t_min, hi));
        }
    }
    match node.left {
        BvhChild::Object(_) => {},
        BvhChild::Node(n) => {
            assert forall|a: int| 0 <= a < ll.len() implies boxes[#[trigger] ll[a] as int].ordered() by {
                assert(leaves[a] == ll[a]);
            }
            lemma_boxes_hold(*n, objects, keys, boxes, ray, t_min, crossed);
        },
    }
    match node.right {
        BvhChild::Object(_) => {},
        BvhChild::Node(n) => {
            assert forall|b: int| 0 <= b < rl.len() implies boxes[#[trigger] rl[b] as int].ordered() by {
                assert(leaves[ll.len() + b] == rl[b]);
            }
            lemma_boxes_hold(*n, objects, keys, boxes, ray, t_min, crossed);
        },
    }
}

/// A hierarchy built over a whole list agrees with the list: where the
/// surfaces are steady, their boxes ordered, every surface lies in its box
/// and the box test is in step with the boxes, a ray hits something in the
/// hierarchy exactly when a scan of the list finds a hit, and both report
/// the same nearest ray parameter.
pub proof fn lemma_built_hierarchy_agrees_with_list<H: Hittable>(
    node: BvhNode,
    objects: Seq<H>,
    time0: Scalar,
    time1: Scalar,
    ray: Ray,
    t_min: Scalar,
    t_max: Scalar,
    crossed: spec_fn(AABB, Scalar, Scalar) -> bool,
)
    requires
        objects.len() <= usize::MAX,
        built(objects, 0, objects.len() as usize, time0, time1, Ok(node)),
        forall|i: int|
            0 <= i < objects.len() ==> (#[trigger] span_boxes(
                objects,
                0,
                objects.len() as usize,
                time0,
                time1,
            )[i]).ordered(),
        all_steady(objects, ray, t_min),
        respects_enclosure(crossed, t_min),
        surfaces_in_boxes(
            objects,
            span_boxes(objects, 0, objects.len() as usize, time0, time1),
            ray,
            t_min,
            crossed,
        ),
    ensures
        node.hit_in(objects, ray, t_min, t_max, crossed) is Some <==> closest_hit(
            objects,
            ray,
            t_min,
            t_max,
        ) is Some,
        closest_hit(objects, ray, t_min, t_max) is Some ==> (node.hit_in(
            objects,
            ray,
            t_min,
            t_max,
            crossed,
        )->0).t.rank() == (closest_hit(objects, ray, t_min, t_max)->0).t.rank(),
{
    let n = objects.len() as usize;
    let zero = Scalar { bits: 0 };
    let keys = span_boxes(objects, 0, n, zero, zero);
    let boxes = span_boxes(objects, 0, n, time0, time1);
    let leaves = node.leaves();
    assert forall|k: int| 0 <= k < leaves.len() implies boxes[#[trigger] leaves[k] as int].ordered() by {
        let place = leaves[k];
        assert(leaves.contains(place));
        assert(leaves.to_multiset().count(place) > 0);
        assert(span_indices(0, n).contains(place));
    }
    lemma_boxes_hold(node, objects, keys, boxes, ray, t_min, crossed);
    lemma_hierarchy_agrees_with_list(node, objects, ray, t_min, t_max, crossed);
}

/// The hierarchy and the plain list agree. Over steady surfaces, with boxes
/// on the safe side and a hierarchy whose leaves are all places of the list,
/// a ray hits something in the hierarchy exactly when a scan of the list
/// finds a hit, and both report the same nearest ray parameter.
pub proof fn lemma_hierarchy_agrees_with_list<H: Hittable>(
    node: BvhNode,
    objects: Seq<H>,
    ray: Ray,
    t_min: Scalar,
    t_max: Scalar,
    crossed: spec_fn(AABB, Scalar, Scalar) -> bool,
)
    requires
        all_steady(objects, ray, t_min),
        boxes_hold(node, objects, ray, t_min, crossed),
        objects.len() <= usize::MAX,
        node.leaves().to_multiset() == span_indices(0, objects.len() as usize).to_multiset(),
    ensures
        node.hit_in(objects, ray, t_min, t_max, crossed) is Some <==> closest_hit(
            objects,
            ray,
            t_min,
            t_max,
        ) is Some,
        closest_hit(objects, ray, t_min, t_max) is Some ==> (node.hit_in(
            objects,
            ray,
            t_min,
            t_max,
            crossed,
        )->0).t.rank() == (closest_hit(objects, ray, t_min, t_max)->0).t.rank(),
{
    let leaves = node.leaves();
    let all = span_indices(0, objects.len() as usize);
    let in_tree = node.hit_in(objects, ray, t_min, t_max, crossed);
    let in_list = closest_hit(objects, ray, t_min, t_max);
    lemma_hierarchy_finds_nearest(node, objects, ray, t_min, t_max, crossed);
    lemma_list_finds_nearest(objects, ray, t_min, t_max);
    if in_tree is Some {
        let k = choose|k: int|
            0 <= k < leaves.len() && leaves[k] < objects.len() && (#[trigger] objects[leaves[k] as int]).hit_spec(
                ray,
                t_min,
                t_max,
            ) == in_tree;
        let place = leaves[k];
        assert(all[place as int] == place);
        assert(objects[all[place as int] as int].hit_spec(ray, t_min, t_max) is Some);
    }
    if in_list is Some {
        let k = choose|k: int|
            0 <= k < all.len() && all[k] < objects.len() && (#[trigger] objects[all[k] as int]).hit_spec(
                ray,
                t_min,
                t_max,
            ) == in_list;
        let place = all[k];
        assert(all.contains(place));
        assert(all.to_multiset().count(place) > 0);
        assert(leaves.contains(place));
        let j = choose|j: int| 0 <= j < leaves.len() && leaves[j] == place;
        assert(objects[leaves[j] as int].hit_spec(ray, t_min, t_max) is Some);
    }
}

/// Whether no two surfaces of a list are hit by a ray at the same
/// parameter, in the window from `t_min` to `t_max`.
pub open spec fn hits_apart<H: Hittable>(
    objects: Seq<H>,
    ray: Ray,
    t_min: Scalar,
    t_max: Scalar,
) -> bool {
    forall|i: int, j: int|
        0 <= i < j < objects.len() && (#[trigger] objects[i].hit_spec(ray, t_min, t_max)) is Some
            && (#[trigger] objects[j].hit_spec(ray, t_min, t_max)) is Some ==> (objects[i].hit_spec(
            ray,
            t_min,
            t_max,
        )->0).t.rank() != (objects[j].hit_spec(ray, t_min, t_max)->0).t.rank()
}

/// The hierarchy and the plain list report the same record: the same
/// point, normal, face and material, not the parameter alone. This holds
/// where no two surfaces are hit at one parameter; where two are, either may
/// be named by either scan.
pub proof fn lemma_hierarchy_reports_what_the_list_reports<H: Hittable>(
    node: BvhNode,
    objects: Seq<H>,
    ray: Ray,
    t_min: Scalar,
    t_max: Scalar,
    crossed: spec_fn(AABB, Scalar, Scalar) -> bool,
)
    requires
        all_steady(objects, ray, t_min),
        boxes_hold(node, objects, ray, t_min, crossed),
        objects.len() <= usize::MAX,
        node.leaves().to_multiset() == span_indices(0, objects.len() as usize).to_multiset(),
        hits_apart(objects, ray, t_min, t_max),
    ensures
        node.hit_in(objects, ray, t_min, t_max, crossed) == closest_hit(objects, ray, t_min, t_max),
{
    let leaves = node.leaves();
    let all = span_indices(0, objects.len() as usize);
    let in_tree = node.hit_in(objects, ray, t_min, t_max, crossed);
    let in_list = closest_hit(objects, ray, t_min, t_max);
    lemma_hierarchy_agrees_with_list(node, objects, ray, t_min, t_max, crossed);
    lemma_hierarchy_finds_nearest(node, objects, ray, t_min, t_max, crossed);
    lemma_list_finds_nearest(objects, ray, t_min, t_max);
    if in_tree is Some {
        let k = choose|k: int|
            0 <= k < leaves.len() && leaves[k] < objects.len() && (#[trigger] objects[leaves[k] as int]).hit_spec(
                ray,
                t_min,
                t_max,
            ) == in_tree;
        let m = choose|m: int|
            0 <= m < all.len() && all[m] < objects.len() && (#[trigger] objects[all[m] as int]).hit_spec(
                ray,
                t_min,
                t_max,
            ) == in_list;
        let first = leaves[k] as int;
        let second = all[m] as int;
        assert(objects[first].hit_spec(ray, t_min, t_max) is Some);
        assert(objects[second].hit_spec(ray, t_min, t_max) is Some);
        // Both are hit at the same parameter, so they are one surface.
        assert(first == second);
    }
}

/// A scan of steady surfaces answers in step with the window: its hit lies
/// in the window, and closing the window earlier leaves the answer as it is
/// or leaves it out.
pub proof fn lemma_scan_narrows<H: Hittable>(
    objects: Seq<H>,
    ray: Ray,
    t_min: Scalar,
    hi: Scalar,
    upper: Scalar,
)
    requires
        all_steady(objects, ray, t_min),
    ensures
        closest_hit(objects, ray, t_min, hi) is Some ==> (closest_hit(
            objects,
            ray,
            t_min,
            hi,
        )->0).within(t_min, hi),
        upper.less_eq(hi) ==> closest_hit(objects, ray, t_min, upper) == narrowed(
            closest_hit(objects, ray, t_min, hi),
            upper,
        ),
    decreases objects.len(),
{
    if objects.len() > 0 {
        let front = objects.drop_last();
        assert forall|i: int| 0 <= i < front.len() implies steady(#[trigger] front[i], ray, t_min) by {
            assert(front[i] == objects[i]);
        }
        lemma_scan_narrows(front, ray, t_min, hi, upper);
        let last = objects.last();
        assert(steady(objects[objects.len() - 1], ray, t_min));
        let before_wide = closest_hit(front, ray, t_min, hi);
        let limit_wide = if before_wide is Some { (before_wide->0).t } else { hi };
        let here_wide = last.hit_spec(ray, t_min, limit_wide);
        if here_wide is Some {
            assert((here_wide->0).within(t_min, limit_wide));
        }
        if upper.less_eq(hi) {
            let before = closest_hit(front, ray, t_min, upper);
            let limit = if before is Some { (before->0).t } else { upper };
            let here = last.hit_spec(ray, t_min, limit);
            if limit != limit_wide {
                assert(limit == upper);
                assert(upper.less_eq(limit_wide));
                assert(here == narrowed(here_wide, upper));
            }
        }
    }
}

/// A list of steady surfaces is a steady surface itself.
pub proof fn lemma_list_is_steady<H: Hittable>(list: HittableList<H>, ray: Ray, t_min: Scalar)
    requires
        all_steady(list.objects@, ray, t_min),
    ensures
        steady(list, ray, t_min),
{
    assert forall|hi: Scalar| (#[trigger] list.hit_spec(ray, t_min, hi)) is Some implies (
    list.hit_spec(ray, t_min, hi)->0).within(t_min, hi) by {
        lemma_scan_narrows(list.objects@, ray, t_min, hi, hi);
    }
    assert forall|hi: Scalar, upper: Scalar|
        #![trigger list.hit_spec(ray, t_min, hi), list.hit_spec(ray, t_min, upper)]
        upper.less_eq(hi) implies list.hit_spec(ray, t_min, upper) == narrowed(
        list.hit_spec(ray, t_min, hi),
        upper,
    ) by {
        lemma_scan_narrows(list.objects@, ray, t_min, hi, upper);
    }
}

} // verus!
